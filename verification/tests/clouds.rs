use cloud_lights::clouds::{cloud_to_light, parse_pattern, Channel, Cloud, CloudSet, ColourCloud};
use cloud_lights::cycle::Cycle;
use cloud_lights::render::Colour;

#[test]
fn parse_reads_comma_separated_levels() {
    assert_eq!(parse_pattern("1,2,3\n"), Some(vec![1u8, 2, 3]));
    assert_eq!(parse_pattern("0\n255\n17 "), Some(vec![0u8, 255, 17]));
}

#[test]
fn parse_of_empty_text_is_empty() {
    assert_eq!(parse_pattern(""), Some(vec![]));
}

#[test]
fn parse_ignores_digits_after_last_separator() {
    assert_eq!(parse_pattern("1,2"), Some(vec![1u8]));
    assert_eq!(parse_pattern("7,99999"), Some(vec![7u8]));
}

#[test]
fn parse_allows_leading_zeros() {
    assert_eq!(parse_pattern("007,0000000000255,"), Some(vec![7u8, 255]));
}

#[test]
fn parse_takes_any_character_as_separator() {
    assert_eq!(parse_pattern("5\u{e9}6\u{2603}"), Some(vec![5u8, 6]));
}

#[test]
fn parse_rejects_level_above_255() {
    assert_eq!(parse_pattern("256,"), None);
    assert_eq!(parse_pattern("1,99999999999999999999,"), None);
}

#[test]
fn parse_rejects_empty_level() {
    assert_eq!(parse_pattern(",1,"), None);
    assert_eq!(parse_pattern("5, 6,"), None);
    assert_eq!(parse_pattern("5,\n"), None);
}

#[test]
fn colour_text_reads_back_as_levels() {
    let c = Colour { r: 200i16, g: 0, b: 35 };
    assert_eq!(parse_pattern(&c.to_string()), Some(vec![200u8, 0, 35]));
}

#[test]
fn cycle_repeats_its_items() {
    let mut c = Cycle::new(vec![1u8, 2, 3]);
    assert_eq!(c.len(), 3);
    let got: Vec<Option<u8>> = (0..7).map(|_| c.next()).collect();
    assert_eq!(got, vec![Some(1), Some(2), Some(3), Some(1), Some(2), Some(3), Some(1)]);
}

#[test]
fn empty_cycle_gives_nothing() {
    let mut c: Cycle<u8> = Cycle::new(vec![]);
    assert_eq!(c.next(), None);
    assert_eq!(c.next(), None);
}

#[test]
fn cycle_comes_back_after_its_length() {
    let mut c = Cycle::new(vec![4u8, 5, 6, 7]);
    c.next();
    let first: Vec<Option<u8>> = (0..4).map(|_| c.next()).collect();
    let second: Vec<Option<u8>> = (0..4).map(|_| c.next()).collect();
    assert_eq!(first, vec![Some(5), Some(6), Some(7), Some(4)]);
    assert_eq!(first, second);
}

#[test]
fn cloud_to_light_scales_to_255() {
    let mut c = Cloud::new(vec![0u8, 110, 220, 55], 0, 220);
    assert!(c.can_light());
    let got: Vec<i16> = (0..5).map(|_| cloud_to_light(&mut c).r).collect();
    assert_eq!(got, vec![0, 127, 255, 63, 0]);
}

#[test]
fn cloud_to_light_is_grey() {
    let mut c = Cloud::new(vec![100u8], 20, 120);
    let colour = cloud_to_light(&mut c);
    assert_eq!((colour.r, colour.g, colour.b), (255, 255, 255));
}

#[test]
fn cloud_to_light_above_range() {
    let mut c = Cloud::new(vec![250u8, 255], 0, 1);
    assert_eq!(cloud_to_light(&mut c).r, i16::MAX);
    assert_eq!(cloud_to_light(&mut c).r, i16::MAX);
    let mut d = Cloud::new(vec![255u8], 0, 200);
    assert_eq!(cloud_to_light(&mut d).r, 325);
}

#[test]
fn cloud_to_light_with_zero_range() {
    let mut c = Cloud::new(vec![0u8, 3], 9, 9);
    assert_eq!(cloud_to_light(&mut c).r, 0);
    assert_eq!(cloud_to_light(&mut c).r, i16::MAX);
}

#[test]
fn cloud_to_light_matches_float_scaling() {
    for range in 0..=255u8 {
        for level in 0..=255u8 {
            let mut c = Cloud::new(vec![level], 0, range);
            let expected = (level as f32 / range as f32 * 255.0) as i16;
            assert_eq!(cloud_to_light(&mut c).r, expected);
        }
    }
}

#[test]
fn cloud_can_light_needs_pattern_and_order() {
    assert!(!Cloud::new(vec![], 0, 10).can_light());
    assert!(!Cloud::new(vec![1u8], 10, 0).can_light());
    assert!(Cloud::new(vec![1u8], 10, 10).can_light());
}

#[test]
fn cloud_next_cycles() {
    let mut c = Cloud::new(vec![9u8, 8], 0, 220);
    assert_eq!(c.next(), Some(9));
    assert_eq!(c.next(), Some(8));
    assert_eq!(c.next(), Some(9));
    let mut e = Cloud::new(vec![], 0, 220);
    assert_eq!(e.next(), None);
}

#[test]
fn colour_cloud_keeps_mood_and_channel() {
    let cs = CloudSet { p: String::from("data/fog.json"), mood: 40, channel: Channel::Two };
    let red = Colour { r: 255u8, g: 0, b: 0 };
    let blue = Colour { r: 0u8, g: 0, b: 255 };
    let mut cc = ColourCloud::new(vec![red, blue], cs);
    assert_eq!(cc.mood(), 40);
    assert_eq!(cc.channel(), Channel::Two);
    let a = cc.next().unwrap();
    let b = cc.next().unwrap();
    let c = cc.next().unwrap();
    assert_eq!((a.r, a.b), (255, 0));
    assert_eq!((b.r, b.b), (0, 255));
    assert_eq!((c.r, c.b), (255, 0));
    assert_eq!(cc.mood(), 40);
}

#[test]
fn empty_colour_cloud_gives_nothing() {
    let cs = CloudSet { p: String::from("x"), mood: 0, channel: Channel::One };
    let mut cc = ColourCloud::new(vec![], cs);
    assert!(cc.next().is_none());
    assert_eq!(cc.channel(), Channel::One);
}
