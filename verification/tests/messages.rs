use cloud_lights::arduino::light_to_msg;
use cloud_lights::render::Colour;

#[test]
fn light_message_for_a_colour() {
    let c = Colour { r: 255i16, g: 128, b: 0 };
    assert_eq!(light_to_msg(&c, 1), "l1255,128,0,x");
}

#[test]
fn light_message_for_light_zero() {
    let c = Colour { r: 7i16, g: 7, b: 7 };
    assert_eq!(light_to_msg(&c, 0), "l07,7,7,x");
}

#[test]
fn light_message_with_negative_numbers() {
    let c = Colour { r: -1i16, g: i16::MIN, b: i16::MAX };
    assert_eq!(light_to_msg(&c, -12), "l-12-1,-32768,32767,x");
}

#[test]
fn light_message_matches_std_formatting() {
    let values: [i16; 9] = [0, 1, 9, 10, 99, 100, -100, 12345, -32768];
    for &light in values.iter() {
        for &v in values.iter() {
            let c = Colour { r: v, g: light, b: v };
            let expected = format!("l{}{},{},{},x", light, v, light, v);
            assert_eq!(light_to_msg(&c, light), expected);
        }
    }
}

#[test]
fn colour_text_lists_components() {
    let c = Colour { r: 10i16, g: -3, b: 32767 };
    assert_eq!(c.to_string(), "10,-3,32767,");
}

#[test]
fn colour_add_assign_adds_components() {
    let mut c = Colour { r: 10i16, g: -3, b: 100 };
    c.add_assign(Colour { r: 5, g: 3, b: -200 });
    assert_eq!((c.r, c.g, c.b), (15, 0, -100));
}

#[test]
fn colour_add_assign_up_to_the_limit() {
    let mut c = Colour { r: 32000i16, g: -32000, b: 0 };
    c.add_assign(Colour { r: 767, g: -768, b: 0 });
    assert_eq!((c.r, c.g, c.b), (i16::MAX, i16::MIN, 0));
}
