//! Clouds: brightness and colour patterns that the lights play in a loop.

use vstd::prelude::*;
use crate::cycle::{next_pos, Cycle};
use crate::decimal::{digit_char, int_text, lemma_nat_text_value, nat_text};
use crate::render::{colour_text, Colour};

verus! {

/// The output channel that a colour cloud lights.
#[derive(Clone, Copy, Debug, PartialEq, Eq, Structural)]
pub enum Channel {
    One,
    Two,
}

/// Where a colour cloud's pattern is stored, and the mood and channel it
/// plays with.
pub struct CloudSet {
    pub p: String,
    pub mood: i16,
    pub channel: Channel,
}

/// A brightness pattern, played in a loop, with the lowest and highest
/// level it is scaled between.
pub struct Cloud {
    pattern: Cycle<u8>,
    min: u8,
    max: u8,
}

/// A colour pattern, played in a loop, with its mood and channel.
pub struct ColourCloud {
    pattern: Cycle<Colour<u8>>,
    mood: i16,
    channel: Channel,
}

impl Cloud {
    /// The brightness pattern.
    pub closed spec fn pattern(&self) -> Cycle<u8> {
        self.pattern
    }

    /// The lowest level.
    pub closed spec fn min_level(&self) -> u8 {
        self.min
    }

    /// The highest level.
    pub closed spec fn max_level(&self) -> u8 {
        self.max
    }

    /// A cloud that plays `pattern` from its start, between `min` and `max`.
    pub fn new(pattern: Vec<u8>, min: u8, max: u8) -> (c: Self)
        ensures
            c.pattern().items() == pattern@,
            c.pattern().pos() == 0,
            c.min_level() == min,
            c.max_level() == max,
    {
        Cloud { pattern: Cycle::new(pattern), min, max }
    }

    /// The next level of the pattern; `None` when the pattern is empty.
    pub fn next(&mut self) -> (level: Option<u8>)
        ensures
            final(self).min_level() == old(self).min_level(),
            final(self).max_level() == old(self).max_level(),
            final(self).pattern().items() == old(self).pattern().items(),
            old(self).pattern().items().len() == 0 ==> level is None && final(self).pattern().pos()
                == old(self).pattern().pos(),
            old(self).pattern().items().len() > 0 ==> {
                &&& level == Some(old(self).pattern().items()[old(self).pattern().pos() as int])
                &&& final(self).pattern().pos() == next_pos(
                    old(self).pattern().pos(),
                    old(self).pattern().items().len(),
                )
            },
    {
        self.pattern.next()
    }

    /// Whether `cloud_to_light` can be called on this cloud: its pattern is
    /// not empty and its lowest level is not above its highest.
    pub fn can_light(&self) -> (b: bool)
        ensures
            b == (self.pattern().items().len() > 0 && self.min_level() <= self.max_level()),
    {
        self.pattern.len() > 0 && self.min <= self.max
    }
}

impl ColourCloud {
    /// The colour pattern.
    pub closed spec fn pattern(&self) -> Cycle<Colour<u8>> {
        self.pattern
    }

    /// The mood.
    pub closed spec fn spec_mood(&self) -> i16 {
        self.mood
    }

    /// The channel.
    pub closed spec fn spec_channel(&self) -> Channel {
        self.channel
    }

    /// A colour cloud that plays `pattern` from its start, with the mood and
    /// channel of `cs`.
    pub fn new(pattern: Vec<Colour<u8>>, cs: CloudSet) -> (c: Self)
        ensures
            c.pattern().items() == pattern@,
            c.pattern().pos() == 0,
            c.spec_mood() == cs.mood,
            c.spec_channel() == cs.channel,
    {
        ColourCloud { pattern: Cycle::new(pattern), mood: cs.mood, channel: cs.channel }
    }

    /// The mood.
    pub fn mood(&self) -> (m: i16)
        ensures
            m == self.spec_mood(),
    {
        self.mood
    }

    /// The channel.
    pub fn channel(&self) -> (ch: Channel)
        ensures
            ch == self.spec_channel(),
    {
        self.channel
    }

    /// The next colour of the pattern; `None` when the pattern is empty.
    pub fn next(&mut self) -> (colour: Option<Colour<u8>>)
        ensures
            final(self).spec_mood() == old(self).spec_mood(),
            final(self).spec_channel() == old(self).spec_channel(),
            final(self).pattern().items() == old(self).pattern().items(),
            old(self).pattern().items().len() == 0 ==> colour is None && final(self).pattern().pos()
                == old(self).pattern().pos(),
            old(self).pattern().items().len() > 0 ==> {
                &&& colour == Some(old(self).pattern().items()[old(self).pattern().pos() as int])
                &&& final(self).pattern().pos() == next_pos(
                    old(self).pattern().pos(),
                    old(self).pattern().items().len(),
                )
            },
    {
        self.pattern.next()
    }
}

/// The brightness of `level` in a cloud whose levels span `range`: the level
/// scaled so that `range` becomes 255, rounded toward zero and held at
/// `i16::MAX`. With a range of 0, a level of 0 is dark and any other level
/// is at `i16::MAX`.
pub open spec fn brightness(level: u8, range: u8) -> i16 {
    if range == 0 {
        if level == 0 { 0 } else { i16::MAX }
    } else if level * 255 / (range as int) > i16::MAX {
        i16::MAX
    } else {
        (level * 255 / (range as int)) as i16
    }
}

/// The next brightness of `c` as a grey colour.
pub fn cloud_to_light(c: &mut Cloud) -> (colour: Colour<i16>)
    requires
        old(c).pattern().items().len() > 0,
        old(c).min_level() <= old(c).max_level(),
    ensures
        ({
            let level = old(c).pattern().items()[old(c).pattern().pos() as int];
            let v = brightness(level, (old(c).max_level() - old(c).min_level()) as u8);
            colour == (Colour { r: v, g: v, b: v })
        }),
        final(c).min_level() == old(c).min_level(),
        final(c).max_level() == old(c).max_level(),
        final(c).pattern().items() == old(c).pattern().items(),
        final(c).pattern().pos() == next_pos(
            old(c).pattern().pos(),
            old(c).pattern().items().len(),
        ),
{
    let level = c.next().unwrap();
    let range: u8 = c.max - c.min;
    let v: i16 = if range == 0 {
        if level == 0 { 0 } else { i16::MAX }
    } else {
        let scaled: u32 = (level as u32) * 255 / (range as u32);
        if scaled > 32767 { i16::MAX } else { scaled as i16 }
    };
    Colour { r: v, g: v, b: v }
}

/// Whether `c` is a decimal digit.
pub open spec fn is_digit(c: char) -> bool {
    48 <= (c as int) <= 57
}

/// The value of the decimal digit `c`.
pub open spec fn digit_value(c: char) -> nat {
    ((c as int) - 48) as nat
}

/// Reads pattern text from left to right. Digits build up a number; any
/// other character ends it, and the number joins the values. The result is
/// the values so far, the number being built, how many digits it has, and
/// whether the text is still good: it stops being good when a character ends
/// a number that has no digits or is above 255.
pub open spec fn scan_pattern(s: Seq<char>) -> (Seq<u8>, nat, nat, bool)
    decreases s.len(),
{
    if s.len() == 0 {
        (Seq::empty(), 0, 0, true)
    } else {
        let prev = scan_pattern(s.drop_last());
        let c = s.last();
        if !prev.3 {
            prev
        } else if is_digit(c) {
            (prev.0, prev.1 * 10 + digit_value(c), prev.2 + 1, true)
        } else if prev.2 == 0 || prev.1 > 255 {
            (prev.0, prev.1, prev.2, false)
        } else {
            (prev.0.push(prev.1 as u8), 0, 0, true)
        }
    }
}

/// The levels that pattern text `s` holds, or `None` when it is not good.
/// Digits after the last other character are not part of any level.
pub open spec fn pattern_of(s: Seq<char>) -> Option<Seq<u8>> {
    let st = scan_pattern(s);
    if st.3 {
        Some(st.0)
    } else {
        None
    }
}

/// Text that is not good stays so however it goes on.
pub proof fn lemma_scan_failure_persists(s: Seq<char>, k: int)
    requires
        0 <= k <= s.len(),
        !scan_pattern(s.take(k)).3,
    ensures
        !scan_pattern(s).3,
    decreases s.len() - k,
{
    if k < s.len() {
        assert(s.take(k + 1).drop_last() =~= s.take(k));
        lemma_scan_failure_persists(s, k + 1);
    } else {
        assert(s.take(k) =~= s);
    }
}

/// Reads the levels of a brightness pattern from its text: numbers in
/// decimal, each ended by any character that is not a digit. `None` when a
/// number is empty or above 255.
pub fn parse_pattern(contents: &str) -> (parsed: Option<Vec<u8>>)
    ensures
        match parsed {
            Some(v) => pattern_of(contents@) == Some(v@),
            None => pattern_of(contents@) is None,
        },
{
    broadcast use vstd::string::group_string_axioms;
    let mut levels: Vec<u8> = Vec::new();
    let mut num: u32 = 0;
    let mut has_digits: bool = false;
    let ghost s = contents@;
    for c in it: contents.chars()
        invariant
            it.seq() == s,
            s == contents@,
            ({
                let st = scan_pattern(s.take(it.index() as int));
                &&& st.3
                &&& st.0 == levels@
                &&& num as int == if st.1 > 256 { 256 } else { st.1 as int }
                &&& has_digits == (st.2 > 0)
            }),
    {
        let ghost i = it.index() as int;
        assert(s.take(i + 1).drop_last() =~= s.take(i));
        assert(s.take(i + 1).last() == c);
        if '0' <= c && c <= '9' {
            let d: u32 = (c as u32) - 48;
            num = if num >= 26 { 256 } else { num * 10 + d };
            if num > 256 {
                num = 256;
            }
            has_digits = true;
        } else {
            if !has_digits || num > 255 {
                proof {
                    lemma_scan_failure_persists(s, i + 1);
                }
                return None;
            }
            levels.push(num as u8);
            num = 0;
            has_digits = false;
        }
    }
    assert(s.take(s.len() as int) =~= s);
    Some(levels)
}

/// A level within the range of its cloud has a brightness from 0 to 255:
/// 0 for the lowest level and 255 for a level equal to the range.
pub proof fn lemma_brightness_in_range(level: u8, range: u8)
    requires
        range > 0,
        level <= range,
    ensures
        0 <= brightness(level, range) <= 255,
        level == 0 ==> brightness(level, range) == 0,
        level == range ==> brightness(level, range) == 255,
{
    assert(level * 255 / (range as int) <= 255) by (nonlinear_arith)
        requires
            0 <= level <= range,
            range > 0,
    {
        assert(level * 255 <= range * 255);
        vstd::arithmetic::div_mod::lemma_div_is_ordered(level * 255, range * 255, range as int);
        vstd::arithmetic::div_mod::lemma_div_by_multiple(255, range as int);
    }
    assert(level * 255 / (range as int) >= 0) by (nonlinear_arith)
        requires
            0 <= level,
            range > 0,
    ;
    if level == range {
        vstd::arithmetic::div_mod::lemma_div_by_multiple(255, range as int);
        assert(level * 255 == 255 * range);
    }
}

/// Reading the digits of `n` after text that reads cleanly builds up `n`.
proof fn lemma_scan_digits(prefix: Seq<char>, vals: Seq<u8>, n: nat)
    requires
        scan_pattern(prefix) == (vals, 0nat, 0nat, true),
    ensures
        scan_pattern(prefix + nat_text(n)) == (vals, n, nat_text(n).len(), true),
    decreases n,
{
    if n < 10 {
        assert((prefix + nat_text(n)).drop_last() =~= prefix);
        assert((prefix + nat_text(n)).last() == digit_char(n));
    } else {
        lemma_scan_digits(prefix, vals, n / 10);
        let t = nat_text(n / 10);
        assert(nat_text(n) == t.push(digit_char(n % 10)));
        assert((prefix + nat_text(n)).drop_last() =~= prefix + t);
        assert((prefix + nat_text(n)).last() == digit_char(n % 10));
        assert((n / 10) * 10 + n % 10 == n);
    }
}

/// After text that reads cleanly so far, a level (at most 255) written in
/// decimal and followed by any character that is not a digit is added to the
/// levels, and the text again reads cleanly.
pub proof fn lemma_scan_level_sep(prefix: Seq<char>, vals: Seq<u8>, n: nat, c: char)
    requires
        scan_pattern(prefix) == (vals, 0nat, 0nat, true),
        n <= 255,
        !is_digit(c),
    ensures
        scan_pattern(prefix + nat_text(n) + seq![c]) == (vals.push(n as u8), 0nat, 0nat, true),
{
    lemma_scan_digits(prefix, vals, n);
    let s = prefix + nat_text(n) + seq![c];
    assert(s.drop_last() =~= prefix + nat_text(n));
    assert(s.last() == c);
    lemma_nat_text_value(n);
}

/// The digits of a level followed by a comma read as that level.
proof fn lemma_scan_level(prefix: Seq<char>, vals: Seq<u8>, n: nat)
    requires
        scan_pattern(prefix) == (vals, 0nat, 0nat, true),
        n <= 255,
    ensures
        scan_pattern(prefix + nat_text(n) + seq![',']) == (vals.push(n as u8), 0nat, 0nat, true),
{
    lemma_scan_level_sep(prefix, vals, n, ',');
}

/// Pattern text for `levels`: each level in decimal, followed by its own
/// separator from `seps`.
pub open spec fn pattern_text(levels: Seq<u8>, seps: Seq<char>) -> Seq<char>
    decreases levels.len(),
{
    if levels.len() == 0 || seps.len() == 0 {
        Seq::empty()
    } else {
        pattern_text(levels.drop_last(), seps.drop_last()) + nat_text(levels.last() as nat)
            + seq![seps.last()]
    }
}

/// Any levels, each written in decimal and ended by any character that is
/// not a digit, read back as exactly those levels, in order.
pub proof fn lemma_pattern_text_reads_back(levels: Seq<u8>, seps: Seq<char>)
    requires
        levels.len() == seps.len(),
        forall|i: int| 0 <= i < seps.len() ==> !is_digit(#[trigger] seps[i]),
    ensures
        scan_pattern(pattern_text(levels, seps)) == (levels, 0nat, 0nat, true),
        pattern_of(pattern_text(levels, seps)) == Some(levels),
    decreases levels.len(),
{
    if levels.len() == 0 {
        assert(scan_pattern(Seq::<char>::empty()) == (Seq::<u8>::empty(), 0nat, 0nat, true));
        assert(levels =~= Seq::<u8>::empty());
    } else {
        let ls = levels.drop_last();
        let ss = seps.drop_last();
        assert forall|i: int| 0 <= i < ss.len() implies !is_digit(#[trigger] ss[i]) by {
            assert(ss[i] == seps[i]);
        }
        lemma_pattern_text_reads_back(ls, ss);
        assert(!is_digit(seps[seps.len() - 1]));
        lemma_scan_level_sep(pattern_text(ls, ss), ls, levels.last() as nat, seps.last());
        assert(ls.push(levels.last() as nat as u8) =~= levels);
    }
}

/// The text of a colour whose components are levels (0 to 255) reads back
/// as the pattern of those three levels.
pub proof fn lemma_colour_text_reads_back(c: Colour<i16>)
    requires
        0 <= c.r <= 255,
        0 <= c.g <= 255,
        0 <= c.b <= 255,
    ensures
        pattern_of(colour_text(c)) == Some(seq![c.r as u8, c.g as u8, c.b as u8]),
{
    let e = Seq::<char>::empty();
    assert(scan_pattern(e) == (Seq::<u8>::empty(), 0nat, 0nat, true));
    lemma_scan_level(e, Seq::<u8>::empty(), c.r as nat);
    let p1 = e + nat_text(c.r as nat) + seq![','];
    let v1 = Seq::<u8>::empty().push(c.r as u8);
    lemma_scan_level(p1, v1, c.g as nat);
    let p2 = p1 + nat_text(c.g as nat) + seq![','];
    let v2 = v1.push(c.g as u8);
    lemma_scan_level(p2, v2, c.b as nat);
    let p3 = p2 + nat_text(c.b as nat) + seq![','];
    assert(int_text(c.r as int) == nat_text(c.r as nat));
    assert(int_text(c.g as int) == nat_text(c.g as nat));
    assert(int_text(c.b as int) == nat_text(c.b as nat));
    assert(p3 =~= colour_text(c));
    assert(v2.push(c.b as u8) =~= seq![c.r as u8, c.g as u8, c.b as u8]);
}

/// After text that reads cleanly so far, a separator with no digits before
/// it, or a number above 255 followed by a separator, makes the text bad.
pub proof fn lemma_scan_rejects(prefix: Seq<char>, vals: Seq<u8>, n: nat, c: char)
    requires
        scan_pattern(prefix) == (vals, 0nat, 0nat, true),
        !is_digit(c),
    ensures
        !scan_pattern(prefix + seq![c]).3,
        n > 255 ==> !scan_pattern(prefix + nat_text(n) + seq![c]).3,
{
    assert((prefix + seq![c]).drop_last() =~= prefix);
    assert((prefix + seq![c]).last() == c);
    if n > 255 {
        lemma_scan_digits(prefix, vals, n);
        let s = prefix + nat_text(n) + seq![c];
        assert(s.drop_last() =~= prefix + nat_text(n));
        assert(s.last() == c);
    }
}

/// Digits after the last separator add no level: levels written with their
/// separators and then any number without one read back as those levels.
pub proof fn lemma_trailing_digits_ignored(levels: Seq<u8>, seps: Seq<char>, n: nat)
    requires
        levels.len() == seps.len(),
        forall|i: int| 0 <= i < seps.len() ==> !is_digit(#[trigger] seps[i]),
    ensures
        pattern_of(pattern_text(levels, seps) + nat_text(n)) == Some(levels),
{
    lemma_pattern_text_reads_back(levels, seps);
    lemma_scan_digits(pattern_text(levels, seps), levels, n);
}

/// The brightness of a level is the level scaled by 255 / range, rounded
/// down: `b * range <= level * 255 < (b + 1) * range`, unless that is above
/// `i16::MAX`, when it is `i16::MAX`.
pub proof fn lemma_brightness_rounds_down(level: u8, range: u8)
    requires
        range > 0,
    ensures
        level * 255 < 32768 * range ==> {
            &&& brightness(level, range) * range <= level * 255
            &&& level * 255 < (brightness(level, range) + 1) * range
        },
        level * 255 >= 32768 * range ==> brightness(level, range) == i16::MAX,
{
    let x = level * 255;
    let r = range as int;
    let q = x / r;
    vstd::arithmetic::div_mod::lemma_fundamental_div_mod(x, r);
    vstd::arithmetic::div_mod::lemma_mod_bound(x, r);
    assert(x == r * q + x % r);
    if x < 32768 * r {
        assert(q < 32768) by (nonlinear_arith)
            requires
                x == r * q + x % r,
                0 <= x % r,
                x < 32768 * r,
                r > 0,
        ;
        assert(brightness(level, range) == q);
        assert(q * r <= x) by (nonlinear_arith)
            requires
                x == r * q + x % r,
                0 <= x % r,
        ;
        assert(x < (q + 1) * r) by (nonlinear_arith)
            requires
                x == r * q + x % r,
                x % r < r,
        ;
    } else {
        assert(q >= 32768) by (nonlinear_arith)
            requires
                x == r * q + x % r,
                x % r < r,
                x >= 32768 * r,
                r > 0,
        ;
    }
}

} // verus!
