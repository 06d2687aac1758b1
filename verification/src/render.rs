//! Colours of the lights.

use vstd::prelude::*;
use crate::decimal::{int_text, lemma_int_text_value, push_i16_text, text_int_value};

verus! {

/// A colour by its red, green and blue components.
#[derive(Clone, Copy, Debug)]
pub struct Colour<T> {
    pub r: T,
    pub g: T,
    pub b: T,
}

/// Whether the sum of two `i16` values fits in an `i16`.
pub open spec fn i16_sum_fits(x: i16, y: i16) -> bool {
    i16::MIN <= x + y <= i16::MAX
}

/// The text of a colour: each component in decimal followed by a comma.
pub open spec fn colour_text(c: Colour<i16>) -> Seq<char> {
    int_text(c.r as int) + seq![','] + int_text(c.g as int) + seq![','] + int_text(c.b as int)
        + seq![',']
}

impl Colour<i16> {
    /// Adds `other` to this colour component by component.
    pub fn add_assign(&mut self, other: Colour<i16>)
        requires
            i16_sum_fits(old(self).r, other.r),
            i16_sum_fits(old(self).g, other.g),
            i16_sum_fits(old(self).b, other.b),
        ensures
            final(self).r == old(self).r + other.r,
            final(self).g == old(self).g + other.g,
            final(self).b == old(self).b + other.b,
    {
        *self = Colour { r: self.r + other.r, g: self.g + other.g, b: self.b + other.b };
    }

    /// The text of this colour, as the lights read it: `r,g,b,`.
    pub fn to_string(&self) -> (s: String)
        ensures
            s@ == colour_text(*self),
    {
        let mut s = String::new();
        proof {
            reveal_strlit(",");
        }
        push_i16_text(&mut s, self.r);
        s.append(",");
        push_i16_text(&mut s, self.g);
        s.append(",");
        push_i16_text(&mut s, self.b);
        s.append(",");
        assert(s@ =~= colour_text(*self));
        s
    }
}

/// The text of every colour is its components' own decimal texts, in the
/// order r, g, b, each followed by a comma: cut at those commas, each piece
/// reads back as its component, whatever its value.
pub proof fn lemma_colour_text_reads_back_all(c: Colour<i16>)
    ensures
        colour_text(c) == int_text(c.r as int) + seq![','] + int_text(c.g as int) + seq![',']
            + int_text(c.b as int) + seq![','],
        ({
            let t = colour_text(c);
            let a = int_text(c.r as int).len() as int;
            let b = int_text(c.g as int).len() as int;
            let d = int_text(c.b as int).len() as int;
            &&& t.len() == a + b + d + 3
            &&& text_int_value(t.subrange(0, a)) == c.r
            &&& t[a] == ','
            &&& text_int_value(t.subrange(a + 1, a + 1 + b)) == c.g
            &&& t[a + 1 + b] == ','
            &&& text_int_value(t.subrange(a + b + 2, a + b + 2 + d)) == c.b
            &&& t[a + b + d + 2] == ','
        }),
{
    lemma_int_text_value(c.r as int);
    lemma_int_text_value(c.g as int);
    lemma_int_text_value(c.b as int);
    let t = colour_text(c);
    let a = int_text(c.r as int).len() as int;
    let b = int_text(c.g as int).len() as int;
    let d = int_text(c.b as int).len() as int;
    assert(t.subrange(0, a) =~= int_text(c.r as int));
    assert(t.subrange(a + 1, a + 1 + b) =~= int_text(c.g as int));
    assert(t.subrange(a + b + 2, a + b + 2 + d) =~= int_text(c.b as int));
}

} // verus!
