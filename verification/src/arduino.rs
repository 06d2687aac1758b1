//! Messages that set a light on the board.

use vstd::prelude::*;
use crate::clouds::{lemma_colour_text_reads_back, pattern_of};
use crate::decimal::{int_text, lemma_int_text_value, push_i16_text, text_int_value};
use crate::render::{colour_text, lemma_colour_text_reads_back_all, Colour};

verus! {

/// The message that sets light number `light` to `colour`: the letter `l`,
/// the light's number, the colour's text `r,g,b,` and the letter `x`.
pub open spec fn light_msg(colour: Colour<i16>, light: i16) -> Seq<char> {
    seq!['l'] + int_text(light as int) + colour_text(colour) + seq!['x']
}

/// Builds the message that sets light number `light` to `colour`.
pub fn light_to_msg(colour: &Colour<i16>, light: i16) -> (msg: String)
    ensures
        msg@ == light_msg(*colour, light),
{
    proof {
        reveal_strlit("l");
        reveal_strlit("x");
    }
    let mut msg = String::from_str("l");
    push_i16_text(&mut msg, light);
    let text = colour.to_string();
    msg.append(text.as_str());
    msg.append("x");
    assert(msg@ =~= light_msg(*colour, light));
    msg
}

/// For every light and every colour, the message is the letter `l`, the
/// light's own decimal text, the colour's components in the order r, g, b,
/// each in decimal and followed by a comma, and the letter `x`. The light's
/// number reads back from the text after the `l`; the rest up to the `x` is
/// the colour's text, which reads back as its components.
pub proof fn lemma_light_msg_parts(colour: Colour<i16>, light: i16)
    ensures
        light_msg(colour, light) == seq!['l'] + int_text(light as int) + int_text(colour.r as int)
            + seq![','] + int_text(colour.g as int) + seq![','] + int_text(colour.b as int) + seq![
            ',',
        ] + seq!['x'],
        ({
            let m = light_msg(colour, light);
            let k = int_text(light as int).len() as int;
            &&& m[0] == 'l'
            &&& text_int_value(m.subrange(1, 1 + k)) == light
            &&& m.subrange(1 + k, m.len() - 1) == colour_text(colour)
            &&& m[m.len() - 1] == 'x'
        }),
{
    lemma_int_text_value(light as int);
    lemma_colour_text_reads_back_all(colour);
    let m = light_msg(colour, light);
    let k = int_text(light as int).len() as int;
    assert(m.subrange(1, 1 + k) =~= int_text(light as int));
    assert(m.subrange(1 + k, m.len() - 1) =~= colour_text(colour));
    assert(m =~= seq!['l'] + int_text(light as int) + int_text(colour.r as int) + seq![',']
        + int_text(colour.g as int) + seq![','] + int_text(colour.b as int) + seq![','] + seq![
        'x',
    ]);
}

/// Whatever the light, the part of the message between the light's number
/// and the final `x` reads back as the levels r, g, b of a colour whose
/// components are levels (0 to 255).
pub proof fn lemma_light_msg_reads_back(colour: Colour<i16>, light: i16)
    requires
        0 <= colour.r <= 255,
        0 <= colour.g <= 255,
        0 <= colour.b <= 255,
    ensures
        ({
            let m = light_msg(colour, light);
            let k = int_text(light as int).len() as int;
            pattern_of(m.subrange(1 + k, m.len() - 1)) == Some(
                seq![colour.r as u8, colour.g as u8, colour.b as u8],
            )
        }),
{
    lemma_light_msg_parts(colour, light);
    lemma_colour_text_reads_back(colour);
}

} // verus!
