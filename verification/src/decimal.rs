//! Decimal text of integers, as it appears in the light messages.

use vstd::prelude::*;

verus! {

/// The character of a decimal digit `d` (0 to 9).
pub open spec fn digit_char(d: nat) -> char
    recommends
        d < 10,
{
    if d == 0 { '0' }
    else if d == 1 { '1' }
    else if d == 2 { '2' }
    else if d == 3 { '3' }
    else if d == 4 { '4' }
    else if d == 5 { '5' }
    else if d == 6 { '6' }
    else if d == 7 { '7' }
    else if d == 8 { '8' }
    else { '9' }
}

/// The decimal digits of `n`, most significant first, with no leading zeros
/// (zero itself is written `0`).
pub open spec fn nat_text(n: nat) -> Seq<char>
    decreases n,
{
    if n < 10 {
        seq![digit_char(n)]
    } else {
        nat_text(n / 10).push(digit_char(n % 10))
    }
}

/// The decimal text of an integer: a minus sign before the digits of its
/// magnitude when it is negative.
pub open spec fn int_text(i: int) -> Seq<char> {
    if i < 0 {
        seq!['-'] + nat_text((-i) as nat)
    } else {
        nat_text(i as nat)
    }
}

/// Whether every character of `s` is a decimal digit.
pub open spec fn all_digits(s: Seq<char>) -> bool {
    forall|i: int| 0 <= i < s.len() ==> 48 <= #[trigger] (s[i] as int) <= 57
}

/// The value of a string of decimal digits, read from left to right.
pub open spec fn digits_value(s: Seq<char>) -> nat
    decreases s.len(),
{
    if s.len() == 0 {
        0
    } else {
        digits_value(s.drop_last()) * 10 + ((s.last() as int) - 48) as nat
    }
}

/// The value of decimal text with an optional leading minus sign.
pub open spec fn text_int_value(s: Seq<char>) -> int {
    if s.len() > 0 && s[0] == '-' {
        -(digits_value(s.drop_first()) as int)
    } else {
        digits_value(s) as int
    }
}

/// The decimal text of `n` is a non-empty string of digits, without a leading
/// zero unless it is `0` itself, whose value is `n`.
pub proof fn lemma_nat_text_value(n: nat)
    ensures
        nat_text(n).len() > 0,
        all_digits(nat_text(n)),
        digits_value(nat_text(n)) == n,
        n > 0 ==> nat_text(n)[0] != '0',
        n == 0 ==> nat_text(n) == seq!['0'],
    decreases n,
{
    if n >= 10 {
        lemma_nat_text_value(n / 10);
        let t = nat_text(n / 10);
        let d = digit_char(n % 10);
        assert(nat_text(n) == t.push(d));
        assert(nat_text(n).drop_last() =~= t);
        assert(nat_text(n)[0] == t[0]);
        assert forall|i: int| 0 <= i < nat_text(n).len() implies 48 <= #[trigger] (nat_text(
            n,
        )[i] as int) <= 57 by {
            if i < t.len() {
                assert(nat_text(n)[i] == t[i]);
            }
        }
        assert(d as int == 48 + n % 10);
        assert(digits_value(nat_text(n)) == digits_value(t) * 10 + (n % 10));
        assert((n / 10) * 10 + n % 10 == n);
        assert(digits_value(nat_text(n)) == n);
    } else {
        assert(seq![digit_char(n)].drop_last() =~= Seq::<char>::empty());
        assert(digit_char(n) as int == 48 + n);
        assert(digits_value(Seq::<char>::empty()) == 0);
        assert(digits_value(nat_text(n)) == n);
    }
}

/// The decimal text of every integer reads back as that integer; it holds
/// only digits after an optional leading minus sign.
pub proof fn lemma_int_text_value(i: int)
    ensures
        text_int_value(int_text(i)) == i,
        i < 0 ==> int_text(i)[0] == '-' && all_digits(int_text(i).drop_first()),
        i >= 0 ==> all_digits(int_text(i)),
{
    if i < 0 {
        lemma_nat_text_value((-i) as nat);
        assert((seq!['-'] + nat_text((-i) as nat)).drop_first() =~= nat_text((-i) as nat));
    } else {
        lemma_nat_text_value(i as nat);
        assert(nat_text(i as nat)[0] != '-') by {
            assert(48 <= (nat_text(i as nat)[0] as int) <= 57);
        }
    }
}

/// The text of one digit, as a string literal.
fn digit_str(d: u32) -> (s: &'static str)
    requires
        d < 10,
    ensures
        s@ == seq![digit_char(d as nat)],
{
    proof {
        reveal_strlit("0");
        reveal_strlit("1");
        reveal_strlit("2");
        reveal_strlit("3");
        reveal_strlit("4");
        reveal_strlit("5");
        reveal_strlit("6");
        reveal_strlit("7");
        reveal_strlit("8");
        reveal_strlit("9");
    }
    match d {
        0 => "0",
        1 => "1",
        2 => "2",
        3 => "3",
        4 => "4",
        5 => "5",
        6 => "6",
        7 => "7",
        8 => "8",
        _ => "9",
    }
}

/// Appends the decimal digits of `n` to `out`.
fn push_nat_text(out: &mut String, n: u32)
    ensures
        final(out)@ == old(out)@ + nat_text(n as nat),
    decreases n,
{
    if n >= 10 {
        push_nat_text(out, n / 10);
    }
    out.append(digit_str(n % 10));
    assert(final(out)@ =~= old(out)@ + nat_text(n as nat)) by {
        if n >= 10 {
            assert(nat_text(n as nat) == nat_text((n / 10) as nat).push(digit_char((n % 10) as nat)));
        }
    }
}

/// Appends the decimal text of `i` to `out`, as `{}` formats an `i16`.
pub fn push_i16_text(out: &mut String, i: i16)
    ensures
        final(out)@ == old(out)@ + int_text(i as int),
{
    if i < 0 {
        proof {
            reveal_strlit("-");
        }
        out.append("-");
        let magnitude: u32 = (0i32 - i as i32) as u32;
        push_nat_text(out, magnitude);
        assert(final(out)@ =~= old(out)@ + int_text(i as int));
    } else {
        push_nat_text(out, i as u32);
    }
}

} // verus!
