//! Text in and out: characters of a string, strings of characters, and
//! numbers in decimal.

use itertools::Itertools;
use vstd::prelude::*;

verus! {

/// Joins the characters into one string.
///
/// This is `Itertools::join` with an empty separator, on an iterator over
/// the characters: the result holds what each character displays as, which is
/// the character itself, in order and with nothing in between.
#[verifier::external_body]
pub(crate) fn join_chars(chars: &Vec<char>) -> (text: String)
    ensures
        text@ == chars@,
{
    chars.iter().join("")
}

/// Appends the characters of `text` to `out`.
pub fn push_text(out: &mut Vec<char>, text: &str)
    ensures
        final(out)@ == old(out)@ + text@,
{
    let ghost before = out@;
    for c in it: text.chars()
        invariant
            it.seq() == text@,
            out@ == before + text@.take(it.index() as int),
    {
        out.push(c);
        assert(text@.take(it.index() + 1) == text@.take(it.index() as int).push(c));
    }
    assert(text@.take(text@.len() as int) == text@);
}

/// The characters of `text`.
pub fn chars_of(text: &str) -> (chars: Vec<char>)
    ensures
        chars@ == text@,
{
    let mut chars: Vec<char> = Vec::new();
    push_text(&mut chars, text);
    chars
}

/// The decimal digit for `d`; nine for what is greater.
pub open spec fn digit(d: nat) -> char {
    if d == 0 {
        '0'
    } else if d == 1 {
        '1'
    } else if d == 2 {
        '2'
    } else if d == 3 {
        '3'
    } else if d == 4 {
        '4'
    } else if d == 5 {
        '5'
    } else if d == 6 {
        '6'
    } else if d == 7 {
        '7'
    } else if d == 8 {
        '8'
    } else {
        '9'
    }
}

/// `n` in decimal, without leading zeros.
pub open spec fn decimal(n: nat) -> Seq<char>
    decreases n,
{
    if n < 10 {
        seq![digit(n)]
    } else {
        decimal(n / 10).push(digit(n % 10))
    }
}

/// A count of hundredths as a number with two decimal places: a minus sign
/// where it is negative, the whole part in decimal, a point, two digits.
pub open spec fn fixed_point(hundredths: int) -> Seq<char> {
    let magnitude = if hundredths < 0 {
        (-hundredths) as nat
    } else {
        hundredths as nat
    };
    let sign = if hundredths < 0 {
        seq!['-']
    } else {
        Seq::empty()
    };
    sign + decimal(magnitude / 100) + seq!['.', digit(magnitude / 10 % 10), digit(magnitude % 10)]
}

/// The decimal digit for `d`; nine for what is greater.
pub fn digit_char(d: u8) -> (c: char)
    ensures
        c == digit(d as nat),
{
    if d == 0 {
        '0'
    } else if d == 1 {
        '1'
    } else if d == 2 {
        '2'
    } else if d == 3 {
        '3'
    } else if d == 4 {
        '4'
    } else if d == 5 {
        '5'
    } else if d == 6 {
        '6'
    } else if d == 7 {
        '7'
    } else if d == 8 {
        '8'
    } else {
        '9'
    }
}

/// Appends `n` in decimal to `out`.
pub fn push_decimal(out: &mut Vec<char>, n: u128)
    ensures
        final(out)@ == old(out)@ + decimal(n as nat),
    decreases n,
{
    if n >= 10 {
        push_decimal(out, n / 10);
    }
    out.push(digit_char((n % 10) as u8));
}

/// Appends a count of hundredths to `out`, as a number with two decimal
/// places.
pub fn push_fixed_point(out: &mut Vec<char>, hundredths: i128)
    ensures
        final(out)@ == old(out)@ + fixed_point(hundredths as int),
{
    let magnitude: u128 = if hundredths < 0 {
        out.push('-');
        (-(hundredths + 1)) as u128 + 1
    } else {
        hundredths as u128
    };
    push_decimal(out, magnitude / 100);
    out.push('.');
    out.push(digit_char((magnitude / 10 % 10) as u8));
    out.push(digit_char((magnitude % 10) as u8));
}

} // verus!
