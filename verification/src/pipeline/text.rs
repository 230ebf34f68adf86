//! Rendering of numbers as text.

use vstd::prelude::*;

verus! {

/// `String::push`: appends the character to the end of the string.
pub assume_specification[ String::push ](text: &mut String, ch: char)
    ensures
        final(text)@ == old(text)@.push(ch),
;

/// The character of a decimal digit.
pub open spec fn digit_char(digit: nat) -> char
    recommends
        digit < 10,
{
    (48 + digit) as char
}

/// A number in decimal, without sign or leading zeros.
pub open spec fn decimal(number: nat) -> Seq<char>
    decreases number,
{
    if number < 10 {
        seq![digit_char(number)]
    } else {
        decimal(number / 10).push(digit_char(number % 10))
    }
}

/// `count` copies of `fill`.
pub open spec fn filler(fill: char, count: nat) -> Seq<char> {
    Seq::new(count, |i: int| fill)
}

/// A text set flush right in `width` characters, `fill` on its left. A text
/// that is wider is left as it is.
pub open spec fn padded(text: Seq<char>, width: nat, fill: char) -> Seq<char> {
    if text.len() >= width {
        text
    } else {
        filler(fill, (width - text.len()) as nat) + text
    }
}

/// A 64-bit number has at most twenty decimal digits.
pub proof fn lemma_decimal_len(number: nat)
    ensures
        decimal(number).len() >= 1,
        number < 10 ==> decimal(number).len() == 1,
        number <= u64::MAX ==> decimal(number).len() <= 20,
{
    reveal_with_fuel(decimal, 22);
}

fn digit(value: u8) -> (ch: char)
    requires
        value < 10,
    ensures
        ch == digit_char(value as nat),
{
    (48u8 + value) as char
}

/// Appends `number` in decimal.
pub fn push_decimal(text: &mut String, number: u64)
    ensures
        final(text)@ == old(text)@ + decimal(number as nat),
    decreases number,
{
    if number >= 10 {
        push_decimal(text, number / 10);
    }
    text.push(digit((number % 10) as u8));
    assert(text@ =~= old(text)@ + decimal(number as nat));
}

/// The number of decimal digits of `number`.
pub fn decimal_len(number: u64) -> (len: usize)
    ensures
        len == decimal(number as nat).len(),
        1 <= len <= 20,
    decreases number,
{
    proof {
        lemma_decimal_len(number as nat);
    }
    if number >= 10 {
        decimal_len(number / 10) + 1
    } else {
        1
    }
}

/// Appends `number` in decimal, flush right in `width` characters.
pub fn push_padded(text: &mut String, number: u64, width: usize, fill: char)
    ensures
        final(text)@ == old(text)@ + padded(decimal(number as nat), width as nat, fill),
{
    let len: usize = decimal_len(number);
    let mut count: usize = 0;
    if len < width {
        let missing: usize = width - len;
        while count < missing
            invariant
                count <= missing,
                text@ == old(text)@ + filler(fill, count as nat),
            decreases missing - count,
        {
            text.push(fill);
            count = count + 1;
            assert(text@ =~= old(text)@ + filler(fill, count as nat));
        }
    } else {
        assert(text@ =~= old(text)@ + filler(fill, 0));
    }
    push_decimal(text, number);
    assert(text@ =~= old(text)@ + padded(decimal(number as nat), width as nat, fill));
}

} // verus!
