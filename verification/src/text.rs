//! Building strings one character at a time.

use vstd::prelude::*;

verus! {

/// Appends one character to the string.
///
/// Calls `String::push` of the standard library; the contract states that the
/// string afterwards is the string before with `c` at its end.
#[verifier::external_body]
pub(crate) fn push_char(text: &mut String, c: char)
    ensures
        final(text)@ == old(text)@.push(c),
{
    text.push(c);
}

/// The lowercase hexadecimal digit of a number below sixteen.
pub open spec fn hex_digit(d: nat) -> char {
    if d < 10 {
        (('0' as u8) + d) as u8 as char
    } else {
        (('a' as u8) + d - 10) as u8 as char
    }
}

/// The hexadecimal digits of a number, most significant first and without
/// leading zeros; zero is the single digit `0`.
pub open spec fn hex_digits(n: nat) -> Seq<char>
    decreases n,
{
    if n < 16 {
        seq![hex_digit(n)]
    } else {
        hex_digits(n / 16).push(hex_digit(n % 16))
    }
}

/// The digits of `n` written with the prefix `0x`.
pub open spec fn hex_text(n: nat) -> Seq<char> {
    seq!['0', 'x'] + hex_digits(n)
}

/// The character of one hexadecimal digit.
pub fn hex_digit_char(d: u8) -> (c: char)
    requires
        d < 16,
    ensures
        c == hex_digit(d as nat),
{
    if d < 10 {
        (48u8 + d) as char
    } else {
        (87u8 + d) as char
    }
}

/// Appending one more digit to a number multiplies it by sixteen and adds the digit.
pub proof fn lemma_hex_digits_step(v: nat, d: nat)
    requires
        d < 16,
    ensures
        hex_digits(v * 16 + d) == if v > 0 {
            hex_digits(v).push(hex_digit(d))
        } else {
            seq![hex_digit(d)]
        },
{
    if v > 0 {
        assert((v * 16 + d) / 16 == v);
        assert((v * 16 + d) % 16 == d);
    }
}

} // verus!
