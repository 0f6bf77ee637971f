//! Display text of a decoded byte array.

use crate::text::{hex_digit, hex_digit_char, push_char};
use vstd::prelude::*;

verus! {

/// Whether the byte is a printable ASCII character: a space, a letter, a
/// digit or a punctuation mark.
pub open spec fn is_printable(b: u8) -> bool {
    0x20 <= b <= 0x7E
}

/// Whether the byte is shown as the character it encodes: a printable
/// character other than the double quote and the backslash, which have a
/// meaning of their own in the quoted text.
pub open spec fn is_literal(b: u8) -> bool {
    is_printable(b) && b != 0x22 && b != 0x5C
}

/// The display text of one byte.
///
/// A newline stays a newline, a zero byte becomes `\0`, a literal byte stays
/// the character it encodes, and every other byte becomes `\x` followed by
/// its two lowercase hexadecimal digits.
pub open spec fn escape_byte(b: u8) -> Seq<char> {
    if b == 0x0A {
        seq!['\n']
    } else if b == 0 {
        seq!['\\', '0']
    } else if is_literal(b) {
        seq![b as char]
    } else {
        seq!['\\', 'x', hex_digit((b / 16) as nat), hex_digit((b % 16) as nat)]
    }
}

/// The display text of a byte string: the texts of its bytes, in order.
pub open spec fn escape_text(bytes: Seq<u8>) -> Seq<char>
    decreases bytes.len(),
{
    if bytes.len() == 0 {
        Seq::empty()
    } else {
        escape_text(bytes.drop_last()) + escape_byte(bytes.last())
    }
}

/// Whether the byte is a printable ASCII character.
pub fn is_printable_byte(b: u8) -> (printable: bool)
    ensures
        printable == is_printable(b),
{
    0x20 <= b && b <= 0x7E
}

/// Appends the display text of one byte to `text`.
pub fn push_escaped_byte(text: &mut String, b: u8)
    ensures
        final(text)@ == old(text)@ + escape_byte(b),
{
    if b == 0x0A {
        push_char(text, '\n');
    } else if b == 0 {
        push_char(text, '\\');
        push_char(text, '0');
    } else if is_printable_byte(b) && b != 0x22 && b != 0x5C {
        push_char(text, b as char);
    } else {
        push_char(text, '\\');
        push_char(text, 'x');
        push_char(text, hex_digit_char(b / 16));
        push_char(text, hex_digit_char(b % 16));
    }
    assert(text@ =~= old(text)@ + escape_byte(b));
}

/// The display text of a byte string. The bytes are taken one by one; they
/// need not be valid UTF-8.
pub fn escape_bytes(bytes: &[u8]) -> (text: String)
    ensures
        text@ == escape_text(bytes@),
{
    let mut text = String::new();
    let mut i: usize = 0;
    assert(bytes@.subrange(0, 0) =~= Seq::<u8>::empty());
    while i < bytes.len()
        invariant
            i <= bytes.len(),
            text@ == escape_text(bytes@.subrange(0, i as int)),
        decreases bytes.len() - i,
    {
        assert(bytes@.subrange(0, i + 1).drop_last() =~= bytes@.subrange(0, i as int));
        push_escaped_byte(&mut text, bytes[i]);
        i += 1;
    }
    assert(bytes@.subrange(0, i as int) =~= bytes@);
    text
}

} // verus!
