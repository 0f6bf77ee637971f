//! Rendering of a single field element.

use crate::byte_array::BYTE_ARRAY_MAGIC;
use crate::escape::{is_printable, is_printable_byte};
use crate::felt::{be_value, lemma_stripped_is_suffix, stripped, FieldElement};
use crate::text::{hex_text, push_char};
use vstd::prelude::*;

verus! {

/// Whether a field element with these bytes reads as a short string: its
/// stripped form has at most 31 bytes, each of them a printable ASCII
/// character. The zero element, whose stripped form is empty, is one.
pub open spec fn is_short_string(bytes: Seq<u8>) -> bool {
    let s = stripped(bytes);
    s.len() <= 31 && forall|i: int| 0 <= i < s.len() ==> is_printable(#[trigger] s[i])
}

/// The characters that the bytes encode in ASCII.
pub open spec fn ascii_text(bytes: Seq<u8>) -> Seq<char> {
    Seq::new(bytes.len(), |i: int| bytes[i] as char)
}

/// The rendering of a single field element: its value in hexadecimal,
/// followed, where it reads as a short string, by that string in single
/// quotes and round brackets.
pub open spec fn plain_text(bytes: Seq<u8>) -> Seq<char> {
    if is_short_string(bytes) {
        hex_text(be_value(bytes)) + seq![' ', '(', '\''] + ascii_text(stripped(bytes)) + seq![
            '\'',
            ')',
        ]
    } else {
        hex_text(be_value(bytes))
    }
}

/// The marker of a byte array never reads as a short string: none of its 32
/// bytes is a leading zero. By itself it is rendered in hexadecimal alone.
pub proof fn lemma_magic_is_no_short_string()
    ensures
        stripped(BYTE_ARRAY_MAGIC@).len() == 32,
        !is_short_string(BYTE_ARRAY_MAGIC@),
        plain_text(BYTE_ARRAY_MAGIC@) == hex_text(be_value(BYTE_ARRAY_MAGIC@)),
{
    assert(BYTE_ARRAY_MAGIC@[0] == 0x04);
}

/// The short string that the element reads as, if it reads as one.
pub fn as_short_string(felt: &FieldElement) -> (text: Option<String>)
    ensures
        text is Some <==> is_short_string(felt@),
        text is Some ==> text->0@ == ascii_text(stripped(felt@)),
{
    let len = felt.stripped_len();
    proof {
        lemma_stripped_is_suffix(felt@);
    }
    if len > 31 {
        return None;
    }
    let start: usize = 32 - len;
    let ghost s = stripped(felt@);
    let mut text = String::new();
    let mut i: usize = start;
    while i < 32
        invariant
            start <= i <= 32,
            start == 32 - len,
            len == s.len(),
            s == stripped(felt@),
            s == felt@.subrange(start as int, 32),
            forall|j: int| 0 <= j < i - start ==> is_printable(#[trigger] s[j]),
            text@ == ascii_text(s.subrange(0, i - start)),
        decreases 32 - i,
    {
        let b = felt.bytes[i];
        assert(b == s[i - start]);
        if !is_printable_byte(b) {
            assert(!is_printable(s[i - start]));
            return None;
        }
        push_char(&mut text, b as char);
        i += 1;
        assert(text@ =~= ascii_text(s.subrange(0, i - start)));
    }
    assert(s.subrange(0, i - start) =~= s);
    Some(text)
}

/// The rendering of a single field element.
pub fn format_short_string(felt: &FieldElement) -> (text: String)
    ensures
        text@ == plain_text(felt@),
{
    let mut text = felt.to_hex();
    match as_short_string(felt) {
        Some(quoted) => {
            push_char(&mut text, ' ');
            push_char(&mut text, '(');
            push_char(&mut text, '\'');
            text.append(quoted.as_str());
            push_char(&mut text, '\'');
            push_char(&mut text, ')');
            assert(text@ =~= plain_text(felt@));
        },
        None => {},
    }
    text
}

} // verus!
