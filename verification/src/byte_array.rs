//! The packed byte array that may stand among the field elements of a panic
//! payload: a marker, the number of full words, the full words of 31 bytes
//! each, a last word of fewer bytes, and the number of bytes in that word.

use crate::felt::{
    be_value, lemma_stripped_is_suffix, lemma_stripped_len_by_value, pow256, stripped, FieldElement,
};
use vstd::prelude::*;

verus! {

/// The number of payload bytes in a full word.
pub const BYTES_IN_WORD: usize = 31;

/// The largest number of payload bytes in the pending word.
pub const MAX_PENDING_LEN: usize = 30;

/// The bytes of the field element that announces a byte array.
pub const BYTE_ARRAY_MAGIC: [u8; 32] = [
    0x04, 0x6a, 0x61, 0x58, 0xa1, 0x6a, 0x94, 0x7e,
    0x59, 0x16, 0xb2, 0xa2, 0xca, 0x68, 0x50, 0x1a,
    0x45, 0xe9, 0x3d, 0x71, 0x10, 0xe8, 0x1a, 0xa2,
    0xd6, 0x43, 0x8b, 0x1c, 0x57, 0xc8, 0x79, 0xa3,
];

/// The bytes of each field element of a sequence, in order.
pub open spec fn words(felts: Seq<FieldElement>) -> Seq<Seq<u8>> {
    Seq::new(felts.len(), |i: int| felts[i]@)
}

/// Whether the element is the marker that announces a byte array.
pub open spec fn is_magic(word: Seq<u8>) -> bool {
    word == BYTE_ARRAY_MAGIC@
}

/// Whether the element fits the 31 bytes of a full word: its first byte is zero.
pub open spec fn fits_word(word: Seq<u8>) -> bool {
    word[0] == 0
}

/// The number of full words that the element after the one at `i` announces.
pub open spec fn full_word_count(elems: Seq<Seq<u8>>, i: int) -> nat {
    be_value(elems[i + 1])
}

/// The number of pending bytes that the byte array after the element at `i` announces.
pub open spec fn pending_len(elems: Seq<Seq<u8>>, i: int) -> nat {
    be_value(elems[i + 3 + full_word_count(elems, i)])
}

/// The pending word of the byte array after the element at `i`.
pub open spec fn pending_word(elems: Seq<Seq<u8>>, i: int) -> Seq<u8> {
    elems[i + 2 + full_word_count(elems, i)]
}

/// Whether the elements after the one at `i` complete a byte array.
///
/// There is a count of full words that fits a native unsigned size; that many
/// elements follow it, each of which fits a full word; then come the pending
/// word and its length, which fits a native unsigned size and is at most 30;
/// and the pending word has no more significant bytes than that length.
pub open spec fn byte_array_follows(elems: Seq<Seq<u8>>, i: int) -> bool {
    let n = full_word_count(elems, i);
    &&& 0 <= i
    &&& i + 1 < elems.len()
    &&& n <= usize::MAX
    &&& i + 3 + n < elems.len()
    &&& forall|j: int| i + 2 <= j < i + 2 + n ==> fits_word(#[trigger] elems[j])
    &&& pending_len(elems, i) <= usize::MAX
    &&& pending_len(elems, i) <= MAX_PENDING_LEN
    &&& stripped(pending_word(elems, i)).len() <= pending_len(elems, i)
}

/// The payload of a run of full words: the last 31 bytes of each, in order.
pub open spec fn full_words_payload(full_words: Seq<Seq<u8>>) -> Seq<u8>
    decreases full_words.len(),
{
    if full_words.len() == 0 {
        Seq::empty()
    } else {
        full_words_payload(full_words.drop_last()) + full_words.last().subrange(1, 32)
    }
}

/// The payload of the byte array after the element at `i`: the bytes of its
/// full words, then the last `pending_len` bytes of its pending word.
pub open spec fn byte_array_payload(elems: Seq<Seq<u8>>, i: int) -> Seq<u8> {
    let n = full_word_count(elems, i);
    full_words_payload(elems.subrange(i + 2, i + 2 + n)) + pending_word(elems, i).subrange(
        32 - pending_len(elems, i),
        32,
    )
}

/// The index of the first element behind the byte array that begins at `i`.
pub open spec fn byte_array_end(elems: Seq<Seq<u8>>, i: int) -> int {
    i + 4 + full_word_count(elems, i)
}

/// An element fits a full word exactly when its number is below `256^31`, that
/// is when its 31-byte big-endian form loses nothing.
pub proof fn lemma_fits_word_by_value(word: Seq<u8>)
    requires
        word.len() == 32,
    ensures
        fits_word(word) <==> be_value(word) < pow256(31),
{
    lemma_stripped_len_by_value(word, 31);
    if word[0] == 0 {
        lemma_stripped_is_suffix(word.drop_first());
    }
}

/// The marker as a field element.
pub fn byte_array_magic() -> (magic: FieldElement)
    ensures
        is_magic(magic@),
{
    FieldElement::from_bytes_be(BYTE_ARRAY_MAGIC)
}

/// Reads the byte array that the elements after the one at `i` complete, if
/// they complete one: its payload and the index of the first element behind it.
/// Nothing is consumed; the caller moves on by the index.
pub fn try_byte_array(felts: &[FieldElement], i: usize) -> (found: Option<(Vec<u8>, usize)>)
    ensures
        match found {
            Some((payload, end)) => {
                &&& byte_array_follows(words(felts@), i as int)
                &&& payload@ == byte_array_payload(words(felts@), i as int)
                &&& end == byte_array_end(words(felts@), i as int)
            },
            None => !byte_array_follows(words(felts@), i as int),
        },
{
    let ghost elems = words(felts@);
    let len = felts.len();
    if i >= len || len - i < 2 {
        return None;
    }
    let n = match felts[i + 1].to_usize() {
        Some(n) => n,
        None => {
            return None;
        },
    };
    if len - i < 4 || n > len - i - 4 {
        return None;
    }
    let first: usize = i + 2;
    let mut payload: Vec<u8> = Vec::new();
    let mut k: usize = 0;
    assert(elems.subrange(first as int, first as int) =~= Seq::<Seq<u8>>::empty());
    while k < n
        invariant
            k <= n,
            first == i + 2,
            len == felts@.len(),
            first + n + 2 <= len,
            elems == words(felts@),
            n as nat == full_word_count(elems, i as int),
            forall|j: int| first <= j < first + k ==> fits_word(#[trigger] elems[j]),
            payload@ == full_words_payload(elems.subrange(first as int, first + k)),
        decreases n - k,
    {
        let word = &felts[first + k];
        assert(word@ == elems[first + k]);
        if word.bytes[0] != 0 {
            assert(!fits_word(elems[first + k]));
            return None;
        }
        let ghost before = payload@;
        let mut b: usize = 1;
        while b < 32
            invariant
                1 <= b <= 32,
                payload@ == before + word@.subrange(1, b as int),
            decreases 32 - b,
        {
            payload.push(word.bytes[b]);
            b += 1;
            assert(payload@ =~= before + word@.subrange(1, b as int));
        }
        k += 1;
        assert(elems.subrange(first as int, first + k).drop_last() =~= elems.subrange(
            first as int,
            first + k - 1,
        ));
    }
    let pending = &felts[first + n];
    let pending_len = match felts[first + n + 1].to_usize() {
        Some(pending_len) => pending_len,
        None => {
            return None;
        },
    };
    if pending_len > MAX_PENDING_LEN {
        return None;
    }
    if pending.stripped_len() > pending_len {
        return None;
    }
    let ghost before = payload@;
    let start: usize = 32 - pending_len;
    let mut b: usize = start;
    while b < 32
        invariant
            start <= b <= 32,
            payload@ == before + pending@.subrange(start as int, b as int),
        decreases 32 - b,
    {
        payload.push(pending.bytes[b]);
        b += 1;
        assert(payload@ =~= before + pending@.subrange(start as int, b as int));
    }
    Some((payload, first + n + 2))
}

} // verus!
