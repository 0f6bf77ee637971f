//! The byte array that encodes a payload, as a mathematical object, and the
//! proof that the decoder gives the payload back.

use crate::byte_array::{
    byte_array_follows, byte_array_payload, fits_word, full_word_count, full_words_payload,
    pending_len, pending_word, BYTE_ARRAY_MAGIC,
};
use crate::decoder::{item_at, items_from, items_of, next_index, ItemView};
use crate::escape::escape_text;
use crate::felt::{
    be_value, lemma_pow256_monotonic, lemma_stripped_len_by_value, lemma_value_below_pow,
    lemma_value_push, lemma_value_skips_zeros, pow256, stripped,
};
use crate::formatter::{item_text, item_texts, message_text, panic_message};
use vstd::prelude::*;

verus! {

/// The `width` bytes that denote `n` when read big-endian.
pub open spec fn be_bytes(n: nat, width: nat) -> Seq<u8>
    decreases width,
{
    if width == 0 {
        Seq::empty()
    } else {
        be_bytes(n / 256, (width - 1) as nat).push((n % 256) as u8)
    }
}

/// The byte string with zero bytes in front of it up to the length `width`.
pub open spec fn left_padded(bytes: Seq<u8>, width: nat) -> Seq<u8> {
    Seq::new((width - bytes.len()) as nat, |i: int| 0u8) + bytes
}

/// The full words of a payload: one element for each run of 31 bytes.
pub open spec fn full_words_of(payload: Seq<u8>) -> Seq<Seq<u8>> {
    Seq::new(payload.len() / 31, |k: int| left_padded(payload.subrange(31 * k, 31 * k + 31), 32))
}

/// The bytes of the payload that are left behind its full words.
pub open spec fn pending_bytes_of(payload: Seq<u8>) -> Seq<u8> {
    payload.subrange((31 * (payload.len() / 31)) as int, payload.len() as int)
}

/// The elements that encode a payload: the marker, the number of full words,
/// the full words, the pending word and the number of its bytes.
pub open spec fn encoded(payload: Seq<u8>) -> Seq<Seq<u8>> {
    seq![BYTE_ARRAY_MAGIC@, be_bytes(payload.len() / 31, 32)] + full_words_of(payload) + seq![
        left_padded(pending_bytes_of(payload), 32),
        be_bytes(payload.len() % 31, 32),
    ]
}

/// Bytes that are written for a number denote that number, if the width is enough for it.
pub proof fn lemma_value_of_be_bytes(n: nat, width: nat)
    requires
        n < pow256(width),
    ensures
        be_bytes(n, width).len() == width,
        be_value(be_bytes(n, width)) == n,
    decreases width,
{
    if width > 0 {
        lemma_value_of_be_bytes(n / 256, (width - 1) as nat);
        lemma_value_push(be_bytes(n / 256, (width - 1) as nat), (n % 256) as u8);
    }
}

/// The payload of the full words of a payload is the payload up to its pending bytes.
pub proof fn lemma_payload_of_full_words(payload: Seq<u8>, count: nat)
    requires
        count <= payload.len() / 31,
    ensures
        full_words_payload(full_words_of(payload).subrange(0, count as int)) == payload.subrange(
            0,
            (31 * count) as int,
        ),
    decreases count,
{
    let all = full_words_of(payload);
    let taken = all.subrange(0, count as int);
    if count == 0 {
        assert(full_words_payload(taken) =~= payload.subrange(0, 0));
    } else {
        lemma_payload_of_full_words(payload, (count - 1) as nat);
        assert(taken.drop_last() =~= all.subrange(0, count - 1));
        let chunk = payload.subrange(31 * (count - 1), 31 * (count - 1) + 31);
        assert(taken.last() == left_padded(chunk, 32));
        assert(taken.last().subrange(1, 32) =~= chunk);
        assert(payload.subrange(0, 31 * (count - 1)) + chunk =~= payload.subrange(0, (31 * count) as int));
    }
}

/// Round trip: where the elements that encode a payload stand among other
/// elements, the decoder yields the payload at their first element, zero
/// bytes included, and goes on behind their last element.
pub proof fn lemma_decodes_encoded(before: Seq<Seq<u8>>, payload: Seq<u8>, after: Seq<Seq<u8>>)
    requires
        payload.len() / 31 <= usize::MAX,
    ensures
        item_at(before + encoded(payload) + after, before.len() as int) == ItemView::Text(payload),
        next_index(before + encoded(payload) + after, before.len() as int) == before.len()
            + encoded(payload).len(),
        encoded(payload).len() == payload.len() / 31 + 4,
{
    let elems = before + encoded(payload) + after;
    let i = before.len() as int;
    let n = payload.len() / 31;
    let r = payload.len() % 31;
    let pending = pending_bytes_of(payload);
    reveal_with_fuel(pow256, 9);
    lemma_pow256_monotonic(8, 32);
    lemma_pow256_monotonic(1, 32);
    lemma_value_of_be_bytes(n, 32);
    lemma_value_of_be_bytes(r, 32);
    assert(elems[i] == BYTE_ARRAY_MAGIC@);
    assert(elems[i + 1] == be_bytes(n, 32));
    assert(full_word_count(elems, i) == n);
    assert(elems[i + 2 + n] == left_padded(pending, 32));
    assert(elems[i + 3 + n] == be_bytes(r, 32));
    assert(pending_len(elems, i) == r);
    assert forall|j: int| i + 2 <= j < i + 2 + n implies fits_word(#[trigger] elems[j]) by {
        assert(elems[j] == full_words_of(payload)[j - i - 2]);
    }
    assert(stripped(pending_word(elems, i)).len() <= r) by {
        let word = left_padded(pending, 32);
        lemma_value_skips_zeros(word, 32 - r);
        assert(word.subrange(32 - r, 32) =~= pending);
        lemma_value_below_pow(pending);
        lemma_stripped_len_by_value(word, r);
    }
    assert(byte_array_follows(elems, i));
    assert(byte_array_payload(elems, i) == payload) by {
        assert(elems.subrange(i + 2, i + 2 + n) =~= full_words_of(payload).subrange(0, n as int));
        lemma_payload_of_full_words(payload, n);
        assert(left_padded(pending, 32).subrange(32 - r, 32) =~= pending);
        assert(payload.subrange(0, (31 * n) as int) + pending =~= payload);
    }
}

/// Round trip for a payload by itself: its encoding decodes to the one item
/// that holds the payload, and the message shows its display text in double
/// quotes.
pub proof fn lemma_encoded_payload_message(payload: Seq<u8>)
    requires
        payload.len() / 31 <= usize::MAX,
    ensures
        items_of(encoded(payload)) == seq![ItemView::Text(payload)],
        panic_message(encoded(payload)) == message_text(
            seq!['"'] + escape_text(payload) + seq!['"'],
        ),
{
    let elems = encoded(payload);
    lemma_decodes_encoded(Seq::empty(), payload, Seq::empty());
    assert(Seq::<Seq<u8>>::empty() + elems + Seq::<Seq<u8>>::empty() =~= elems);
    assert(items_from(elems, elems.len() as int) =~= Seq::<ItemView>::empty());
    assert(items_of(elems) =~= seq![ItemView::Text(payload)]);
    assert(item_texts(items_of(elems)) =~= seq![item_text(ItemView::Text(payload))]);
}

} // verus!
