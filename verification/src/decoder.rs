//! The decoder: a read cursor over the field elements of a panic payload
//! that hands out one item per step.

use crate::byte_array::{
    byte_array_end, byte_array_follows, byte_array_payload, is_magic, try_byte_array, words,
    BYTE_ARRAY_MAGIC,
};
use crate::felt::FieldElement;
use vstd::prelude::*;

verus! {

/// One unit of decoder output.
#[derive(Clone, Debug, PartialEq, Eq)]
pub enum Item {
    /// A field element that stands for itself.
    Plain(FieldElement),
    /// The payload of a byte array.
    Text(Vec<u8>),
}

/// What an item holds: the bytes of a field element, or the bytes of a payload.
pub enum ItemView {
    Plain(Seq<u8>),
    Text(Seq<u8>),
}

impl View for Item {
    type V = ItemView;

    open spec fn view(&self) -> ItemView {
        match self {
            Item::Plain(felt) => ItemView::Plain(felt@),
            Item::Text(payload) => ItemView::Text(payload@),
        }
    }
}

/// Whether a byte array begins at index `i`: the element there is the marker
/// and the elements after it complete the array.
pub open spec fn byte_array_at(elems: Seq<Seq<u8>>, i: int) -> bool {
    is_magic(elems[i]) && byte_array_follows(elems, i)
}

/// The item that the decoder yields at index `i`: the payload of the byte
/// array that begins there, or else the element there by itself.
pub open spec fn item_at(elems: Seq<Seq<u8>>, i: int) -> ItemView {
    if byte_array_at(elems, i) {
        ItemView::Text(byte_array_payload(elems, i))
    } else {
        ItemView::Plain(elems[i])
    }
}

/// The index at which the decoder goes on after the item at index `i`: behind
/// the whole byte array, or else behind the one element.
pub open spec fn next_index(elems: Seq<Seq<u8>>, i: int) -> int {
    if byte_array_at(elems, i) {
        byte_array_end(elems, i)
    } else {
        i + 1
    }
}

/// The items that the decoder yields from index `i` to the end, in order.
pub open spec fn items_from(elems: Seq<Seq<u8>>, i: int) -> Seq<ItemView>
    decreases elems.len() - i,
{
    if 0 <= i < elems.len() {
        seq![item_at(elems, i)] + items_from(elems, next_index(elems, i))
    } else {
        Seq::empty()
    }
}

/// The items of a whole sequence of elements.
pub open spec fn items_of(elems: Seq<Seq<u8>>) -> Seq<ItemView> {
    items_from(elems, 0)
}

/// Progress: before the end every step moves the cursor forward by at least
/// one element, and never past the end.
pub proof fn lemma_cursor_advances(elems: Seq<Seq<u8>>, i: int)
    requires
        0 <= i < elems.len(),
    ensures
        i < next_index(elems, i) <= elems.len(),
        !byte_array_at(elems, i) ==> next_index(elems, i) == i + 1,
{
}

/// The decoder yields at least one item where an element is left, and never
/// more items than elements are left.
pub proof fn lemma_items_bounded(elems: Seq<Seq<u8>>, i: int)
    requires
        0 <= i <= elems.len(),
    ensures
        items_from(elems, i).len() <= elems.len() - i,
        i < elems.len() ==> items_from(elems, i).len() >= 1,
    decreases elems.len() - i,
{
    if i < elems.len() {
        lemma_items_bounded(elems, next_index(elems, i));
    }
}

/// A read cursor over a sequence of field elements.
pub struct ByteArrayDecoder<'a> {
    felts: &'a [FieldElement],
    pos: usize,
}

impl<'a> ByteArrayDecoder<'a> {
    #[verifier::type_invariant]
    closed spec fn in_bounds(&self) -> bool {
        self.pos <= self.felts@.len()
    }

    /// The bytes of the elements that the cursor runs over.
    pub closed spec fn elements(&self) -> Seq<Seq<u8>> {
        words(self.felts@)
    }

    /// The index of the element that the next step begins with.
    pub closed spec fn position(&self) -> int {
        self.pos as int
    }

    /// A cursor at the first element.
    pub fn new(felts: &'a [FieldElement]) -> (decoder: Self)
        ensures
            decoder.elements() == words(felts@),
            decoder.position() == 0,
    {
        ByteArrayDecoder { felts, pos: 0 }
    }

    /// The number of elements that are left.
    pub fn remaining(&self) -> (count: usize)
        ensures
            count == self.elements().len() - self.position(),
            self.position() <= self.elements().len(),
    {
        proof {
            use_type_invariant(self);
        }
        self.felts.len() - self.pos
    }

    /// One step of the decoder.
    ///
    /// At the end of the elements there is no item, and the cursor stays.
    /// Before the end the step yields exactly one item and moves the cursor
    /// forward: past a whole byte array where one begins at the cursor, and
    /// past the one element at the cursor otherwise.
    pub fn next_item(&mut self) -> (item: Option<Item>)
        ensures
            final(self).elements() == old(self).elements(),
            final(self).position() <= old(self).elements().len(),
            old(self).position() >= old(self).elements().len() ==> {
                &&& item is None
                &&& final(self).position() == old(self).position()
            },
            old(self).position() < old(self).elements().len() ==> {
                &&& item is Some
                &&& item->0@ == item_at(old(self).elements(), old(self).position())
                &&& final(self).position() == next_index(
                    old(self).elements(),
                    old(self).position(),
                )
                &&& final(self).position() > old(self).position()
            },
    {
        proof {
            use_type_invariant(&*self);
        }
        let i = self.pos;
        if i >= self.felts.len() {
            return None;
        }
        let candidate = self.felts[i];
        if candidate.same_as(&FieldElement::from_bytes_be(BYTE_ARRAY_MAGIC)) {
            match try_byte_array(self.felts, i) {
                Some((payload, end)) => {
                    self.pos = end;
                    return Some(Item::Text(payload));
                },
                None => {},
            }
        }
        self.pos = i + 1;
        Some(Item::Plain(candidate))
    }
}

} // verus!
