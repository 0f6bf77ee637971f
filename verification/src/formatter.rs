//! The panic message: the decoder is driven over the whole payload and the
//! renderings of its items are joined.

use crate::byte_array::words;
use crate::decoder::{
    items_from, items_of, lemma_items_bounded, ByteArrayDecoder, Item, ItemView,
};
use crate::escape::{escape_bytes, escape_text};
use crate::felt::FieldElement;
use crate::short_string::{format_short_string, plain_text};
use crate::text::push_char;
use vstd::prelude::*;

verus! {

/// The rendering of one item: a field element by itself, a payload as its
/// display text in double quotes.
pub open spec fn item_text(item: ItemView) -> Seq<char> {
    match item {
        ItemView::Plain(word) => plain_text(word),
        ItemView::Text(payload) => seq!['"'] + escape_text(payload) + seq!['"'],
    }
}

/// The renderings of the items, in order.
pub open spec fn item_texts(items: Seq<ItemView>) -> Seq<Seq<char>> {
    Seq::new(items.len(), |i: int| item_text(items[i]))
}

/// The texts in a row, with a comma and a space between neighbours.
pub open spec fn joined(texts: Seq<Seq<char>>) -> Seq<char>
    decreases texts.len(),
{
    if texts.len() == 0 {
        Seq::empty()
    } else if texts.len() == 1 {
        texts[0]
    } else {
        joined(texts.drop_last()) + seq![',', ' '] + texts.last()
    }
}

/// The body of the message: `Null` for no item, the one rendering for one
/// item, and the joined renderings in round brackets for several.
pub open spec fn body_text(texts: Seq<Seq<char>>) -> Seq<char> {
    if texts.len() == 0 {
        "Null"@
    } else if texts.len() == 1 {
        texts[0]
    } else {
        seq!['('] + joined(texts) + seq![')']
    }
}

/// The message around a body.
pub open spec fn message_text(body: Seq<char>) -> Seq<char> {
    "Panicked with "@ + body + "."@
}

/// The message for a list of items.
pub open spec fn items_message(items: Seq<ItemView>) -> Seq<char> {
    message_text(body_text(item_texts(items)))
}

/// The message for a panic payload.
pub open spec fn panic_message(elems: Seq<Seq<u8>>) -> Seq<char> {
    items_message(items_of(elems))
}

/// What each item of a list holds, in order.
pub open spec fn item_views(items: Seq<Item>) -> Seq<ItemView> {
    Seq::new(items.len(), |i: int| items[i]@)
}

/// The characters of each string of a list, in order.
pub open spec fn string_views(texts: Seq<String>) -> Seq<Seq<char>> {
    Seq::new(texts.len(), |i: int| texts[i]@)
}

/// Rendering can be repeated: lists of items that hold the same bytes give
/// the same message, however often and from whichever copy it is rendered.
pub proof fn lemma_message_depends_on_items(first: Seq<Item>, second: Seq<Item>)
    requires
        item_views(first) == item_views(second),
    ensures
        items_message(item_views(first)) == items_message(item_views(second)),
{
}

/// The body is `Null` only for the empty payload: the decoder yields an item
/// wherever there is an element.
pub proof fn lemma_null_only_for_empty(elems: Seq<Seq<u8>>)
    ensures
        items_of(elems).len() == 0 <==> elems.len() == 0,
        elems.len() == 0 ==> panic_message(elems) == message_text("Null"@),
{
    lemma_items_bounded(elems, 0);
}

impl Item {
    /// The rendering of the item. The item is left as it is.
    pub fn render(&self) -> (text: String)
        ensures
            text@ == item_text(self@),
    {
        match self {
            Item::Plain(felt) => format_short_string(felt),
            Item::Text(payload) => {
                let mut text = String::new();
                push_char(&mut text, '"');
                text.append(escape_bytes(payload.as_slice()).as_str());
                push_char(&mut text, '"');
                assert(text@ =~= item_text(self@));
                text
            },
        }
    }
}

/// The body of the message for the given renderings.
pub fn join_items(texts: &Vec<String>) -> (body: String)
    ensures
        body@ == body_text(string_views(texts@)),
{
    let ghost views = string_views(texts@);
    if texts.len() == 0 {
        return String::from_str("Null");
    }
    if texts.len() == 1 {
        return texts[0].clone();
    }
    let mut body = String::new();
    push_char(&mut body, '(');
    body.append(texts[0].as_str());
    let mut i: usize = 1;
    assert(views.subrange(0, 1) =~= seq![views[0]]);
    assert(body@ =~= seq!['('] + joined(views.subrange(0, 1)));
    while i < texts.len()
        invariant
            1 <= i <= texts.len(),
            views == string_views(texts@),
            body@ == seq!['('] + joined(views.subrange(0, i as int)),
        decreases texts.len() - i,
    {
        push_char(&mut body, ',');
        push_char(&mut body, ' ');
        body.append(texts[i].as_str());
        i += 1;
        assert(views.subrange(0, i as int).drop_last() =~= views.subrange(0, i - 1));
        assert(body@ =~= seq!['('] + joined(views.subrange(0, i as int)));
    }
    assert(views.subrange(0, i as int) =~= views);
    push_char(&mut body, ')');
    body
}

/// The items of a panic payload, in order.
pub fn decode_items(felts: &[FieldElement]) -> (items: Vec<Item>)
    ensures
        item_views(items@) == items_of(words(felts@)),
{
    let ghost elems = words(felts@);
    let mut decoder = ByteArrayDecoder::new(felts);
    let mut items: Vec<Item> = Vec::new();
    assert(item_views(items@) + items_from(elems, 0) =~= items_of(elems));
    loop
        invariant
            elems == words(felts@),
            decoder.elements() == elems,
            0 <= decoder.position() <= elems.len(),
            item_views(items@) + items_from(elems, decoder.position()) == items_of(elems),
        ensures
            item_views(items@) == items_of(elems),
        decreases elems.len() - decoder.position(),
    {
        let ghost before = items@;
        let ghost at = decoder.position();
        match decoder.next_item() {
            Some(item) => {
                items.push(item);
                assert(item_views(items@) =~= item_views(before) + seq![item@]);
                assert(item_views(items@) + items_from(elems, decoder.position()) =~= item_views(
                    before,
                ) + items_from(elems, at));
            },
            None => {
                assert(item_views(items@) + items_from(elems, at) =~= item_views(items@));
                break ;
            },
        }
    }
    items
}

/// The message for a list of items. The items are left as they are: the
/// message is a function of what they hold and of nothing else.
pub fn format_items(items: &Vec<Item>) -> (message: String)
    ensures
        message@ == items_message(item_views(items@)),
{
    let mut texts: Vec<String> = Vec::new();
    let mut i: usize = 0;
    while i < items.len()
        invariant
            i <= items.len(),
            texts@.len() == i,
            forall|j: int| 0 <= j < i ==> texts@[j]@ == item_text(#[trigger] items@[j]@),
        decreases items.len() - i,
    {
        texts.push(items[i].render());
        i += 1;
    }
    assert(string_views(texts@) =~= item_texts(item_views(items@)));
    let body = join_items(&texts);
    let mut message = String::from_str("Panicked with ");
    message.append(body.as_str());
    message.append(".");
    message
}

/// The message for a panic payload.
pub fn format_for_panic(felts: &[FieldElement]) -> (message: String)
    ensures
        message@ == panic_message(words(felts@)),
{
    let items = decode_items(felts);
    format_items(&items)
}

} // verus!
