use cairo_vm::Felt252;
use panic_decoder::byte_array::{byte_array_magic, try_byte_array};
use panic_decoder::decoder::{ByteArrayDecoder, Item};
use panic_decoder::felt::FieldElement;
use panic_decoder::formatter::{decode_items, format_for_panic, format_items, join_items};

fn felt_hex(digits: &str) -> FieldElement {
    FieldElement::from_bytes_be(Felt252::from_hex_unchecked(digits).to_bytes_be())
}

fn felt_int(value: u64) -> FieldElement {
    FieldElement::from_bytes_be(Felt252::from(value).to_bytes_be())
}

fn padded(bytes: &[u8]) -> FieldElement {
    let mut word = [0u8; 32];
    word[32 - bytes.len()..].copy_from_slice(bytes);
    FieldElement::from_bytes_be(word)
}

fn encode(payload: &[u8]) -> Vec<FieldElement> {
    let mut felts = vec![byte_array_magic(), felt_int((payload.len() / 31) as u64)];
    for chunk in payload.chunks_exact(31) {
        felts.push(padded(chunk));
    }
    felts.push(padded(payload.chunks_exact(31).remainder()));
    felts.push(felt_int((payload.len() % 31) as u64));
    felts
}

#[test]
fn cursor_advances_on_every_step() {
    let mut felts = vec![felt_int(0x9999)];
    felts.extend(encode(b"hello"));
    felts.push(felt_hex("776f726c64"));
    felts.push(byte_array_magic());
    let mut decoder = ByteArrayDecoder::new(&felts);
    assert_eq!(decoder.remaining(), 7);
    assert_eq!(decoder.next_item(), Some(Item::Plain(felt_int(0x9999))));
    assert_eq!(decoder.remaining(), 6);
    assert_eq!(decoder.next_item(), Some(Item::Text(b"hello".to_vec())));
    assert_eq!(decoder.remaining(), 2);
    assert_eq!(decoder.next_item(), Some(Item::Plain(felt_hex("776f726c64"))));
    assert_eq!(decoder.remaining(), 1);
    assert_eq!(decoder.next_item(), Some(Item::Plain(byte_array_magic())));
    assert_eq!(decoder.remaining(), 0);
    assert_eq!(decoder.next_item(), None);
    assert_eq!(decoder.remaining(), 0);
    assert_eq!(decoder.next_item(), None);
}

#[test]
fn every_sequence_is_decoded_to_its_end() {
    let pool = [
        byte_array_magic(),
        felt_int(0),
        felt_int(1),
        felt_int(2),
        felt_hex("61"),
        felt_hex("100000000"),
    ];
    let mut state: u64 = 0x2545_f491_4f6c_dd1d;
    for len in 0..40usize {
        for _ in 0..50 {
            let mut felts = Vec::new();
            for _ in 0..len {
                state ^= state << 13;
                state ^= state >> 7;
                state ^= state << 17;
                felts.push(pool[(state % pool.len() as u64) as usize]);
            }
            let mut decoder = ByteArrayDecoder::new(&felts);
            let mut left = decoder.remaining();
            let mut count = 0;
            while let Some(_) = decoder.next_item() {
                assert!(decoder.remaining() < left);
                left = decoder.remaining();
                count += 1;
            }
            assert_eq!(left, 0);
            assert!(count <= len);
            assert_eq!(count == 0, len == 0);
            assert_eq!(decode_items(&felts).len(), count);
        }
    }
}

#[test]
fn empty_sequence_has_no_item() {
    let felts: Vec<FieldElement> = Vec::new();
    let mut decoder = ByteArrayDecoder::new(&felts);
    assert_eq!(decoder.remaining(), 0);
    assert_eq!(decoder.next_item(), None);
    assert!(decode_items(&felts).is_empty());
}

#[test]
fn empty_sequence_has_the_body_null() {
    assert_eq!(format_for_panic(&[]), "Panicked with Null.");
    assert_eq!(join_items(&Vec::new()), "Null");
    assert_eq!(format_items(&Vec::new()), "Panicked with Null.");
}

#[test]
fn round_trip_of_payloads() {
    let mut state: u32 = 12345;
    for len in 0..200usize {
        let mut payload = Vec::with_capacity(len);
        for i in 0..len {
            state = state.wrapping_mul(1664525).wrapping_add(1013904223);
            payload.push(if i % 7 == 0 { 0 } else { (state >> 24) as u8 });
        }
        let felts = encode(&payload);
        assert_eq!(felts.len(), len / 31 + 4);
        assert_eq!(try_byte_array(&felts, 0), Some((payload.clone(), felts.len())));
        assert_eq!(decode_items(&felts), vec![Item::Text(payload.clone())]);
    }
}

#[test]
fn round_trip_keeps_zero_bytes() {
    for payload in [
        vec![0u8],
        vec![0u8, 0],
        vec![0u8; 30],
        vec![0u8; 31],
        vec![0u8; 32],
        vec![0u8; 62],
        b"\0a".to_vec(),
        b"a\0".to_vec(),
        b"Hello\0world".to_vec(),
    ] {
        let felts = encode(&payload);
        assert_eq!(decode_items(&felts), vec![Item::Text(payload.clone())]);
    }
    assert_eq!(format_for_panic(&encode(&[0u8; 3])), "Panicked with \"\\0\\0\\0\".");
}

#[test]
fn round_trip_among_other_elements() {
    let payload = b"This is a long string with more than 31 characters.".to_vec();
    let mut felts = vec![felt_int(7), byte_array_magic()];
    felts.extend(encode(&payload));
    felts.push(felt_int(8));
    assert_eq!(try_byte_array(&felts, 2), Some((payload.clone(), 7)));
    assert_eq!(
        decode_items(&felts),
        vec![
            Item::Plain(felt_int(7)),
            Item::Plain(byte_array_magic()),
            Item::Text(payload),
            Item::Plain(felt_int(8)),
        ]
    );
}

#[test]
fn empty_payload_is_a_text_item() {
    let felts = encode(b"");
    assert_eq!(decode_items(&felts), vec![Item::Text(Vec::new())]);
    assert_eq!(format_for_panic(&felts), "Panicked with \"\".");
}

#[test]
fn pending_length_is_at_most_30() {
    let mut word = [0x61u8; 32];
    word[0] = 0;
    word[1] = 0;
    let pending = FieldElement::from_bytes_be(word);
    let felts = vec![byte_array_magic(), felt_int(0), pending, felt_int(30)];
    assert_eq!(try_byte_array(&felts, 0), Some((vec![0x61u8; 30], 4)));
    let felts = vec![byte_array_magic(), felt_int(0), pending, felt_int(31)];
    assert_eq!(try_byte_array(&felts, 0), None);
    let felts = vec![byte_array_magic(), felt_int(0), felt_int(0), felt_int(31)];
    assert_eq!(try_byte_array(&felts, 0), None);
    assert_eq!(decode_items(&felts).len(), 4);
    let felts = vec![byte_array_magic(), felt_int(0), felt_int(0), felt_int(32)];
    assert_eq!(try_byte_array(&felts, 0), None);
}

#[test]
fn pending_word_is_padded_with_zero_bytes() {
    let felts = vec![byte_array_magic(), felt_int(0), felt_hex("61"), felt_int(2)];
    assert_eq!(try_byte_array(&felts, 0), Some((vec![0, 0x61], 4)));
    let felts = vec![byte_array_magic(), felt_int(0), felt_int(0), felt_int(3)];
    assert_eq!(try_byte_array(&felts, 0), Some((vec![0, 0, 0], 4)));
    let felts = vec![byte_array_magic(), felt_int(0), felt_int(0), felt_int(0)];
    assert_eq!(try_byte_array(&felts, 0), Some((Vec::new(), 4)));
}

#[test]
fn byte_array_fails_as_a_whole() {
    // No count.
    assert_eq!(try_byte_array(&[byte_array_magic()], 0), None);
    // The count does not fit a native size.
    let mut big = [0u8; 32];
    big[15] = 1;
    let felts = vec![byte_array_magic(), FieldElement::from_bytes_be(big), felt_int(0), felt_int(0)];
    assert_eq!(try_byte_array(&felts, 0), None);
    // Fewer elements than the count asks for.
    let felts = vec![byte_array_magic(), felt_int(2), felt_int(0), felt_int(0), felt_int(0)];
    assert_eq!(try_byte_array(&felts, 0), None);
    let felts = vec![byte_array_magic(), felt_int(u64::MAX), felt_int(0), felt_int(0)];
    assert_eq!(try_byte_array(&felts, 0), None);
    // No pending length.
    let felts = vec![byte_array_magic(), felt_int(0), felt_int(0)];
    assert_eq!(try_byte_array(&felts, 0), None);
    // A full word that needs 32 bytes.
    let felts = vec![
        byte_array_magic(),
        felt_int(1),
        felt_hex("161616161616161616161616161616161616161616161616161616161616161"),
        felt_int(0),
        felt_int(0),
    ];
    assert_eq!(try_byte_array(&felts, 0), None);
    // A pending word with more bytes than its length.
    let felts = vec![byte_array_magic(), felt_int(0), felt_hex("6161"), felt_int(1)];
    assert_eq!(try_byte_array(&felts, 0), None);
    // The pending length does not fit a native size.
    let felts = vec![byte_array_magic(), felt_int(0), felt_int(0), FieldElement::from_bytes_be(big)];
    assert_eq!(try_byte_array(&felts, 0), None);
}

#[test]
fn failed_byte_array_consumes_the_marker_alone() {
    let felts = vec![byte_array_magic(), felt_int(0), felt_hex("6161"), felt_int(1)];
    let mut decoder = ByteArrayDecoder::new(&felts);
    assert_eq!(decoder.next_item(), Some(Item::Plain(byte_array_magic())));
    assert_eq!(decoder.remaining(), 3);
    assert_eq!(decoder.next_item(), Some(Item::Plain(felt_int(0))));
    assert_eq!(decoder.next_item(), Some(Item::Plain(felt_hex("6161"))));
    assert_eq!(decoder.next_item(), Some(Item::Plain(felt_int(1))));
    assert_eq!(decoder.next_item(), None);
}

#[test]
fn marker_after_a_failed_marker_starts_anew() {
    let mut felts = vec![byte_array_magic()];
    felts.extend(encode(b"ok"));
    assert_eq!(
        decode_items(&felts),
        vec![Item::Plain(byte_array_magic()), Item::Text(b"ok".to_vec())]
    );
    assert_eq!(
        format_for_panic(&felts),
        "Panicked with (0x46a6158a16a947e5916b2a2ca68501a45e93d7110e81aa2d6438b1c57c879a3, \"ok\")."
    );
}

#[test]
fn full_words_keep_their_31_bytes() {
    let payload: Vec<u8> = (1u8..=93).collect();
    let felts = encode(&payload);
    assert_eq!(felts.len(), 7);
    assert_eq!(felts[5], felt_int(0));
    assert_eq!(felts[6], felt_int(0));
    assert_eq!(try_byte_array(&felts, 0), Some((payload, 7)));
}

#[test]
fn rendering_is_repeatable() {
    let mut felts = vec![felt_int(0x9999)];
    felts.extend(encode(b"hello"));
    felts.push(felt_hex("776f726c64"));
    let items = decode_items(&felts);
    let first = format_items(&items);
    let second = format_items(&items);
    assert_eq!(first, second);
    assert_eq!(first, format_items(&items.clone()));
    assert_eq!(first, format_for_panic(&felts));
    assert_eq!(first, "Panicked with (0x9999, \"hello\", 0x776f726c64 ('world')).");
    let texts: Vec<String> = items.iter().map(|item| item.render()).collect();
    assert_eq!(texts, vec!["0x9999", "\"hello\"", "0x776f726c64 ('world')"]);
    assert_eq!(join_items(&texts), "(0x9999, \"hello\", 0x776f726c64 ('world'))");
    assert_eq!(join_items(&texts), join_items(&texts));
}

#[test]
fn join_rule() {
    assert_eq!(join_items(&vec!["a".to_string()]), "a");
    assert_eq!(join_items(&vec!["a".to_string(), "b".to_string()]), "(a, b)");
    assert_eq!(
        join_items(&vec!["a".to_string(), "b".to_string(), "c".to_string()]),
        "(a, b, c)"
    );
    assert_eq!(join_items(&vec!["".to_string()]), "");
    assert_eq!(join_items(&vec!["".to_string(), "".to_string()]), "(, )");
}
