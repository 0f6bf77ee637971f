use panic_decoder::escape::{escape_bytes, is_printable_byte, push_escaped_byte};

#[test]
fn newline_stays() {
    assert_eq!(escape_bytes(b"\n"), "\n");
    assert_eq!(escape_bytes(b"a\nb"), "a\nb");
}

#[test]
fn zero_byte_is_backslash_zero() {
    assert_eq!(escape_bytes(&[0]), "\\0");
    assert_eq!(escape_bytes(b"Hello\0world"), "Hello\\0world");
}

#[test]
fn printable_bytes_stay() {
    assert_eq!(escape_bytes(b" "), " ");
    assert_eq!(escape_bytes(b"~"), "~");
    assert_eq!(escape_bytes(b"short, but string"), "short, but string");
    assert_eq!(escape_bytes(b"it's"), "it's");
    let printable: Vec<u8> = (0x20u8..=0x7e).filter(|b| *b != b'"' && *b != b'\\').collect();
    assert_eq!(
        escape_bytes(&printable),
        String::from_utf8(printable.clone()).unwrap()
    );
}

#[test]
fn quote_and_backslash_are_escaped() {
    assert_eq!(escape_bytes(b"\""), "\\x22");
    assert_eq!(escape_bytes(b"\\"), "\\x5c");
    assert_eq!(escape_bytes(b"a\"b\\c"), "a\\x22b\\x5cc");
}

#[test]
fn other_bytes_are_two_hex_digits() {
    assert_eq!(escape_bytes(&[0x11]), "\\x11");
    assert_eq!(escape_bytes(&[0x01]), "\\x01");
    assert_eq!(escape_bytes(&[0x09]), "\\x09");
    assert_eq!(escape_bytes(&[0x0d]), "\\x0d");
    assert_eq!(escape_bytes(&[0x1f]), "\\x1f");
    assert_eq!(escape_bytes(&[0x7f]), "\\x7f");
    assert_eq!(escape_bytes(&[0x80]), "\\x80");
    assert_eq!(escape_bytes(&[0xab]), "\\xab");
    assert_eq!(escape_bytes(&[0xff]), "\\xff");
    assert_eq!(escape_bytes(&[0xc3, 0xa9]), "\\xc3\\xa9");
}

#[test]
fn empty_payload_is_empty_text() {
    assert_eq!(escape_bytes(&[]), "");
}

#[test]
fn every_byte_has_its_rule() {
    for b in 0u8..=255 {
        let expected = if b == 0x0a {
            "\n".to_string()
        } else if b == 0 {
            "\\0".to_string()
        } else if (0x20..=0x7e).contains(&b) && b != 0x22 && b != 0x5c {
            (b as char).to_string()
        } else {
            format!("\\x{:02x}", b)
        };
        assert_eq!(escape_bytes(&[b]), expected);
        let mut text = String::from("x");
        push_escaped_byte(&mut text, b);
        assert_eq!(text, format!("x{}", expected));
    }
}

#[test]
fn printable_range() {
    assert!(!is_printable_byte(0x1f));
    assert!(is_printable_byte(0x20));
    assert!(is_printable_byte(0x7e));
    assert!(!is_printable_byte(0x7f));
    assert!(!is_printable_byte(0));
    assert!(!is_printable_byte(0xff));
}
