use git_objects::decimal::push_decimal;
use git_objects::hex::{hex_codes, hex_encode};
use git_objects::scan::find_byte;
use git_objects::text::{ascii_string, decode_text, same_text};

#[test]
fn hex_encode_pads_each_byte_to_two_digits() {
    assert_eq!(hex_encode(&[0x00, 0x0a, 0xff, 0x10]), "000aff10");
}

#[test]
fn hex_encode_of_nothing_is_empty() {
    assert_eq!(hex_encode(&[]), "");
}

#[test]
fn hex_encode_is_lowercase_and_in_byte_order() {
    assert_eq!(hex_encode(&[0xab, 0xcd, 0xef, 0x01, 0x23]), "abcdef0123");
    assert_eq!(hex_encode(&[0x01, 0x10]), "0110");
}

#[test]
fn hex_encode_covers_every_byte_value() {
    let all: Vec<u8> = (0..=255u8).collect();
    let text = hex_encode(&all);
    assert_eq!(text.len(), 512);
    for (i, b) in all.iter().enumerate() {
        assert_eq!(&text[2 * i..2 * i + 2], format!("{:02x}", b));
    }
}

#[test]
fn hex_codes_are_the_ascii_codes_of_the_digits() {
    assert_eq!(hex_codes(&[0x9a, 0x0f]), vec![b'9', b'a', b'0', b'f']);
    assert_eq!(hex_codes(&[]), Vec::<u8>::new());
}

#[test]
fn push_decimal_renders_zero_as_one_digit() {
    let mut out = Vec::new();
    push_decimal(&mut out, 0);
    assert_eq!(out, b"0".to_vec());
}

#[test]
fn push_decimal_appends_after_what_is_there() {
    let mut out = b"blob ".to_vec();
    push_decimal(&mut out, 6);
    assert_eq!(out, b"blob 6".to_vec());
    push_decimal(&mut out, 1024);
    assert_eq!(out, b"blob 61024".to_vec());
}

#[test]
fn push_decimal_renders_powers_of_ten_and_their_neighbours() {
    for n in [9usize, 10, 11, 99, 100, 101, 999, 1000, 1234567890] {
        let mut out = Vec::new();
        push_decimal(&mut out, n);
        assert_eq!(out, n.to_string().into_bytes());
    }
}

#[test]
fn push_decimal_renders_the_largest_length() {
    let mut out = Vec::new();
    push_decimal(&mut out, usize::MAX);
    assert_eq!(out, usize::MAX.to_string().into_bytes());
}

#[test]
fn find_byte_gives_the_first_of_several() {
    assert_eq!(find_byte(b"a b c", 0, b' '), Some(1));
    assert_eq!(find_byte(b"a b c", 1, b' '), Some(1));
    assert_eq!(find_byte(b"a b c", 2, b' '), Some(3));
}

#[test]
fn find_byte_finds_nothing_where_the_byte_is_absent() {
    assert_eq!(find_byte(b"abc", 0, 0), None);
    assert_eq!(find_byte(b"a b", 2, b' '), None);
    assert_eq!(find_byte(b"", 0, 0), None);
    assert_eq!(find_byte(b"abc", 3, b'c'), None);
}

#[test]
fn decode_text_accepts_utf8() {
    assert_eq!(decode_text(b"file.txt"), Some("file.txt".to_string()));
    assert_eq!(decode_text("h\u{e9}llo \u{4e16}\u{754c}".as_bytes()), Some("h\u{e9}llo \u{4e16}\u{754c}".to_string()));
    assert_eq!(decode_text(b""), Some(String::new()));
}

#[test]
fn decode_text_rejects_what_is_not_utf8() {
    assert_eq!(decode_text(&[0xff]), None);
    assert_eq!(decode_text(&[b'a', 0xc3]), None);
    assert_eq!(decode_text(&[0xed, 0xa0, 0x80]), None);
    assert_eq!(decode_text(&[0xc0, 0xaf]), None);
}

#[test]
fn ascii_string_spells_its_codes() {
    assert_eq!(ascii_string(b"0123abcdef"), "0123abcdef");
    assert_eq!(ascii_string(&[0x00, 0x7f]), "\u{0}\u{7f}");
    assert_eq!(ascii_string(b""), "");
}

#[test]
fn same_text_compares_whole_strings() {
    assert!(same_text("40000", "40000"));
    assert!(same_text("", ""));
    assert!(!same_text("40000", "040000"));
    assert!(!same_text("40000", "40001"));
    assert!(!same_text("100644", "100645"));
    assert!(!same_text("abc", "ab"));
    assert!(same_text("h\u{e9}", "h\u{e9}"));
    assert!(!same_text("h\u{e9}", "h\u{e8}"));
}
