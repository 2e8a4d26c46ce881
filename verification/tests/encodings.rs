use teeify_enclave::encoding::decode_base64;
use teeify_enclave::text::{
    parse_number, same_ignoring_ascii_case, same_text, split_words, to_decimal, trim, trim_with_nul,
};

#[test]
fn base64_gives_back_the_bytes() {
    assert_eq!(decode_base64(""), Ok(vec![]));
    assert_eq!(decode_base64("Zg=="), Ok(b"f".to_vec()));
    assert_eq!(decode_base64("Zm8="), Ok(b"fo".to_vec()));
    assert_eq!(decode_base64("Zm9v"), Ok(b"foo".to_vec()));
    assert_eq!(decode_base64("+/+/"), Ok(vec![0xfb, 0xff, 0xbf]));
}

#[test]
fn base64_refuses_what_no_bytes_encode_to() {
    for text in ["Z", "Zg", "Zg=", "Zh==", "Zm9=", "Zm9v\n", "Zm-v", " Zm9v", "===="] {
        let refused = decode_base64(text);
        assert!(refused.is_err(), "{text:?}");
        assert!(!refused.unwrap_err().is_empty());
    }
}

#[test]
fn trimming_takes_white_space_off_both_ends() {
    assert_eq!(trim("  a b\t\n"), "a b");
    assert_eq!(trim("\u{a0}\u{2003}x\u{3000}"), "x");
    assert_eq!(trim("\u{200b}x"), "\u{200b}x");
    assert_eq!(trim(" \r\n "), "");
    assert_eq!(trim("\0x"), "\0x");
    assert_eq!(trim_with_nul("\0 \0x\0 y \0\n"), "x\0 y");
}

#[test]
fn words_are_runs_without_white_space() {
    assert_eq!(split_words("  CONNECT a:1\tHTTP/1.1\r\n"), ["CONNECT", "a:1", "HTTP/1.1"]);
    assert!(split_words(" \t ").is_empty());
}

#[test]
fn texts_compare_with_and_without_case() {
    assert!(same_text("Key", "Key"));
    assert!(!same_text("Key", "key"));
    assert!(same_ignoring_ascii_case("Content-LENGTH", "content-length"));
    assert!(!same_ignoring_ascii_case("\u{c4}", "\u{e4}"));
    assert!(!same_ignoring_ascii_case("host", "hosts"));
}

#[test]
fn numbers_are_read_and_written() {
    assert_eq!(to_decimal(0), "0");
    assert_eq!(to_decimal(18446744073709551615), "18446744073709551615");
    assert_eq!(parse_number("+1f", 16, 255), Some(31));
    assert_eq!(parse_number("FF", 16, 255), Some(255));
    assert_eq!(parse_number("100", 16, 255), None);
    assert_eq!(parse_number("0000000000000000000000007", 10, 9), Some(7));
    assert_eq!(parse_number("", 10, 9), None);
    assert_eq!(parse_number("+", 10, 9), None);
    assert_eq!(parse_number("-0", 10, 9), None);
    assert_eq!(parse_number("1_0", 10, 99), None);
    assert_eq!(parse_number("18446744073709551616", 10, u64::MAX), None);
}
