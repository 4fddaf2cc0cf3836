use xone_tray::text::{
    chars_of, decimal_string, parse_trimmed_u32, signed_decimal_string, trim_str,
};

#[test]
fn trims_ascii_and_unicode_whitespace() {
    assert_eq!(trim_str("  a b \n"), "a b");
    assert_eq!(trim_str("\u{3000}x\u{a0}\u{2029}"), "x");
    assert_eq!(trim_str(" \t\r\n"), "");
    assert_eq!(trim_str(""), "");
    assert_eq!(trim_str("Microsoft Xbox Controller\n"), "Microsoft Xbox Controller");
}

#[test]
fn parses_decimal_u32_like_from_str() {
    assert_eq!(parse_trimmed_u32("50\n"), Some(50));
    assert_eq!(parse_trimmed_u32("+7"), Some(7));
    assert_eq!(parse_trimmed_u32("007"), Some(7));
    assert_eq!(parse_trimmed_u32("4294967295"), Some(u32::MAX));
    assert_eq!(parse_trimmed_u32("4294967296"), None);
    assert_eq!(parse_trimmed_u32("99999999999999999999"), None);
    assert_eq!(parse_trimmed_u32("-1"), None);
    assert_eq!(parse_trimmed_u32("+"), None);
    assert_eq!(parse_trimmed_u32(""), None);
    assert_eq!(parse_trimmed_u32("1 2"), None);
    assert_eq!(parse_trimmed_u32("12a"), None);
    for s in ["0", "+15", "65536", "123456789", "x", "++1"] {
        assert_eq!(parse_trimmed_u32(s), s.parse::<u32>().ok());
    }
}

#[test]
fn formats_decimal_like_to_string() {
    assert_eq!(decimal_string(0), "0");
    assert_eq!(decimal_string(1234), "1234");
    assert_eq!(decimal_string(u32::MAX), u32::MAX.to_string());
    assert_eq!(signed_decimal_string(-1), "-1");
    assert_eq!(signed_decimal_string(15), "15");
    assert_eq!(signed_decimal_string(i32::MIN), "-2147483648");
    assert_eq!(signed_decimal_string(i32::MAX), "2147483647");
}

#[test]
fn decimal_text_parses_back() {
    for n in [0u32, 9, 10, 25, 4096, u32::MAX] {
        assert_eq!(parse_trimmed_u32(&decimal_string(n)), Some(n));
    }
}

#[test]
fn chars_of_keeps_every_char() {
    assert_eq!(chars_of("a…b"), vec!['a', '…', 'b']);
}
