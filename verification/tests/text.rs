use vpngate_link::text::{
    ascii_lowercase, decimal_string, parse_u64, str_eq_ignore_case, str_starts_with, trim_str,
};

#[test]
fn trims_unicode_whitespace() {
    assert_eq!(trim_str("  a b \t\r\n"), "a b");
    assert_eq!(trim_str("\u{3000}x\u{a0}"), "x");
    assert_eq!(trim_str(" \n "), "");
    assert_eq!(trim_str("x"), "x");
}

#[test]
fn decimal_text_round_trips() {
    for n in [0u64, 7, 10, 443, 65535, 1260, u64::MAX] {
        let s = decimal_string(n);
        assert_eq!(s, n.to_string());
        assert_eq!(parse_u64(&s), Some(n));
    }
}

#[test]
fn parses_unsigned_like_std() {
    assert_eq!(parse_u64("+5"), Some(5));
    assert_eq!(parse_u64("007"), Some(7));
    assert_eq!(parse_u64(""), None);
    assert_eq!(parse_u64("+"), None);
    assert_eq!(parse_u64("-1"), None);
    assert_eq!(parse_u64("18446744073709551616"), None);
    assert_eq!(parse_u64("1 "), None);
}

#[test]
fn ascii_case_handling() {
    assert_eq!(ascii_lowercase("CONNECT Ünïcode"), "connect Ünïcode");
    assert!(str_eq_ignore_case("Host", "hOST"));
    assert!(!str_eq_ignore_case("Host", "Hosts"));
    assert!(str_starts_with("https://x", "https://"));
    assert!(!str_starts_with("http", "https"));
}
