use meshguard::addr::Ipv4Addr;
use meshguard::text::{
    decimal_string, list_of, parse_u16, same_text, split_str, trim_str, words_of, Sep,
};

#[test]
fn trim_removes_unicode_whitespace() {
    assert_eq!(trim_str("  a b \t\n"), "a b");
    assert_eq!(trim_str("\u{3000}x\u{a0}"), "x");
    assert_eq!(trim_str(" \t "), "");
    assert_eq!(trim_str(""), "");
}

#[test]
fn split_keeps_empty_pieces() {
    assert_eq!(split_str("a,,b,", Sep::Char(',')), vec!["a", "", "b", ""]);
    assert_eq!(split_str("", Sep::Char(',')), vec![""]);
    assert_eq!(split_str("a b", Sep::Whitespace), vec!["a", "b"]);
}

#[test]
fn lists_and_words_drop_empty_items() {
    assert_eq!(list_of(" x ;; y", ';'), vec!["x", "y"]);
    assert_eq!(words_of("  a \t b  "), vec!["a", "b"]);
    assert!(words_of("   ").is_empty());
}

#[test]
fn parse_u16_matches_std() {
    for s in ["0", "65535", "65536", "+7", "++7", "-0", "", "+", "007", " 1", "1 ", "99999999999"] {
        assert_eq!(parse_u16(s), s.parse::<u16>().ok(), "input {s:?}");
    }
}

#[test]
fn decimal_string_matches_std() {
    for n in [0u32, 7, 10, 99, 100, 65535, 4294967295] {
        assert_eq!(decimal_string(n), n.to_string());
    }
}

#[test]
fn same_text_compares_exactly() {
    assert!(same_text("abc", "abc"));
    assert!(!same_text("abc", "abd"));
    assert!(!same_text("abc", "ab"));
}

#[test]
fn ipv4_text_is_dotted_decimal() {
    assert_eq!(Ipv4Addr::new(192, 168, 0, 255).to_text(), "192.168.0.255");
}

#[test]
fn trimming_twice_is_trimming_once() {
    for s in ["  a  ", "\u{2003}b c\u{2028}", "", "   ", "x"] {
        let once = trim_str(s);
        assert_eq!(trim_str(&once), once);
    }
}

#[test]
fn ports_written_in_decimal_parse_back() {
    for n in [0u16, 1, 9, 10, 80, 443, 8080, 65535] {
        assert_eq!(parse_u16(&decimal_string(n as u32)), Some(n));
    }
}
