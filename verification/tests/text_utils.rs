use cd_core::text::{is_whitespace, parse_u64};
use cd_core::text::{contains, is_blank, lines_of, norm, starts_with, trimmed};

#[test]
fn normalised_matching_text() {
    assert_eq!(norm("(Movie Edit)"), "movieedit");
    assert_eq!(norm("(movie edit.)"), "movieedit");
    assert_eq!(norm("晴天 Sunny!"), "晴天sunny");
    assert_eq!(norm("ÀB"), "àb");
}

#[test]
fn searching_text() {
    assert!(contains("hello world", "lo w"));
    assert!(contains("abc", ""));
    assert!(!contains("abc", "abcd"));
    assert!(starts_with("https://x", "http"));
    assert!(!starts_with("ht", "http"));
}

#[test]
fn trimming() {
    assert_eq!(trimmed("  a b \n"), "a b");
    assert_eq!(trimmed("\u{3000}x\u{3000}"), "x");
    assert!(is_blank(" \t\n"));
    assert!(!is_blank(" x "));
}

#[test]
fn lines_like_std() {
    for s in ["", "a", "a\n", "a\r\nb", "a\n\nb\n", "\n", "x\r", "a\r\r\n"] {
        let expected: Vec<String> = s.lines().map(String::from).collect();
        assert_eq!(lines_of(s), expected, "{s:?}");
    }
}

#[test]
fn parse_u64_agrees_with_std() {
    for s in [
        "0", "42", "+7", "007", "18446744073709551615", "18446744073709551616",
        "99999999999999999999", "", "+", "-1", " 1", "1 ", "1a", "1_000", "++1", "٣",
    ] {
        assert_eq!(parse_u64(s), s.parse::<u64>().ok(), "input {s:?}");
    }
    assert_eq!(parse_u64("+18446744073709551615"), Some(u64::MAX));
}

#[test]
fn white_space_property_is_the_listed_set() {
    let listed: Vec<u32> = (0x09..=0x0d)
        .chain([0x20, 0x85, 0xa0, 0x1680])
        .chain(0x2000..=0x200a)
        .chain([0x2028, 0x2029, 0x202f, 0x205f, 0x3000])
        .collect();
    let actual: Vec<u32> = (0u32..=0x10ffff)
        .filter_map(char::from_u32)
        .filter(|c| c.is_whitespace())
        .map(|c| c as u32)
        .collect();
    assert_eq!(actual, listed);
}

#[test]
fn is_whitespace_agrees_with_std() {
    for c in (0u32..=0x10ffff).filter_map(char::from_u32) {
        assert_eq!(is_whitespace(c), c.is_whitespace(), "char {:?}", c);
    }
}
