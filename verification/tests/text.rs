use snipurl::text::{
    chars_of, concat2, concat3, contains, decimal_i64, decimal_u64, parse_u16, replace_all,
    same_text, starts_with, string_of,
};

#[test]
fn decimal_matches_display() {
    let values: Vec<i64> = vec![
        0, 1, 9, 10, 11, 99, 100, 12345, -1, -9, -10, -12345, i64::MAX, i64::MIN, 1_000_000_007,
    ];
    for v in values {
        assert_eq!(decimal_i64(v), v.to_string());
    }
    assert_eq!(decimal_u64(u64::MAX), u64::MAX.to_string());
    assert_eq!(decimal_u64(3000), "3000");
}

#[test]
fn parse_u16_matches_std() {
    let inputs = [
        "", "+", "-", "0", "00", "+0", "-0", "3000", "+3000", "65535", "65536", "065535",
        "99999999999", "12a", " 12", "12 ", "++1", "+-1", "8080",
    ];
    for s in inputs {
        assert_eq!(parse_u16(s), s.parse::<u16>().ok(), "input {:?}", s);
    }
}

#[test]
fn replace_all_matches_std() {
    let cases = [
        ("aaa", "aa", "b"),
        ("TOTAL_LINKS and TOTAL_LINKS", "TOTAL_LINKS", "42"),
        ("no match here", "xyz", "!"),
        ("", "a", "b"),
        ("abcabc", "abc", ""),
        ("ababab", "aba", "X"),
    ];
    for (s, p, r) in cases {
        assert_eq!(replace_all(s, p, r), s.replace(p, r));
    }
}

#[test]
fn contains_and_prefix() {
    assert!(contains("UNIQUE constraint failed: links.code", "UNIQUE"));
    assert!(!contains("database is locked", "UNIQUE"));
    assert!(contains("abc", ""));
    assert!(!contains("ab", "abc"));
    assert!(starts_with("https://example.com", "https://"));
    assert!(!starts_with("ftp://example.com", "http://"));
    assert!(!starts_with("http:/", "http://"));
    assert!(same_text("key", "key"));
    assert!(!same_text("key", "keys"));
}

#[test]
fn building_strings() {
    assert_eq!(concat2("ab", "cd"), "abcd");
    assert_eq!(concat3("a", "", "c"), "ac");
    let v = chars_of("héllo");
    assert_eq!(v, vec!['h', 'é', 'l', 'l', 'o']);
    assert_eq!(string_of(&v), "héllo");
}
