use task_nexus::strutil::{
    contains_sub, dec_str_u64, ends_with_str, hex_0x_str_u64, hex_lower_str_u64, hex_upper_str_u64,
    lowercase, lowercase_all, parse_hex_u64, starts_with_str, str_eq, trim,
};

#[test]
fn decimal_rendering() {
    assert_eq!(dec_str_u64(0), "0");
    assert_eq!(dec_str_u64(7), "7");
    assert_eq!(dec_str_u64(12345), "12345");
    assert_eq!(dec_str_u64(u64::MAX), "18446744073709551615");
}

#[test]
fn hex_rendering() {
    assert_eq!(hex_upper_str_u64(0x88), "88");
    assert_eq!(hex_upper_str_u64(0), "0");
    assert_eq!(hex_upper_str_u64(0xDEADBEEF), "DEADBEEF");
    assert_eq!(hex_lower_str_u64(0xAB), "ab");
    assert_eq!(hex_0x_str_u64(255), "0xff");
    assert_eq!(hex_0x_str_u64(0), "0x0");
}

#[test]
fn hex_parsing_matches_from_str_radix() {
    for s in ["ff", "FF", "+ff", "0", "dead", "ffffffffffffffff", "", "g", "+", "12 3",
        "1ffffffffffffffff", "-1"]
    {
        assert_eq!(parse_hex_u64(s), u64::from_str_radix(s, 16).ok(), "case {:?}", s);
    }
    assert_eq!(parse_hex_u64("ff"), Some(255));
    assert_eq!(parse_hex_u64("ffffffffffffffff"), Some(u64::MAX));
    assert_eq!(parse_hex_u64("10000000000000000"), None);
}

#[test]
fn case_folding() {
    assert_eq!(lowercase("MyGame.EXE"), "mygame.exe");
    assert_eq!(lowercase(""), "");
    let lowered = lowercase_all(&vec!["Steam".to_string(), "CS2".to_string()]);
    assert_eq!(lowered, vec!["steam".to_string(), "cs2".to_string()]);
}

#[test]
fn substring_search() {
    assert!(contains_sub("hello world", "o w"));
    assert!(contains_sub("hello", ""));
    assert!(!contains_sub("hello", "world"));
    assert!(!contains_sub("ab", "abc"));
    assert!(contains_sub("aaab", "aab"));
}

#[test]
fn prefix_suffix_and_equality() {
    assert!(starts_with_str("Sets: 1,2", "Sets"));
    assert!(!starts_with_str("0xff", "Sets"));
    assert!(ends_with_str("app.exe", ".exe"));
    assert!(!ends_with_str("app.dll", ".exe"));
    assert!(str_eq("abc", "abc"));
    assert!(!str_eq("abc", "abd"));
}

#[test]
fn trimming() {
    assert_eq!(trim("  hello  "), "hello");
    assert_eq!(trim("\t\r\n x \u{3000}"), "x");
    assert_eq!(trim(""), "");
    assert_eq!(trim("   "), "");
    assert_eq!(trim("no-trim"), "no-trim");
}
