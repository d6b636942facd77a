use krds::text::{cat, chars_of, dec_string, find_in, is_whitespace, join_strings, parse_u64_in, trimmed};

#[test]
fn decimal_text() {
    assert_eq!(dec_string(0), "0");
    assert_eq!(dec_string(42), "42");
    assert_eq!(dec_string(u64::MAX), "18446744073709551615");
}

#[test]
fn trimming_unicode_whitespace() {
    assert_eq!(trimmed("  a b \t\n"), "a b");
    assert_eq!(trimmed("\u{a0}x\u{3000}"), "x");
    assert_eq!(trimmed("   "), "");
    assert!(is_whitespace('\u{85}'));
    assert!(!is_whitespace('x'));
}

#[test]
fn joining_and_concatenation() {
    let parts = vec!["a".to_string(), "b".to_string(), "c".to_string()];
    assert_eq!(join_strings(&parts, 3, ", "), "a, b, c");
    assert_eq!(join_strings(&parts, 2, "-"), "a-b");
    assert_eq!(join_strings(&parts, 0, "-"), "");
    assert_eq!(cat("ab", "cd"), "abcd");
}

#[test]
fn substring_search() {
    let v = chars_of("hello world");
    assert_eq!(find_in(&v, 0, v.len(), &chars_of("o")), Some(4));
    assert_eq!(find_in(&v, 5, v.len(), &chars_of("o")), Some(2));
    assert_eq!(find_in(&v, 0, v.len(), &chars_of("xyz")), None);
}

#[test]
fn decimal_text_reads_back() {
    for n in [0u64, 7, 10, 4444, 31337, u64::MAX] {
        let v = chars_of(&dec_string(n));
        assert_eq!(parse_u64_in(&v, 0, v.len()), Some(n));
    }
}
