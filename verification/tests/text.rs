use vyom::text::{parse_u64_str, replace_str, split_by_char, split_by_str, str_eq, trim_str};

#[test]
fn u64_parsing_is_exact_and_strict() {
    assert_eq!(parse_u64_str("0"), Some(0));
    assert_eq!(parse_u64_str("00042"), Some(42));
    assert_eq!(parse_u64_str("18446744073709551615"), Some(u64::MAX));
    assert_eq!(parse_u64_str("18446744073709551616"), None);
    assert_eq!(parse_u64_str(""), None);
    assert_eq!(parse_u64_str("+1"), None);
    assert_eq!(parse_u64_str("12a"), None);
}

#[test]
fn splitting_on_a_character_keeps_empty_segments() {
    assert_eq!(split_by_char("a|b||c", '|'), vec!["a", "b", "", "c"]);
    assert_eq!(split_by_char("", '|'), vec![""]);
    assert_eq!(split_by_char("abc", '|'), vec!["abc"]);
    assert_eq!(split_by_char("x|", '|'), vec!["x", ""]);
}

#[test]
fn splitting_on_a_string_is_non_overlapping_left_to_right() {
    assert_eq!(split_by_str("a|||b|||c", "|||"), vec!["a", "b", "c"]);
    assert_eq!(split_by_str("aaaa", "aa"), vec!["", "", ""]);
    assert_eq!(split_by_str("plain", "|||"), vec!["plain"]);
}

#[test]
fn trimming_removes_surrounding_whitespace_only() {
    assert_eq!(trim_str("  a b \t\r\n"), "a b");
    assert_eq!(trim_str("\t \r"), "");
    assert_eq!(trim_str("kept"), "kept");
}

#[test]
fn replacement_rewrites_every_occurrence() {
    assert_eq!(replace_str("ababa", "aba", "x"), "xba");
    assert_eq!(replace_str("hello", "l", "LL"), "heLLLLo");
    assert_eq!(replace_str("none", "xyz", "q"), "none");
}

#[test]
fn string_equality_compares_characters() {
    assert!(str_eq("same", "same"));
    assert!(!str_eq("same", "sam"));
    assert!(!str_eq("same", "samx"));
    assert!(str_eq("", ""));
}
