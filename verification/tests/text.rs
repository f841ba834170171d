use callout::text::{
    contains_str, jaro_winkler_score, join_strings, replace_str, split_char, split_whitespace,
    str_lt, to_lowercase, to_uppercase, trim_start_seps, trim_str, u64_to_decimal,
};

#[test]
fn trimming_and_splitting() {
    assert_eq!(trim_str("  \t hi there \n"), "hi there");
    assert_eq!(split_whitespace("  a  b\tc "), vec!["a", "b", "c"]);
    assert_eq!(split_char("a+b++c", '+'), vec!["a", "b", "", "c"]);
    assert_eq!(split_char("", '+'), vec![""]);
    assert_eq!(trim_start_seps(":, yes", true), "yes");
    assert_eq!(trim_start_seps(":, yes", false), " yes");
}

#[test]
fn replace_matches_std() {
    for (s, f, t) in [("aaa", "aa", "b"), ("hello", "", "-"), ("abc", "x", "y"), ("cloud cloud", "cloud", "Assistant")] {
        assert_eq!(replace_str(s, f, t), s.replace(f, t));
    }
}

#[test]
fn case_mapping_wrappers() {
    assert_eq!(to_lowercase("DENY It"), "deny it");
    assert_eq!(to_uppercase("alt"), "ALT");
    assert_eq!(to_lowercase("Ä"), "ä");
}

#[test]
fn jaro_winkler_bits_order_like_scores() {
    let close = f64::from_bits(jaro_winkler_score("frontand", "frontend"));
    let far = f64::from_bits(jaro_winkler_score("what", "frontend"));
    assert!(close > 0.85);
    assert!(far < 0.85);
    assert!(jaro_winkler_score("frontand", "frontend") > jaro_winkler_score("what", "frontend"));
    assert_eq!(f64::from_bits(jaro_winkler_score("same", "same")), 1.0);
}

#[test]
fn misc_text() {
    assert!(contains_str("rm -rf dist", "-rf"));
    assert!(contains_str("abc", ""));
    assert!(!contains_str("abc", "abcd"));
    assert!(str_lt("callout.log.2026-06-30", "callout.log.2026-07-01"));
    assert!(!str_lt("b", "a"));
    assert_eq!(join_strings(&vec!["a".to_string(), "b".to_string()], ", "), "a, b");
    assert_eq!(u64_to_decimal(0), "0");
    assert_eq!(u64_to_decimal(u64::MAX), u64::MAX.to_string());
}
