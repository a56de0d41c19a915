use summoner_tracker::text::{
    ascii_lower, contains_substring, i64_to_string, is_demotion_game, mode_is_ranked, parse_i64,
    role_is_unknown, str_eq,
};

#[test]
fn string_equality_by_characters() {
    assert!(str_eq("", ""));
    assert!(str_eq("abc", "abc"));
    assert!(!str_eq("abc", "abd"));
    assert!(!str_eq("abc", "ab"));
    assert!(!str_eq("ab", "abc"));
}

#[test]
fn substring_search() {
    assert!(contains_substring("Victory or Defeat", "Victory"));
    assert!(contains_substring("Victory", "Victory"));
    assert!(contains_substring("anything", ""));
    assert!(!contains_substring("Defeat", "Victory"));
    assert!(!contains_substring("Vic", "Victory"));
    assert!(contains_substring("aaab", "aab"));
}

#[test]
fn ascii_case_folding() {
    assert_eq!(ascii_lower("Ranked Solo/Duo"), "ranked solo/duo");
    assert_eq!(ascii_lower("ARAM"), "aram");
    assert_eq!(ascii_lower("already lower 123"), "already lower 123");
}

#[test]
fn ranked_mode_detection() {
    assert!(mode_is_ranked("Ranked Solo/Duo"));
    assert!(mode_is_ranked("RANKED FLEX"));
    assert!(!mode_is_ranked("ARAM"));
    assert!(!mode_is_ranked("Normal Draft"));
}

#[test]
fn unknown_role_detection() {
    assert!(role_is_unknown("Unknown"));
    assert!(role_is_unknown("role unknown"));
    assert!(!role_is_unknown("Mid"));
}

#[test]
fn demotion_heuristic() {
    assert!(is_demotion_game(Some(0), &Some("II".to_string())));
    assert!(is_demotion_game(Some(0), &Some("I".to_string())));
    assert!(is_demotion_game(Some(0), &Some("III".to_string())));
    assert!(!is_demotion_game(Some(12), &Some("II".to_string())));
    assert!(!is_demotion_game(None, &Some("II".to_string())));
    assert!(!is_demotion_game(Some(0), &None));
}

#[test]
fn parse_signed_decimal() {
    assert_eq!(parse_i64("0"), Some(0));
    assert_eq!(parse_i64("15"), Some(15));
    assert_eq!(parse_i64("+15"), Some(15));
    assert_eq!(parse_i64("-3"), Some(-3));
    assert_eq!(parse_i64("9223372036854775807"), Some(i64::MAX));
    assert_eq!(parse_i64("-9223372036854775808"), Some(i64::MIN));
    assert_eq!(parse_i64("9223372036854775808"), None);
    assert_eq!(parse_i64("-9223372036854775809"), None);
    assert_eq!(parse_i64(""), None);
    assert_eq!(parse_i64("+"), None);
    assert_eq!(parse_i64("-"), None);
    assert_eq!(parse_i64("12x"), None);
    assert_eq!(parse_i64("x12"), None);
    assert_eq!(parse_i64("1 2"), None);
    assert_eq!(parse_i64("00042"), Some(42));
}

#[test]
fn write_decimal() {
    assert_eq!(i64_to_string(0), "0");
    assert_eq!(i64_to_string(7), "7");
    assert_eq!(i64_to_string(42), "42");
    assert_eq!(i64_to_string(-42), "-42");
    assert_eq!(i64_to_string(i64::MAX), "9223372036854775807");
    assert_eq!(i64_to_string(i64::MIN), "-9223372036854775808");
}
