use lyrical::text::{is_flag_text, is_space, parse_count, same_text, strip_dashes, trim};

#[test]
fn trims_unicode_whitespace() {
    assert_eq!(trim("  a b \t\n"), "a b");
    assert_eq!(trim("\u{3000}x\u{a0}"), "x");
    assert_eq!(trim("   "), "");
    assert_eq!(trim(""), "");
    assert!(is_space('\u{2009}'));
    assert!(!is_space('x'));
}

#[test]
fn parses_counts() {
    assert_eq!(parse_count("0"), Some(0));
    assert_eq!(parse_count("30"), Some(30));
    assert_eq!(parse_count("+12"), Some(12));
    assert_eq!(parse_count(&usize::MAX.to_string()), Some(usize::MAX));
    assert_eq!(parse_count("99999999999999999999999"), None);
    assert_eq!(parse_count(""), None);
    assert_eq!(parse_count("+"), None);
    assert_eq!(parse_count("-1"), None);
    assert_eq!(parse_count("1a"), None);
    assert_eq!(parse_count(" 1"), None);
}

#[test]
fn flags_and_dashes() {
    assert!(is_flag_text("--x"));
    assert!(is_flag_text("--"));
    assert!(!is_flag_text("-x"));
    assert_eq!(strip_dashes("----list"), "list");
    assert_eq!(strip_dashes("---x"), "-x");
    assert_eq!(strip_dashes("plain"), "plain");
    assert!(same_text("abc", "abc"));
    assert!(!same_text("abc", "abd"));
    assert!(!same_text("ab", "abc"));
}
