use rudis::text::{matches_keyword, parse_decimal};

#[test]
fn keyword_matches_in_any_case() {
    for text in ["EX", "ex", "Ex", "eX"] {
        assert!(matches_keyword(text, "EX"));
    }
    assert!(matches_keyword("set", "SET"));
    assert!(matches_keyword("SeT", "set"));
    assert!(matches_keyword("", ""));
}

#[test]
fn keyword_does_not_match_other_text() {
    for text in ["", "E", "EXX", "PX", "XX", "E X", "EX ", " EX", "3x"] {
        assert!(!matches_keyword(text, "EX"));
    }
}

#[test]
fn keyword_folds_letters_only() {
    // '@' and '`' differ by the same bit as 'A' and 'a', and so do '[' and '{'.
    assert!(!matches_keyword("`", "@"));
    assert!(!matches_keyword("{", "["));
    assert!(matches_keyword("a-z", "A-Z"));
    assert!(!matches_keyword("a-z", "A_Z"));
}

#[test]
fn keyword_does_not_match_text_beyond_ascii() {
    // U+212A KELVIN SIGN lower-cases to 'k', U+017F LONG S upper-cases to 'S'.
    assert!(!matches_keyword("\u{212a}", "K"));
    assert!(!matches_keyword("\u{17f}et", "SET"));
    assert!(!matches_keyword("\u{e9}x", "EX"));
    assert!(!matches_keyword("e\u{301}", "EX"));
}

#[test]
fn decimal_reads_digits() {
    assert_eq!(parse_decimal("0"), Some(0));
    assert_eq!(parse_decimal("5"), Some(5));
    assert_eq!(parse_decimal("5000"), Some(5000));
    assert_eq!(parse_decimal("0000"), Some(0));
    assert_eq!(parse_decimal("0123456789"), Some(123_456_789));
}

#[test]
fn decimal_reaches_the_largest_value() {
    assert_eq!(parse_decimal("18446744073709551615"), Some(u64::MAX));
    assert_eq!(parse_decimal("00018446744073709551615"), Some(u64::MAX));
    assert_eq!(parse_decimal("18446744073709551614"), Some(u64::MAX - 1));
}

#[test]
fn decimal_refuses_what_does_not_fit() {
    assert_eq!(parse_decimal("18446744073709551616"), None);
    assert_eq!(parse_decimal("18446744073709551620"), None);
    assert_eq!(parse_decimal("184467440737095516150"), None);
    assert_eq!(parse_decimal("100000000000000000000"), None);
}

#[test]
fn decimal_refuses_what_is_not_digits() {
    for text in ["", " ", "-5", "+5", "5 ", " 5", "5_000", "5e3", "0x5", "five", "/", ":", "\u{665}", "5\u{e9}"] {
        assert_eq!(parse_decimal(text), None);
    }
}
