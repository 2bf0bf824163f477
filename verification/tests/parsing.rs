use guessing_game::parse::parse_guess;

#[test]
fn parses_plain_number() {
    assert_eq!(parse_guess("42"), Some(42));
    assert_eq!(parse_guess("7"), Some(7));
}

#[test]
fn parses_surrounded_by_whitespace() {
    assert_eq!(parse_guess("  5  \n"), Some(5));
    assert_eq!(parse_guess("\t9\r\n"), Some(9));
}

#[test]
fn parses_unicode_whitespace() {
    assert_eq!(parse_guess("\u{a0}7\u{2003}"), Some(7));
}

#[test]
fn parses_signs() {
    assert_eq!(parse_guess("+7"), Some(7));
    assert_eq!(parse_guess("-3"), Some(-3));
}

#[test]
fn parses_leading_zeros() {
    assert_eq!(parse_guess("0042"), Some(42));
    assert_eq!(parse_guess("0"), Some(0));
    assert_eq!(parse_guess("000"), Some(0));
    assert_eq!(parse_guess("-0"), Some(0));
    assert_eq!(parse_guess("00000000000000000042"), Some(42));
}

#[test]
fn parses_extreme_values() {
    assert_eq!(parse_guess("2147483647"), Some(i32::MAX));
    assert_eq!(parse_guess("-2147483648"), Some(i32::MIN));
}

#[test]
fn rejects_malformed_lines() {
    assert_eq!(parse_guess("abc"), None);
    assert_eq!(parse_guess(""), None);
    assert_eq!(parse_guess("   "), None);
    assert_eq!(parse_guess("+"), None);
    assert_eq!(parse_guess("-"), None);
    assert_eq!(parse_guess("1 2"), None);
    assert_eq!(parse_guess("4x"), None);
    assert_eq!(parse_guess("x4"), None);
    assert_eq!(parse_guess("4.2"), None);
}

#[test]
fn rejects_out_of_range_values() {
    assert_eq!(parse_guess("2147483648"), None);
    assert_eq!(parse_guess("-2147483649"), None);
    assert_eq!(parse_guess("99999999999999999999"), None);
    assert_eq!(parse_guess("-99999999999999999999"), None);
}
