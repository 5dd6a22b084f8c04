use resource_chart::text::{
    round_fraction, char_is_digit, decimal_string, digits_only, find_char, parse_days, parse_decimal,
    parse_unsigned, same_text, split_list, NumberError,
};

#[test]
fn text_digits() {
    assert!(char_is_digit('0') && char_is_digit('9'));
    assert!(!char_is_digit('a') && !char_is_digit('/') && !char_is_digit(':') && !char_is_digit('\u{662}'));
    assert!(digits_only("a12b", 1, 3));
    assert!(digits_only("a12b", 2, 2));
    assert!(!digits_only("a12b", 0, 3));
}

#[test]
fn text_parse_decimal_reads_a_range() {
    assert_eq!(parse_decimal("x120y", 1, 4), Some(120));
    assert_eq!(parse_decimal("x120y", 1, 5), None);
    assert_eq!(parse_decimal("x120y", 1, 1), None);
    assert_eq!(parse_decimal("0004294967295", 0, 13), Some(u32::MAX));
    assert_eq!(parse_decimal("4294967296", 0, 10), None);
    assert_eq!(parse_decimal("4294967300", 0, 10), None);
    assert_eq!(parse_decimal("42949672950", 0, 11), None);
    assert_eq!(parse_decimal("é7", 1, 2), Some(7));
}

#[test]
fn text_parse_unsigned_takes_a_plus() {
    assert_eq!(parse_unsigned("17"), Some(17));
    assert_eq!(parse_unsigned("+17"), Some(17));
    assert_eq!(parse_unsigned("+"), None);
    assert_eq!(parse_unsigned("++1"), None);
    assert_eq!(parse_unsigned("-1"), None);
    assert_eq!(parse_unsigned(""), None);
    assert_eq!(parse_unsigned("1 "), None);
}

#[test]
fn text_decimal_string_writes_digits() {
    assert_eq!(decimal_string(0), "0");
    assert_eq!(decimal_string(7), "7");
    assert_eq!(decimal_string(10), "10");
    assert_eq!(decimal_string(1203), "1203");
    assert_eq!(decimal_string(u32::MAX), "4294967295");
}

#[test]
fn text_find_char_finds_the_first() {
    assert_eq!(find_char("a.b.c", '.'), 1);
    assert_eq!(find_char("abc", '.'), 3);
    assert_eq!(find_char("", '.'), 0);
    assert_eq!(find_char("é.", '.'), 1);
}

#[test]
fn text_same_text_compares() {
    assert!(same_text("", ""));
    assert!(same_text("abc", "abc"));
    assert!(!same_text("abc", "abd"));
    assert!(!same_text("abc", "ab"));
    assert!(!same_text("é", "e"));
}

#[test]
fn text_days_round_to_quarters() {
    assert_eq!(parse_days("0"), Ok(0));
    assert_eq!(parse_days("1"), Ok(4));
    assert_eq!(parse_days("1.0"), Ok(4));
    assert_eq!(parse_days("1.1"), Ok(4));
    assert_eq!(parse_days("1.2"), Ok(5));
    assert_eq!(parse_days("1.12"), Ok(4));
    assert_eq!(parse_days("1.13"), Ok(5));
    assert_eq!(parse_days("1.87"), Ok(7));
    assert_eq!(parse_days("1.88"), Ok(8));
    assert_eq!(parse_days("1.99"), Ok(8));
    assert_eq!(parse_days("1073741823.87"), Ok(u32::MAX));
    assert_eq!(parse_days("1073741823.88"), Err(NumberError::TooLarge));
    assert_eq!(parse_days("1."), Err(NumberError::Syntax));
    assert_eq!(parse_days(".1"), Err(NumberError::Syntax));
    assert_eq!(parse_days("1.1.1"), Err(NumberError::Syntax));
    assert_eq!(parse_days("1.123"), Err(NumberError::Syntax));
    assert_eq!(parse_days("１"), Err(NumberError::Syntax));
}

#[test]
fn text_split_list_splits_at_comma_space() {
    assert_eq!(split_list("a, b, c"), vec!["a", "b", "c"]);
    assert_eq!(split_list("a,b"), vec!["a,b"]);
    assert_eq!(split_list(""), vec![""]);
    assert_eq!(split_list(", "), vec!["", ""]);
    assert_eq!(split_list("a, "), vec!["a", ""]);
    assert_eq!(split_list("a,  b"), vec!["a", " b"]);
    assert_eq!(split_list("a, , b,"), vec!["a", "", "b,"]);
    assert_eq!(split_list(",, "), vec![",", ""]);
}

#[test]
fn text_fractions_round_at_the_eighths() {
    for (digits, quarters) in [("", 0), ("0", 0), ("1", 0), ("12", 0), ("124", 0), ("1249", 0),
        ("125", 1), ("13", 1), ("2", 1), ("374999", 1), ("375", 2), ("5", 2), ("62", 2),
        ("625", 3), ("7", 3), ("87499", 3), ("875", 4), ("9", 4), ("99", 4)]
    {
        assert_eq!(round_fraction(digits, 0, digits.len()), quarters, "{}", digits);
    }
    assert_eq!(round_fraction("x875y", 1, 4), 4);
    assert_eq!(round_fraction("x875y", 1, 1), 0);
}
