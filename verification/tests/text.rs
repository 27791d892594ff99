use monkey::text::{collect_chars, decimal_text, parse_numeral, push_decimal, push_digits, same_text};

#[test]
fn decimal_text_of_integers() {
    assert_eq!(decimal_text(0), "0");
    assert_eq!(decimal_text(7), "7");
    assert_eq!(decimal_text(10), "10");
    assert_eq!(decimal_text(-1), "-1");
    assert_eq!(decimal_text(1234567890), "1234567890");
    assert_eq!(decimal_text(i64::MAX), "9223372036854775807");
    assert_eq!(decimal_text(i64::MIN), "-9223372036854775808");
}

#[test]
fn digits_are_appended_to_what_is_there() {
    let mut out = String::from("n=");
    push_digits(&mut out, 305);
    assert_eq!(out, "n=305");
    push_decimal(&mut out, -42);
    assert_eq!(out, "n=305-42");
    push_digits(&mut out, u64::MAX);
    assert_eq!(out, "n=305-4218446744073709551615");
}

#[test]
fn numerals_within_range_are_read() {
    assert_eq!(parse_numeral("0"), Some(0));
    assert_eq!(parse_numeral("5"), Some(5));
    assert_eq!(parse_numeral("007"), Some(7));
    assert_eq!(parse_numeral("9223372036854775807"), Some(i64::MAX));
}

#[test]
fn numerals_out_of_range_are_refused() {
    assert_eq!(parse_numeral("9223372036854775808"), None);
    assert_eq!(parse_numeral("99999999999999999999999"), None);
}

#[test]
fn text_that_is_no_numeral_is_refused() {
    assert_eq!(parse_numeral(""), None);
    assert_eq!(parse_numeral("-5"), None);
    assert_eq!(parse_numeral("12a"), None);
    assert_eq!(parse_numeral(" 1"), None);
}

#[test]
fn characters_are_collected_in_order() {
    assert_eq!(collect_chars("aé1"), vec!['a', 'é', '1']);
    assert_eq!(collect_chars(""), Vec::<char>::new());
}

#[test]
fn same_text_compares_whole_strings() {
    assert!(same_text(&"let".to_string(), "let"));
    assert!(!same_text(&"let".to_string(), "le"));
    assert!(!same_text(&"le".to_string(), "let"));
}
