use slide_puzzle::text::{numeric_chars, read_decimal};

fn chars(s: &str) -> Vec<char> {
    s.chars().collect()
}

#[test]
fn read_decimal_reads_digits() {
    assert_eq!(read_decimal(&chars("0")), Some(0));
    assert_eq!(read_decimal(&chars("12")), Some(12));
    assert_eq!(read_decimal(&chars("0012")), Some(12));
    assert_eq!(read_decimal(&chars("4294967295")), Some(4294967295));
    assert_eq!(read_decimal(&chars("0000000000004294967295")), Some(4294967295));
}

#[test]
fn read_decimal_rejects_the_empty_string() {
    assert_eq!(read_decimal(&chars("")), None);
}

#[test]
fn read_decimal_rejects_what_is_no_digit() {
    assert_eq!(read_decimal(&chars("+1")), None);
    assert_eq!(read_decimal(&chars("-1")), None);
    assert_eq!(read_decimal(&chars("1 ")), None);
    assert_eq!(read_decimal(&chars("1a")), None);
    assert_eq!(read_decimal(&chars("/")), None);
    assert_eq!(read_decimal(&chars(":")), None);
    assert_eq!(read_decimal(&chars("\u{0661}")), None);
    assert_eq!(read_decimal(&chars("99999999999x")), None);
}

#[test]
fn read_decimal_rejects_what_does_not_fit() {
    assert_eq!(read_decimal(&chars("4294967296")), None);
    assert_eq!(read_decimal(&chars("4294967300")), None);
    assert_eq!(read_decimal(&chars("10000000000")), None);
    assert_eq!(read_decimal(&chars("42949672950")), None);
    assert_eq!(read_decimal(&chars("99999999999999999999999999")), None);
}

#[test]
fn numeric_chars_keeps_numbers_in_order() {
    assert_eq!(numeric_chars("a1b22c"), chars("122"));
    assert_eq!(numeric_chars(""), chars(""));
    assert_eq!(numeric_chars("width"), chars(""));
    assert_eq!(numeric_chars("+5 - 3"), chars("53"));
    assert_eq!(numeric_chars("9876543210"), chars("9876543210"));
}

#[test]
fn numeric_chars_keeps_numbers_that_are_no_digits() {
    assert_eq!(numeric_chars("x\u{00bd}y\u{0663}z\u{2167}"), chars("\u{00bd}\u{0663}\u{2167}"));
    assert_eq!(numeric_chars("\u{ff11}a"), chars("\u{ff11}"));
    assert_eq!(numeric_chars("é∞π"), chars(""));
}
