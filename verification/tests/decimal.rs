use countdown::decimal::{parse_number, push_decimal, push_padded};
use countdown::error::ParseError;

fn read(text: &str) -> Result<i32, ParseError> {
    let chars: Vec<char> = text.chars().collect();
    parse_number(&chars, 0, chars.len())
}

#[test]
fn digits_read_as_their_value() {
    assert_eq!(read("0"), Ok(0));
    assert_eq!(read("7"), Ok(7));
    assert_eq!(read("42"), Ok(42));
    assert_eq!(read("1234567890"), Ok(1234567890));
}

#[test]
fn sign_is_optional() {
    assert_eq!(read("+5"), Ok(5));
    assert_eq!(read("-5"), Ok(-5));
    assert_eq!(read("-0"), Ok(0));
}

#[test]
fn leading_zeros_do_not_count() {
    assert_eq!(read("005"), Ok(5));
    assert_eq!(read("0000000000000000000000000012"), Ok(12));
    assert_eq!(read("-00"), Ok(0));
}

#[test]
fn limits_of_the_range() {
    assert_eq!(read("2147483647"), Ok(i32::MAX));
    assert_eq!(read("-2147483648"), Ok(i32::MIN));
    assert_eq!(read("2147483648"), Err(ParseError::OutOfRange));
    assert_eq!(read("+2147483648"), Err(ParseError::OutOfRange));
    assert_eq!(read("-2147483649"), Err(ParseError::OutOfRange));
    assert_eq!(
        read("99999999999999999999999999999999999999"),
        Err(ParseError::OutOfRange)
    );
}

#[test]
fn what_is_no_number() {
    assert_eq!(read(""), Err(ParseError::InvalidNumber));
    assert_eq!(read("+"), Err(ParseError::InvalidNumber));
    assert_eq!(read("-"), Err(ParseError::InvalidNumber));
    assert_eq!(read("+-5"), Err(ParseError::InvalidNumber));
    assert_eq!(read("5-"), Err(ParseError::InvalidNumber));
    assert_eq!(read(" 5"), Err(ParseError::InvalidNumber));
    assert_eq!(read("5 "), Err(ParseError::InvalidNumber));
    assert_eq!(read("1_000"), Err(ParseError::InvalidNumber));
    assert_eq!(read("1.5"), Err(ParseError::InvalidNumber));
    assert_eq!(read("0x10"), Err(ParseError::InvalidNumber));
    assert_eq!(read("\u{663}"), Err(ParseError::InvalidNumber));
}

#[test]
fn a_letter_behind_too_many_digits_is_still_no_number() {
    assert_eq!(read("99999999999x"), Err(ParseError::InvalidNumber));
}

#[test]
fn reads_a_part_of_the_text() {
    let chars: Vec<char> = "ab123cd".chars().collect();
    assert_eq!(parse_number(&chars, 2, 5), Ok(123));
    assert_eq!(parse_number(&chars, 2, 4), Ok(12));
    assert_eq!(parse_number(&chars, 2, 2), Err(ParseError::InvalidNumber));
    assert_eq!(parse_number(&chars, 1, 5), Err(ParseError::InvalidNumber));
}

#[test]
fn accepts_what_the_standard_parser_accepts() {
    let samples = [
        "", "0", "1", "-1", "+1", "+", "-", "--1", "++1", "12a", "a12", " 12", "12 ", "007",
        "2147483647", "2147483648", "-2147483648", "-2147483649", "4294967296", "1e3", "١٢",
        "1,000", "0000000000000", "-0000000000001", "+0", "9999999999", "१",
    ];
    for text in samples {
        let expected = text.parse::<i32>();
        let got = read(text);
        assert_eq!(got.ok(), expected.ok(), "text {text:?}");
    }
}

#[test]
fn writes_decimal_notation() {
    for (n, text) in [
        (0u64, "0"),
        (9, "9"),
        (10, "10"),
        (127, "127"),
        (12345, "12345"),
        (u64::MAX, "18446744073709551615"),
    ] {
        let mut out = String::new();
        push_decimal(&mut out, n);
        assert_eq!(out, text);
    }
}

#[test]
fn writes_behind_what_is_there() {
    let mut out = String::from("n=");
    push_decimal(&mut out, 40);
    push_padded(&mut out, 2);
    assert_eq!(out, "n=4002");
}

#[test]
fn pads_one_digit_with_a_zero() {
    for (n, text) in [(0u64, "00"), (5, "05"), (9, "09"), (10, "10"), (59, "59"), (123, "123")] {
        let mut out = String::new();
        push_padded(&mut out, n);
        assert_eq!(out, text);
    }
}

#[test]
fn reading_undoes_writing() {
    for n in [0u64, 1, 9, 10, 99, 100, 65535, 2147483647] {
        let mut out = String::new();
        push_decimal(&mut out, n);
        assert_eq!(read(&out), Ok(n as i32));
        let mut out = String::new();
        push_padded(&mut out, n);
        assert_eq!(read(&out), Ok(n as i32));
    }
}
