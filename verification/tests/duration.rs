use countdown::cli::args::Args;
use countdown::counter::Counter;
use countdown::error::ParseError;

#[test]
fn hours_and_minutes_with_suffixes() {
    assert_eq!(Args::parse_time("1h30m"), Ok(5400));
}

#[test]
fn minutes_alone_may_exceed_an_hour() {
    assert_eq!(Args::parse_time("90m"), Ok(5400));
}

#[test]
fn three_colon_fields_are_hours_minutes_seconds() {
    assert_eq!(Args::parse_time("1:30:00"), Ok(5400));
}

#[test]
fn leading_zero_fields_read_as_numbers() {
    assert_eq!(Args::parse_time("0:00:01"), Ok(1));
}

#[test]
fn default_duration_is_fifteen_minutes() {
    assert_eq!(Args::parse_time("15m00s"), Ok(900));
}

#[test]
fn suffixes_come_in_any_order() {
    assert_eq!(Args::parse_time("30m1h"), Ok(5400));
    assert_eq!(Args::parse_time("5s2m1h"), Ok(3725));
    assert_eq!(Args::parse_time("1h2m5s"), Ok(3725));
    assert_eq!(Args::parse_time("2m5s1h"), Ok(3725));
}

#[test]
fn single_suffix_of_each_unit() {
    assert_eq!(Args::parse_time("45s"), Ok(45));
    assert_eq!(Args::parse_time("7m"), Ok(420));
    assert_eq!(Args::parse_time("2h"), Ok(7200));
}

#[test]
fn empty_string_is_zero_seconds() {
    assert_eq!(Args::parse_time(""), Ok(0));
}

#[test]
fn plain_number_is_seconds() {
    assert_eq!(Args::parse_time("90"), Ok(90));
    assert_eq!(Args::parse_time("0"), Ok(0));
    assert_eq!(Args::parse_time("-7"), Ok(-7));
}

#[test]
fn two_colon_fields_are_minutes_and_seconds() {
    assert_eq!(Args::parse_time("1:30"), Ok(90));
    assert_eq!(Args::parse_time("10:05"), Ok(605));
}

#[test]
fn colon_fields_are_not_limited_to_sixty() {
    assert_eq!(Args::parse_time("0:90:90"), Ok(5490));
}

#[test]
fn signed_fields_give_negative_durations() {
    assert_eq!(Args::parse_time("-1:00"), Ok(-60));
    assert_eq!(Args::parse_time("-5s"), Ok(-5));
    assert_eq!(Args::parse_time("+5s"), Ok(5));
    assert_eq!(Args::parse_time("1h-30m"), Ok(1800));
    assert_eq!(Args::parse_time("0:-5"), Ok(-5));
}

#[test]
fn repeated_suffix_is_refused() {
    assert_eq!(Args::parse_time("1h1h"), Err(ParseError::FormatNotRecognized));
    assert_eq!(Args::parse_time("1h2hm"), Err(ParseError::InvalidNumber));
    assert_eq!(Args::parse_time("1s2s3s"), Err(ParseError::FormatNotRecognized));
}

#[test]
fn characters_behind_the_last_suffix_are_refused() {
    assert_eq!(Args::parse_time("1h30"), Err(ParseError::FormatNotRecognized));
    assert_eq!(Args::parse_time("5sx"), Err(ParseError::FormatNotRecognized));
}

#[test]
fn text_without_unit_or_number_is_refused() {
    assert_eq!(Args::parse_time("abc"), Err(ParseError::FormatNotRecognized));
    assert_eq!(Args::parse_time("5x"), Err(ParseError::FormatNotRecognized));
    assert_eq!(Args::parse_time("1H"), Err(ParseError::FormatNotRecognized));
    assert_eq!(Args::parse_time(" "), Err(ParseError::FormatNotRecognized));
}

#[test]
fn suffix_without_number_is_refused() {
    assert_eq!(Args::parse_time("h"), Err(ParseError::InvalidNumber));
    assert_eq!(Args::parse_time("1hm"), Err(ParseError::InvalidNumber));
    assert_eq!(Args::parse_time("xs"), Err(ParseError::InvalidNumber));
    assert_eq!(Args::parse_time("1 h"), Err(ParseError::InvalidNumber));
}

#[test]
fn more_than_three_colon_fields_are_refused() {
    assert_eq!(Args::parse_time("1:2:3:4"), Err(ParseError::FormatNotRecognized));
    assert_eq!(Args::parse_time("0:0:0:0:0"), Err(ParseError::FormatNotRecognized));
    assert_eq!(Args::parse_time(":::"), Err(ParseError::FormatNotRecognized));
}

#[test]
fn empty_colon_field_is_refused() {
    assert_eq!(Args::parse_time("1::3"), Err(ParseError::InvalidNumber));
    assert_eq!(Args::parse_time("1:"), Err(ParseError::InvalidNumber));
    assert_eq!(Args::parse_time(":1"), Err(ParseError::InvalidNumber));
    assert_eq!(Args::parse_time(":"), Err(ParseError::InvalidNumber));
}

#[test]
fn colon_field_that_is_no_number_is_refused() {
    assert_eq!(Args::parse_time("1:x"), Err(ParseError::InvalidNumber));
    assert_eq!(Args::parse_time("1h:30"), Err(ParseError::InvalidNumber));
    assert_eq!(Args::parse_time("1:30s"), Err(ParseError::InvalidNumber));
}

#[test]
fn rightmost_faulty_colon_field_decides_the_error() {
    assert_eq!(Args::parse_time("x:99999999999"), Err(ParseError::OutOfRange));
    assert_eq!(Args::parse_time("99999999999:x"), Err(ParseError::InvalidNumber));
}

#[test]
fn leftmost_faulty_suffixed_field_decides_the_error() {
    assert_eq!(Args::parse_time("xh99999999999m"), Err(ParseError::InvalidNumber));
    assert_eq!(Args::parse_time("99999999999hxm"), Err(ParseError::OutOfRange));
}

#[test]
fn field_beyond_the_counter_is_out_of_range() {
    assert_eq!(Args::parse_time("99999999999s"), Err(ParseError::OutOfRange));
    assert_eq!(Args::parse_time("2147483648"), Err(ParseError::OutOfRange));
    assert_eq!(Args::parse_time("-2147483649"), Err(ParseError::OutOfRange));
}

#[test]
fn total_beyond_the_counter_is_out_of_range() {
    assert_eq!(Args::parse_time("600000h"), Err(ParseError::OutOfRange));
    assert_eq!(Args::parse_time("596523:14:08"), Err(ParseError::OutOfRange));
    assert_eq!(Args::parse_time("-600000h"), Err(ParseError::OutOfRange));
}

#[test]
fn largest_and_smallest_durations() {
    assert_eq!(Args::parse_time("2147483647"), Ok(i32::MAX));
    assert_eq!(Args::parse_time("-2147483648"), Ok(i32::MIN));
    assert_eq!(Args::parse_time("596523h14m7s"), Ok(i32::MAX));
    assert_eq!(Args::parse_time("596523:14:07"), Ok(i32::MAX));
}

#[test]
fn only_the_total_has_to_fit() {
    assert_eq!(Args::parse_time("600000h-2000000000s"), Ok(160_000_000));
}

#[test]
fn clock_text_reads_back_as_its_seconds() {
    for n in [0, 5, 59, 60, 65, 600, 3599, 3600, 3661, 5400, 36000, 86399, i32::MAX] {
        let text = Counter::new(n).display().text();
        assert_eq!(Args::parse_time(&text), Ok(n), "text {text}");
    }
}

#[test]
fn swapping_two_suffixed_numbers_keeps_the_total() {
    assert_eq!(Args::parse_time("12m34s"), Args::parse_time("34s12m"));
    assert_eq!(Args::parse_time("12m34s"), Ok(754));
}
