use countdown::counter::{Counter, DisplayClock};

#[test]
fn fields_of_ninety_minutes() {
    let counter = Counter::new(5400);
    assert_eq!(counter.hours(), 1);
    assert_eq!(counter.minutes(), 30);
    assert_eq!(counter.seconds(), 0);
}

#[test]
fn fields_round_trip_for_positive_totals() {
    for h in [0, 1, 2, 23, 100, 596522] {
        for m in [0, 1, 30, 59] {
            for s in [0, 1, 30, 59] {
                let counter = Counter::new(3600 * h + 60 * m + s);
                assert_eq!((counter.hours(), counter.minutes(), counter.seconds()), (h, m, s));
            }
        }
    }
}

#[test]
fn fields_round_trip_for_negative_totals() {
    for h in [0, 1, 2, 23, 100, 596522] {
        for m in [0, 1, 30, 59] {
            for s in [0, 1, 30, 59] {
                let counter = Counter::new(-(3600 * h + 60 * m + s));
                assert_eq!((counter.hours(), counter.minutes(), counter.seconds()), (h, m, s));
            }
        }
    }
}

#[test]
fn fields_at_the_limits_of_the_counter() {
    let top = Counter::new(i32::MAX);
    assert_eq!((top.hours(), top.minutes(), top.seconds()), (596523, 14, 7));
    let floor = Counter::new(i32::MIN);
    assert_eq!((floor.hours(), floor.minutes(), floor.seconds()), (596523, 14, 8));
}

#[test]
fn read_gives_the_count() {
    assert_eq!(Counter::new(17).read(), 17);
    assert_eq!(Counter::new(-17).read(), -17);
    assert_eq!(Counter::new(17).count, 17);
}

#[test]
fn decrement_takes_one_second_off() {
    let mut counter = Counter::new(2);
    counter.decrement();
    assert_eq!(counter.read(), 1);
    counter.decrement();
    assert_eq!(counter.read(), 0);
    counter.decrement();
    assert_eq!(counter.read(), -1);
    counter.decrement();
    assert_eq!(counter.read(), -2);
}

#[test]
fn decrement_reaches_the_floor() {
    let mut counter = Counter::new(i32::MIN + 1);
    counter.decrement();
    assert_eq!(counter.read(), i32::MIN);
}

#[test]
fn overtime_is_below_zero() {
    assert!(!Counter::new(1).is_overtime());
    assert!(!Counter::new(0).is_overtime());
    assert!(Counter::new(-1).is_overtime());
}

#[test]
fn display_holds_fields_and_sign() {
    assert_eq!(
        Counter::new(3725).display(),
        DisplayClock { hours: 1, minutes: 2, seconds: 5, sign_negative: false }
    );
    assert_eq!(
        Counter::new(-3725).display(),
        DisplayClock { hours: 1, minutes: 2, seconds: 5, sign_negative: true }
    );
    assert_eq!(
        Counter::new(0).display(),
        DisplayClock { hours: 0, minutes: 0, seconds: 0, sign_negative: false }
    );
    assert_eq!(
        Counter::new(i32::MIN).display(),
        DisplayClock { hours: 596523, minutes: 14, seconds: 8, sign_negative: true }
    );
}

#[test]
fn text_shows_seconds_alone_below_a_minute() {
    assert_eq!(Counter::new(5).display().text(), "5");
    assert_eq!(Counter::new(0).display().text(), "0");
    assert_eq!(Counter::new(59).display().text(), "59");
}

#[test]
fn text_shows_minutes_and_padded_seconds_below_an_hour() {
    assert_eq!(Counter::new(60).display().text(), "1:00");
    assert_eq!(Counter::new(65).display().text(), "1:05");
    assert_eq!(Counter::new(600).display().text(), "10:00");
    assert_eq!(Counter::new(3599).display().text(), "59:59");
}

#[test]
fn text_shows_hours_with_padded_minutes_and_seconds() {
    assert_eq!(Counter::new(3600).display().text(), "1:00:00");
    assert_eq!(Counter::new(5400).display().text(), "1:30:00");
    assert_eq!(Counter::new(3661).display().text(), "1:01:01");
    assert_eq!(Counter::new(36000).display().text(), "10:00:00");
    assert_eq!(Counter::new(i32::MAX).display().text(), "596523:14:07");
}

#[test]
fn text_of_overtime_has_a_minus() {
    assert_eq!(Counter::new(-1).display().text(), "-1");
    assert_eq!(Counter::new(-65).display().text(), "-1:05");
    assert_eq!(Counter::new(-3600).display().text(), "-1:00:00");
    assert_eq!(Counter::new(i32::MIN).display().text(), "-596523:14:08");
}

#[test]
fn text_pads_to_two_digits_and_no_further() {
    let clock = DisplayClock { hours: 0, minutes: 1, seconds: 123, sign_negative: false };
    assert_eq!(clock.text(), "1:123");
    let clock = DisplayClock { hours: 2, minutes: 3, seconds: 4, sign_negative: false };
    assert_eq!(clock.text(), "2:03:04");
}

#[test]
fn text_is_never_empty() {
    for n in [i32::MIN, -3600, -1, 0, 1, 60, 3600, i32::MAX] {
        assert!(!Counter::new(n).display().text().is_empty());
    }
}
