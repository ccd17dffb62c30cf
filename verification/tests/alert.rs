use countdown::alert::{should_play, REMINDER_PERIOD};

#[test]
fn tone_sounds_on_the_step_below_zero() {
    assert_eq!(should_play(0, -1, false), (true, true));
}

#[test]
fn tone_is_silent_off_a_mark() {
    let (fire, _) = should_play(-1, -2, true);
    assert!(!fire);
}

#[test]
fn memory_is_cleared_off_a_mark() {
    assert_eq!(should_play(-1, -2, true), (false, false));
    assert_eq!(should_play(-300, -301, true), (false, false));
}

#[test]
fn tone_sounds_on_a_reminder_mark() {
    assert_eq!(should_play(-301, -300, false), (true, true));
    assert_eq!(should_play(-299, -300, false), (true, true));
    assert_eq!(should_play(-599, -600, false), (true, true));
    assert_eq!(should_play(-899, -900, false), (true, true));
}

#[test]
fn tone_is_silent_while_counting_down() {
    let (fire, _) = should_play(5, 4, false);
    assert!(!fire);
    assert_eq!(should_play(5, 4, false), (false, false));
    assert_eq!(should_play(1, 0, false), (false, false));
    assert_eq!(should_play(301, 300, false), (false, false));
    assert_eq!(should_play(601, 600, true), (false, false));
}

#[test]
fn tone_sounds_once_on_a_mark() {
    let (first, played) = should_play(-299, -300, false);
    assert!(first);
    let (second, still) = should_play(-300, -300, played);
    assert!(!second);
    assert!(still);
}

#[test]
fn step_below_zero_sounds_whatever_the_memory() {
    assert_eq!(should_play(0, -1, true), (true, true));
    assert_eq!(should_play(7, -1, false), (true, true));
}

#[test]
fn minus_one_reached_from_below_is_silent() {
    assert_eq!(should_play(-2, -1, false), (false, false));
    assert_eq!(should_play(-1, -1, true), (false, false));
}

#[test]
fn zero_is_no_reminder_mark() {
    assert_eq!(should_play(1, 0, true), (false, false));
}

#[test]
fn reminder_period_is_five_minutes() {
    assert_eq!(REMINDER_PERIOD, 300);
}

#[test]
fn marks_near_the_floor() {
    assert_eq!(should_play(i32::MIN + 1, i32::MIN, false), (false, false));
    assert_eq!(should_play(-2147483399, -2147483400, false), (true, true));
}
