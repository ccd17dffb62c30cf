use countdown::events::{handle_crossterm_events, AppEvent, TerminalInput, QUIT_KEY};
use countdown::quit::{AppEvent as Signal, Heard, Quit};

fn press(c: char) -> TerminalInput {
    TerminalInput::Key { press: true, character: Some(c) }
}

#[test]
fn quit_key_is_q() {
    assert_eq!(QUIT_KEY, 'q');
}

#[test]
fn quit_key_press_becomes_quit_event() {
    assert_eq!(handle_crossterm_events(press('q')), Some(AppEvent::Quit));
}

#[test]
fn failed_read_becomes_error_event() {
    assert_eq!(handle_crossterm_events(TerminalInput::Failed), Some(AppEvent::Error));
}

#[test]
fn other_input_becomes_no_event() {
    assert_eq!(handle_crossterm_events(press('x')), None);
    assert_eq!(handle_crossterm_events(press('Q')), None);
    assert_eq!(handle_crossterm_events(TerminalInput::Key { press: false, character: Some('q') }), None);
    assert_eq!(handle_crossterm_events(TerminalInput::Key { press: true, character: None }), None);
    assert_eq!(handle_crossterm_events(TerminalInput::Key { press: false, character: None }), None);
    assert_eq!(handle_crossterm_events(TerminalInput::Other), None);
}

#[test]
fn flag_starts_down() {
    assert!(!Quit::new().is_set());
    assert!(!Quit::default().is_set());
}

#[test]
fn quit_raises_the_flag_and_is_idempotent() {
    let mut flag = Quit::new();
    flag.quit();
    assert!(flag.is_set());
    flag.quit();
    assert!(flag.is_set());
}

#[test]
fn listener_raises_the_flag_on_the_quit_key_and_ends() {
    let mut flag = Quit::new();
    let step = flag.handle_events(press('q'));
    assert_eq!(step, Heard { emit: None, stop: true });
    assert!(flag.is_set());
}

#[test]
fn listener_reports_a_failed_read_once_and_ends() {
    let mut flag = Quit::new();
    let step = flag.handle_events(TerminalInput::Failed);
    assert_eq!(step, Heard { emit: Some(Signal::ErrorEvent), stop: true });
    assert!(!flag.is_set());
}

#[test]
fn listener_passes_over_other_input() {
    let mut flag = Quit::new();
    for input in [
        press('x'),
        press('Q'),
        TerminalInput::Key { press: false, character: Some('q') },
        TerminalInput::Key { press: true, character: None },
        TerminalInput::Other,
    ] {
        assert_eq!(flag.handle_events(input), Heard { emit: None, stop: false });
        assert!(!flag.is_set());
    }
}

#[test]
fn no_input_lowers_the_flag() {
    let mut flag = Quit::new();
    flag.quit();
    for input in [press('x'), TerminalInput::Other, TerminalInput::Failed, press('q')] {
        flag.handle_events(input);
        assert!(flag.is_set());
    }
}
