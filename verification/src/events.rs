//! What the terminal delivers, and the event of the render loop that it
//! stands for.

use vstd::prelude::*;

verus! {

/// The key that ends the run.
pub const QUIT_KEY: char = 'q';

/// An event for the render loop, where the quit key travels through the
/// queue like the ticks.
#[derive(Debug, Clone, Copy, PartialEq, Eq, Structural)]
pub enum AppEvent {
    /// One second has passed.
    Tick,
    /// The quit key was pressed.
    Quit,
    /// The terminal could not be read.
    Error,
}

/// What one read of the terminal gave, as plain values.
#[derive(Debug, Clone, Copy, PartialEq, Eq, Structural)]
pub enum TerminalInput {
    /// A key event: whether it is a press, and the character of the key where
    /// it has one.
    Key { press: bool, character: Option<char> },
    /// Any other event.
    Other,
    /// The read failed.
    Failed,
}

impl TerminalInput {
    /// The input is a press of the quit key.
    pub open spec fn is_quit(self) -> bool {
        self matches TerminalInput::Key { press, character } && press && character == Some(
            QUIT_KEY,
        )
    }
}

/// The event that the input stands for: a press of the quit key is `Quit`, a
/// failed read is `Error`, and anything else is nothing.
pub open spec fn event_of(input: TerminalInput) -> Option<AppEvent> {
    if input.is_quit() {
        Some(AppEvent::Quit)
    } else if input is Failed {
        Some(AppEvent::Error)
    } else {
        None
    }
}

/// The listener's answer to one read of the terminal: the event to send to
/// the render loop, if any.
pub fn handle_crossterm_events(input: TerminalInput) -> (event: Option<AppEvent>)
    ensures
        event == event_of(input),
{
    match input {
        TerminalInput::Key { press, character } => {
            match character {
                Some(c) => if press && c == QUIT_KEY {
                    Some(AppEvent::Quit)
                } else {
                    None
                },
                None => None,
            }
        },
        TerminalInput::Other => None,
        TerminalInput::Failed => Some(AppEvent::Error),
    }
}

} // verus!
