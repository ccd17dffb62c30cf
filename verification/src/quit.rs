//! The cancellation flag, and the input listener that raises it.

use vstd::prelude::*;
use crate::events::{TerminalInput, QUIT_KEY};

verus! {

/// An event for the render loop, where cancellation has its own flag.
#[derive(Debug, Clone, Copy, PartialEq, Eq, Structural)]
pub enum AppEvent {
    /// One second has passed.
    TickEvent,
    /// The terminal could not be read.
    ErrorEvent,
}

/// The cancellation flag. It starts down, goes up once and never comes down:
/// no method lowers it. The flag is plain data; where a listener and a loop
/// share it, the caller guards it with a lock.
#[derive(Debug)]
pub struct Quit {
    raised: bool,
}

/// What the listener does after one read of the terminal.
#[derive(Debug, Clone, Copy, PartialEq, Eq, Structural)]
pub struct Heard {
    /// The event to send to the render loop, if any.
    pub emit: Option<AppEvent>,
    /// Whether the listener ends here.
    pub stop: bool,
}

/// What the listener does with one read: on the quit key it raises the flag
/// and ends; on a failed read it reports the error once and ends; anything
/// else it passes over.
pub open spec fn heard(input: TerminalInput) -> Heard {
    if input.is_quit() {
        Heard { emit: None, stop: true }
    } else if input is Failed {
        Heard { emit: Some(AppEvent::ErrorEvent), stop: true }
    } else {
        Heard { emit: None, stop: false }
    }
}

impl Quit {
    /// Whether the flag is up.
    pub closed spec fn is_raised(&self) -> bool {
        self.raised
    }

    /// A flag that is down.
    pub fn new() -> (flag: Self)
        ensures
            !flag.is_raised(),
    {
        Self { raised: false }
    }

    /// Whether the flag is up.
    pub fn is_set(&self) -> (up: bool)
        ensures
            up == self.is_raised(),
    {
        self.raised
    }

    /// Raises the flag. On a flag that is up this changes nothing.
    pub fn quit(&mut self)
        ensures
            final(self).is_raised(),
    {
        self.raised = true;
    }

    /// The listener's step for one read of the terminal: raises the flag on
    /// the quit key, and says what to send and whether to go on listening.
    pub fn handle_events(&mut self, input: TerminalInput) -> (step: Heard)
        ensures
            step == heard(input),
            final(self).is_raised() == (old(self).is_raised() || input.is_quit()),
    {
        match input {
            TerminalInput::Key { press, character } => {
                match character {
                    Some(c) => if press && c == QUIT_KEY {
                        self.quit();
                        Heard { emit: None, stop: true }
                    } else {
                        Heard { emit: None, stop: false }
                    },
                    None => Heard { emit: None, stop: false },
                }
            },
            TerminalInput::Other => Heard { emit: None, stop: false },
            TerminalInput::Failed => Heard { emit: Some(AppEvent::ErrorEvent), stop: true },
        }
    }
}

impl Default for Quit {
    fn default() -> (flag: Self)
        ensures
            !flag.is_raised(),
    {
        Quit::new()
    }
}

} // verus!
