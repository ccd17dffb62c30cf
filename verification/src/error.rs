//! Error types of the library. Each carries what the user has to be told and
//! offers the one-line message as a `String`.

use vstd::prelude::*;
use vstd::string::*;
use crate::decimal::{decimal, push_decimal};

verus! {

/// Why a duration string was refused.
#[derive(Debug, Clone, Copy, PartialEq, Eq, Structural)]
pub enum ParseError {
    /// A field is not an optionally signed run of decimal digits.
    InvalidNumber,
    /// A field, or the total, does not fit the counter.
    OutOfRange,
    /// The string has none of the accepted shapes.
    FormatNotRecognized,
}

/// Why the command line was refused.
#[derive(Debug, Clone, Copy, PartialEq, Eq, Structural)]
pub enum ArgsError {
    /// No duration was given.
    NoDuration,
    /// The duration string was refused.
    Duration(ParseError),
    /// The message has more characters than the limit.
    MessageTooLong { limit: usize, length: usize },
}

/// Why a run ended in failure.
#[derive(Debug, Clone, Copy, PartialEq, Eq, Structural)]
pub enum RunError {
    /// The input listener could not read the terminal.
    InputRead,
    /// The frame could not be drawn.
    Render,
}

impl ParseError {
    /// The characters of the message.
    pub open spec fn text(self) -> Seq<char> {
        match self {
            ParseError::InvalidNumber => "Duration field is not a whole number."@,
            ParseError::OutOfRange => "Duration is out of range."@,
            ParseError::FormatNotRecognized => "Command format not recognized."@,
        }
    }

    /// The cause, in one line.
    pub fn message(&self) -> (line: String)
        ensures
            line@ == self.text(),
    {
        match self {
            ParseError::InvalidNumber => "Duration field is not a whole number.".to_owned(),
            ParseError::OutOfRange => "Duration is out of range.".to_owned(),
            ParseError::FormatNotRecognized => "Command format not recognized.".to_owned(),
        }
    }
}

impl ArgsError {
    /// The characters of the message.
    pub open spec fn text(self) -> Seq<char> {
        match self {
            ArgsError::NoDuration => "No duration argument provided."@,
            ArgsError::Duration(e) => e.text(),
            ArgsError::MessageTooLong { limit, length } => "Message too long: the limit is "@
                + decimal(limit as nat) + " characters, yours contains "@ + decimal(length as nat)
                + "."@,
        }
    }

    /// The cause, in one line. For a message that is too long it names the
    /// limit and the length found.
    pub fn message(&self) -> (line: String)
        ensures
            line@ == self.text(),
    {
        match self {
            ArgsError::NoDuration => "No duration argument provided.".to_owned(),
            ArgsError::Duration(e) => e.message(),
            ArgsError::MessageTooLong { limit, length } => {
                let mut line = "Message too long: the limit is ".to_owned();
                push_decimal(&mut line, *limit as u64);
                line.append(" characters, yours contains ");
                push_decimal(&mut line, *length as u64);
                line.append(".");
                line
            },
        }
    }
}

impl RunError {
    /// The characters of the message.
    pub open spec fn text(self) -> Seq<char> {
        match self {
            RunError::InputRead => "Failed to read keypress event."@,
            RunError::Render => "Failed to render the frame."@,
        }
    }

    /// The cause, in one line.
    pub fn message(&self) -> (line: String)
        ensures
            line@ == self.text(),
    {
        match self {
            RunError::InputRead => "Failed to read keypress event.".to_owned(),
            RunError::Render => "Failed to render the frame.".to_owned(),
        }
    }
}

} // verus!
