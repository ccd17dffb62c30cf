//! The command line: the duration grammar and the checked arguments.

pub mod args;
pub mod duration;
