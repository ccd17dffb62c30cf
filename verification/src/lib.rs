//! Countdown timer core: the duration grammar, the clock fields, the alert
//! policy and the decisions of the render loop, each with a verified contract.

pub mod alert;
pub mod app;
pub mod banner;
pub mod cli;
pub mod counter;
pub mod decimal;
pub mod error;
pub mod events;
pub mod layout;
pub mod quit;
