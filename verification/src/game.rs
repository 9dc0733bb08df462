//! The quiz itself.

pub mod trivia;
