//! A trivia quiz session: option labels and wire values, entity decoding,
//! the retrieval policy, and the question store with its score.

pub mod passes;
pub mod text;
pub mod util;
pub mod game;
