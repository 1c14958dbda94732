//! Adaptive scheduling of kanji flashcards: a bounded pool of items under
//! drill, promotion and demotion of review records, and multiple-choice
//! candidate sets with exactly one correct answer.

pub mod clock;
pub mod random;
pub mod store;
pub mod game;
pub mod config;
pub mod kanji;
pub mod dealer;
pub mod deal;
pub mod laws;
pub mod kanji_fall;
