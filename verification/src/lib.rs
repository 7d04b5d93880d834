//! A word-guessing game engine: grading of guesses, hard-mode rules,
//! keyboard state and the statistics kept across games.

pub mod words;
pub mod order;
pub mod lists;
pub mod wordfile;
pub mod grade;
pub mod paint;
pub mod hint;
pub mod game;
pub mod theory;
pub mod stats;
pub mod args;
pub mod theme;
pub mod session;
