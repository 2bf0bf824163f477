//! A small number-guessing library.
//!
//! A [`session::GuessingSession`] owns a secret target in `[1, 100]`,
//! validates textual guesses, and reports a three-way comparison outcome
//! for each well-formed guess until one matches the target.

pub mod arith;
pub mod geometry;
pub mod parse;
pub mod reply;
pub mod session;

mod random;
