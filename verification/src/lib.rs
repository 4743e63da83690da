//! The core of a Wordle game, verified with Verus.
//!
//! A guess is evaluated against a secret word of five letters, letter by
//! letter; the feedback is folded into what is known of the secret; and a
//! dictionary is narrowed down to the words that are still consistent with
//! all that is known.
//!
//! - [`modules::state`] and [`modules::revelation`]: what a guess reveals,
//!   for one letter and for a whole word.
//! - [`modules::evaluator`]: what the feedback on a guess is, as a
//!   mathematical function of secret and guess.
//! - [`modules::config`]: a session's dictionary and secret, and the
//!   evaluation of a guess against the secret.
//! - [`modules::solver`]: the record of all feedback, the bounds that it
//!   puts on each letter's number of copies, and the filter over the
//!   candidate words.
//! - [`modules::laws`]: what holds of evaluator, bounds and filter
//!   together.
//! - [`modules::game`]: a session as a state machine over key presses.
//! - [`modules::words`]: letters of a string, words of a text.

pub mod modules;
