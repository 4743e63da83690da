use vstd::prelude::*;

verus! {

/// The ways in which a caller can hand the core something it does not accept.
#[derive(Debug, Clone, Copy, PartialEq, Eq, Structural)]
pub enum WordleError {
    /// A secret or a guess that is not exactly five letters long.
    InvalidLength,
    /// A revelation whose index lies outside the word, or a word revelation
    /// that does not hold one entry per position, in order.
    IllegalRevelation,
}

} // verus!
