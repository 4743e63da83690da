use vstd::prelude::*;

verus! {

/// What one letter of a guess turned out to be.
#[derive(Debug, Clone, Copy, PartialEq, Eq, Structural)]
pub enum State {
    /// The secret holds this letter at this very position.
    Correct,
    /// No copy of this letter is left in the secret once the exact matches
    /// and the earlier misplaced copies have been accounted for.
    Wrong,
    /// The secret holds this letter, at another position.
    Change,
}

impl State {
    /// A letter in this state is a proven copy of the letter in the secret.
    pub open spec fn is_hit(self) -> bool {
        self != State::Wrong
    }

    /// Tells whether the state proves one copy of the letter in the secret.
    pub fn hit(&self) -> (r: bool)
        ensures
            r == self.is_hit(),
    {
        match self {
            State::Wrong => false,
            _ => true,
        }
    }
}

} // verus!
