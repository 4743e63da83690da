use crate::modules::revelation::{well_formed, LetterRevelation};
use crate::modules::state::State;
use vstd::prelude::*;

verus! {

/// The number of positions among the first `upto` at which `secret` holds
/// `letter` and `guess` holds something else: the copies of the letter that
/// the exact matches leave over.
pub open spec fn spare_copies(secret: Seq<char>, guess: Seq<char>, letter: char, upto: int) -> nat
    decreases upto,
{
    if upto <= 0 {
        0
    } else {
        let here: nat = if secret[upto - 1] == letter && guess[upto - 1] != letter {
            1
        } else {
            0
        };
        spare_copies(secret, guess, letter, upto - 1) + here
    }
}

/// The number of positions among the first `upto` at which `guess` holds
/// `letter` and `secret` holds something else: the copies of the letter in
/// the guess that compete for the spare copies of the secret.
pub open spec fn loose_copies(secret: Seq<char>, guess: Seq<char>, letter: char, upto: int) -> nat
    decreases upto,
{
    if upto <= 0 {
        0
    } else {
        let here: nat = if guess[upto - 1] == letter && secret[upto - 1] != letter {
            1
        } else {
            0
        };
        loose_copies(secret, guess, letter, upto - 1) + here
    }
}

/// The state of the letter at position `at` of `guess`.
///
/// An exact match is `Correct`. Any other letter is `Change` as long as the
/// secret has a spare copy for it, the spare copies going to the loose
/// copies of the guess from left to right, and `Wrong` once they have run
/// out.
pub open spec fn state_at(secret: Seq<char>, guess: Seq<char>, at: int) -> State {
    let letter = guess[at];
    if secret[at] == letter {
        State::Correct
    } else if loose_copies(secret, guess, letter, at) < spare_copies(
        secret,
        guess,
        letter,
        secret.len() as int,
    ) {
        State::Change
    } else {
        State::Wrong
    }
}

/// What `guess` reveals at position `at` when the secret is `secret`.
pub open spec fn revelation_at(secret: Seq<char>, guess: Seq<char>, at: int) -> LetterRevelation {
    LetterRevelation { index: at as usize, letter: guess[at], state: state_at(secret, guess, at) }
}

/// The feedback on `guess` when the secret is `secret`, position by
/// position.
pub open spec fn evaluate(secret: Seq<char>, guess: Seq<char>) -> Seq<LetterRevelation> {
    Seq::new(guess.len(), |i: int| revelation_at(secret, guess, i))
}

/// The feedback on a five-letter guess has one entry for each of the
/// positions 0 to 4, in ascending order, and each entry repeats the letter
/// of the guess at its position.
pub proof fn lemma_evaluate_well_formed(secret: Seq<char>, guess: Seq<char>)
    requires
        secret.len() == 5,
        guess.len() == 5,
    ensures
        well_formed(evaluate(secret, guess)),
        forall|i: int| 0 <= i < 5 ==> (#[trigger] evaluate(secret, guess)[i]).letter == guess[i],
{
}

/// Guessing the secret itself gives `Correct` at every position.
pub proof fn lemma_evaluate_self(secret: Seq<char>)
    requires
        secret.len() == 5,
    ensures
        forall|i: int|
            0 <= i < 5 ==> (#[trigger] evaluate(secret, secret)[i]).state == State::Correct,
{
}

/// Every position of the feedback is `Correct` exactly when the guess is the
/// secret.
pub proof fn lemma_all_correct_iff_equal(secret: Seq<char>, guess: Seq<char>)
    requires
        secret.len() == 5,
        guess.len() == 5,
    ensures
        (forall|i: int|
            0 <= i < 5 ==> (#[trigger] evaluate(secret, guess)[i]).state == State::Correct) <==> guess
            == secret,
{
    let e = evaluate(secret, guess);
    if forall|i: int| 0 <= i < 5 ==> (#[trigger] e[i]).state == State::Correct {
        assert forall|i: int| 0 <= i < 5 implies guess[i] == secret[i] by {
            assert(e[i].state == State::Correct);
        }
        assert(guess =~= secret);
    }
}

} // verus!
