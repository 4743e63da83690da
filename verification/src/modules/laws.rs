use crate::modules::evaluator::{
    evaluate, lemma_evaluate_well_formed, loose_copies, revelation_at, spare_copies,
};
use crate::modules::revelation::{well_formed, LetterRevelation, WORD_LENGTH};
use crate::modules::solver::{
    accepts, count_ok, fold_bounds, folded, has_absent, hits, known_max,
    lemma_filter_subset, lemma_filter_twice, lemma_hits_bounds, lemma_record_all_keeps,
    occurrences, occurs, position_ok, record_all, survivors, LetterConstraint,
};
use crate::modules::state::State;
use vstd::prelude::*;

verus! {

/// Filtering is idempotent: to filter a second time against the same state
/// removes nothing more.
pub proof fn lemma_filter_idempotent(
    candidates: Seq<String>,
    history: Seq<LetterRevelation>,
    bounds: Map<char, LetterConstraint>,
)
    ensures
        survivors(survivors(candidates, history, bounds), history, bounds) == survivors(
            candidates,
            history,
            bounds,
        ),
{
    let keep = |word: String| accepts(history, bounds, word@);
    lemma_filter_twice(candidates, keep, keep);
}

/// No `Wrong` mark of `history` speaks of `letter`.
pub open spec fn never_absent(history: Seq<LetterRevelation>, letter: char) -> bool {
    forall|i: int|
        0 <= i < history.len() && (#[trigger] history[i]).letter == letter ==> history[i].state
            != State::Wrong
}

/// Folding `guess` loosens nothing that is known.
///
/// An upper bound is taken afresh from each guess, so a guess could raise
/// one, or set one above zero for a letter whose `Wrong` marks closed their
/// positions until then. This says that `guess` does neither: for each
/// letter that it marks `Wrong`, the copies that it proves are no more than
/// the upper bound known so far; and where no upper bound is known although
/// the history holds a `Wrong` mark for the letter, it proves no copy.
///
/// Feedback that comes from one secret throughout never loosens anything.
pub open spec fn loosens_nothing(
    history: Seq<LetterRevelation>,
    bounds: Map<char, LetterConstraint>,
    guess: Seq<LetterRevelation>,
) -> bool {
    forall|letter: char| #[trigger]
        has_absent(guess, letter) ==> match known_max(bounds, letter) {
            Some(m) => hits(guess, letter, guess.len() as int) <= m,
            None => hits(guess, letter, guess.len() as int) == 0 || never_absent(history, letter),
        }
}

/// A word that is consistent with the state after a guess was consistent
/// with the state before it, for every guess that loosens nothing.
pub proof fn lemma_accepts_monotone(
    history: Seq<LetterRevelation>,
    bounds: Map<char, LetterConstraint>,
    guess: Seq<LetterRevelation>,
    word: Seq<char>,
)
    requires
        well_formed(guess),
        loosens_nothing(history, bounds, guess),
        accepts(record_all(history, guess, WORD_LENGTH as int), fold_bounds(bounds, guess), word),
    ensures
        accepts(history, bounds, word),
{
    let later = record_all(history, guess, WORD_LENGTH as int);
    let tighter = fold_bounds(bounds, guess);
    lemma_record_all_keeps(history, guess, WORD_LENGTH as int);
    assert forall|i: int| 0 <= i < history.len() implies position_ok(
        bounds,
        word,
        #[trigger] history[i],
    ) by {
        let rev = history[i];
        let letter = rev.letter;
        assert(later[i] == rev);
        assert(position_ok(tighter, word, later[i]));
        lemma_hits_bounds(guess, letter, WORD_LENGTH as int);
        if rev.state == State::Wrong && has_absent(guess, letter) {
            assert(!never_absent(history, letter));
        }
    }
    assert forall|letter: char| #[trigger] bounds.contains_key(letter) implies count_ok(
        bounds[letter],
        occurrences(word, letter, word.len() as int),
    ) by {
        assert(tighter.contains_key(letter));
        lemma_hits_bounds(guess, letter, WORD_LENGTH as int);
        if has_absent(guess, letter) {
            assert(known_max(bounds, letter) == bounds[letter].max);
        }
    }
}

/// Filter monotonicity: for every guess that loosens nothing, the
/// candidates that survive the state after the guess are among those that
/// survive the state before it. To filter what had survived before gives
/// the same list as to filter all candidates anew.
pub proof fn lemma_filter_monotone(
    candidates: Seq<String>,
    history: Seq<LetterRevelation>,
    bounds: Map<char, LetterConstraint>,
    guess: Seq<LetterRevelation>,
)
    requires
        well_formed(guess),
        loosens_nothing(history, bounds, guess),
    ensures
        forall|word: String| #[trigger]
            survivors(
                candidates,
                record_all(history, guess, WORD_LENGTH as int),
                fold_bounds(bounds, guess),
            ).contains(word) ==> survivors(candidates, history, bounds).contains(word),
        survivors(
            survivors(candidates, history, bounds),
            record_all(history, guess, WORD_LENGTH as int),
            fold_bounds(bounds, guess),
        ) == survivors(
            candidates,
            record_all(history, guess, WORD_LENGTH as int),
            fold_bounds(bounds, guess),
        ),
{
    let later = record_all(history, guess, WORD_LENGTH as int);
    let tighter = fold_bounds(bounds, guess);
    let before = |word: String| accepts(history, bounds, word@);
    let after = |word: String| accepts(later, tighter, word@);
    assert forall|word: String| #[trigger] after(word) implies before(word) by {
        lemma_accepts_monotone(history, bounds, guess, word@);
    }
    lemma_filter_twice(candidates, before, after);
    lemma_filter_subset(candidates.filter(before), after);
}

/// The smaller of two numbers.
pub open spec fn least(a: nat, b: nat) -> nat {
    if a <= b {
        a
    } else {
        b
    }
}

/// The loose copies of a letter only grow along the guess.
pub proof fn lemma_loose_copies_grow(
    secret: Seq<char>,
    guess: Seq<char>,
    letter: char,
    from: int,
    upto: int,
)
    requires
        from <= upto,
    ensures
        loose_copies(secret, guess, letter, from) <= loose_copies(secret, guess, letter, upto),
    decreases upto - from,
{
    if from < upto {
        lemma_loose_copies_grow(secret, guess, letter, from, upto - 1);
    }
}

/// The spare copies of a letter only grow along the secret.
pub proof fn lemma_spare_copies_grow(
    secret: Seq<char>,
    guess: Seq<char>,
    letter: char,
    from: int,
    upto: int,
)
    requires
        from <= upto,
    ensures
        spare_copies(secret, guess, letter, from) <= spare_copies(secret, guess, letter, upto),
    decreases upto - from,
{
    if from < upto {
        lemma_spare_copies_grow(secret, guess, letter, from, upto - 1);
    }
}

/// How many copies of a letter the feedback proves among the first `upto`
/// positions: the exact matches, which are the copies of the secret that
/// are not spare, and as many of the loose copies of the guess as the
/// secret has spare copies for.
pub proof fn lemma_hits_of_feedback(secret: Seq<char>, guess: Seq<char>, letter: char, upto: int)
    requires
        secret.len() == WORD_LENGTH,
        guess.len() == WORD_LENGTH,
        0 <= upto <= WORD_LENGTH,
    ensures
        hits(evaluate(secret, guess), letter, upto) + spare_copies(
            secret,
            guess,
            letter,
            upto,
        ) == occurrences(secret, letter, upto) + least(
            loose_copies(secret, guess, letter, upto),
            spare_copies(secret, guess, letter, WORD_LENGTH as int),
        ),
    decreases upto,
{
    if upto > 0 {
        lemma_hits_of_feedback(secret, guess, letter, upto - 1);
        lemma_spare_copies_grow(secret, guess, letter, upto, WORD_LENGTH as int);
        assert(evaluate(secret, guess)[upto - 1] == revelation_at(secret, guess, upto - 1));
    }
}

/// Secret and guess hold a letter equally often at their exact matches:
/// what each holds besides are its spare and its loose copies.
pub proof fn lemma_spare_and_loose(secret: Seq<char>, guess: Seq<char>, letter: char, upto: int)
    requires
        0 <= upto <= secret.len(),
        0 <= upto <= guess.len(),
    ensures
        occurrences(guess, letter, upto) + spare_copies(secret, guess, letter, upto)
            == occurrences(secret, letter, upto) + loose_copies(secret, guess, letter, upto),
    decreases upto,
{
    if upto > 0 {
        lemma_spare_and_loose(secret, guess, letter, upto - 1);
    }
}

/// The feedback credits a guess with as many copies of a letter as guess
/// and secret have in common: the number of its copies in the guess or in
/// the secret, whichever is smaller.
pub proof fn lemma_feedback_credits(secret: Seq<char>, guess: Seq<char>, letter: char)
    requires
        secret.len() == WORD_LENGTH,
        guess.len() == WORD_LENGTH,
    ensures
        hits(evaluate(secret, guess), letter, WORD_LENGTH as int) == least(
            occurrences(guess, letter, WORD_LENGTH as int),
            occurrences(secret, letter, WORD_LENGTH as int),
        ),
{
    lemma_hits_of_feedback(secret, guess, letter, WORD_LENGTH as int);
    lemma_spare_and_loose(secret, guess, letter, WORD_LENGTH as int);
}

/// The feedback never proves more copies of a letter than the secret
/// holds, and where it marks the letter `Wrong` at some position it proves
/// exactly as many as the secret holds.
pub proof fn lemma_feedback_counts(secret: Seq<char>, guess: Seq<char>, letter: char)
    requires
        secret.len() == WORD_LENGTH,
        guess.len() == WORD_LENGTH,
    ensures
        hits(evaluate(secret, guess), letter, WORD_LENGTH as int) <= occurrences(
            secret,
            letter,
            WORD_LENGTH as int,
        ),
        has_absent(evaluate(secret, guess), letter) ==> hits(
            evaluate(secret, guess),
            letter,
            WORD_LENGTH as int,
        ) == occurrences(secret, letter, WORD_LENGTH as int),
{
    let feedback = evaluate(secret, guess);
    lemma_hits_bounds(feedback, letter, WORD_LENGTH as int);
    if occurs(feedback, letter) {
        let at = choose|i: int|
            0 <= i < feedback.len() && (#[trigger] feedback[i]).letter == letter;
        lemma_hits_of_feedback(secret, guess, guess[at], WORD_LENGTH as int);
    }
    if has_absent(feedback, letter) {
        let at = choose|i: int|
            0 <= i < feedback.len() && (#[trigger] feedback[i]).letter == letter
                && feedback[i].state == State::Wrong;
        lemma_hits_of_feedback(secret, guess, guess[at], WORD_LENGTH as int);
        lemma_loose_copies_grow(secret, guess, guess[at], at, WORD_LENGTH as int);
    }
}

/// A letter revelation says of `secret` what is the case: its position lies
/// within the word, and it is `Correct` exactly where the secret has its
/// letter at that position.
pub open spec fn true_of(secret: Seq<char>, rev: LetterRevelation) -> bool {
    &&& rev.index < secret.len()
    &&& (rev.state == State::Correct) == (secret[rev.index as int] == rev.letter)
}

/// All that is known is true of `secret`: each recorded letter revelation
/// is, each lower bound is at most the number of copies that the secret
/// holds, each upper bound is that number, and each letter with a `Wrong`
/// mark in the history has an upper bound.
pub open spec fn truthful(
    history: Seq<LetterRevelation>,
    bounds: Map<char, LetterConstraint>,
    secret: Seq<char>,
) -> bool {
    &&& forall|i: int|
        0 <= i < history.len() ==> {
            &&& true_of(secret, #[trigger] history[i])
            &&& history[i].state == State::Wrong ==> known_max(bounds, history[i].letter)
                is Some
        }
    &&& forall|letter: char| #[trigger]
        bounds.contains_key(letter) ==> {
            &&& bounds[letter].min <= occurrences(secret, letter, secret.len() as int)
            &&& bounds[letter].max matches Some(m) ==> m == occurrences(
                secret,
                letter,
                secret.len() as int,
            )
        }
}

/// Each entry of a history that has recorded part of a guess was in the
/// history before or is an entry of the guess.
pub proof fn lemma_record_all_source(
    history: Seq<LetterRevelation>,
    guess: Seq<LetterRevelation>,
    upto: int,
)
    requires
        0 <= upto <= guess.len(),
    ensures
        forall|i: int|
            0 <= i < record_all(history, guess, upto).len() ==> history.contains(
                #[trigger] record_all(history, guess, upto)[i],
            ) || guess.contains(record_all(history, guess, upto)[i]),
    decreases upto,
{
    if upto > 0 {
        let shorter = record_all(history, guess, upto - 1);
        let longer = record_all(history, guess, upto);
        lemma_record_all_source(history, guess, upto - 1);
        assert forall|i: int| 0 <= i < longer.len() implies history.contains(#[trigger] longer[i])
            || guess.contains(longer[i]) by {
            if i < shorter.len() {
                assert(longer[i] == shorter[i]);
            } else {
                assert(longer[i] == guess[upto - 1]);
            }
        }
    }
}

/// A solver that has seen nothing knows nothing false.
pub proof fn lemma_truthful_at_start(secret: Seq<char>)
    ensures
        truthful(Seq::<LetterRevelation>::empty(), Map::<char, LetterConstraint>::empty(), secret),
{
}

/// Folding the feedback on a guess against `secret` into what is true of
/// `secret` gives what is true of `secret` again, and loosens nothing.
pub proof fn lemma_truthful_step(
    history: Seq<LetterRevelation>,
    bounds: Map<char, LetterConstraint>,
    secret: Seq<char>,
    guess: Seq<char>,
)
    requires
        secret.len() == WORD_LENGTH,
        guess.len() == WORD_LENGTH,
        truthful(history, bounds, secret),
    ensures
        truthful(
            record_all(history, evaluate(secret, guess), WORD_LENGTH as int),
            fold_bounds(bounds, evaluate(secret, guess)),
            secret,
        ),
        loosens_nothing(history, bounds, evaluate(secret, guess)),
{
    let feedback = evaluate(secret, guess);
    let later = record_all(history, feedback, WORD_LENGTH as int);
    let tighter = fold_bounds(bounds, feedback);
    lemma_record_all_source(history, feedback, WORD_LENGTH as int);
    let length = secret.len() as int;
    assert forall|letter: char| #[trigger] tighter.contains_key(letter) implies {
        &&& tighter[letter].min <= occurrences(secret, letter, length)
        &&& tighter[letter].max matches Some(m) ==> m == occurrences(secret, letter, length)
    } by {
        lemma_feedback_counts(secret, guess, letter);
        lemma_hits_bounds(feedback, letter, WORD_LENGTH as int);
        assert(tighter[letter] == folded(bounds, feedback, letter));
    }
    assert forall|i: int| 0 <= i < later.len() implies {
        &&& true_of(secret, #[trigger] later[i])
        &&& later[i].state == State::Wrong ==> known_max(tighter, later[i].letter) is Some
    } by {
        let rev = later[i];
        let letter = rev.letter;
        if history.contains(rev) {
            let j = choose|j: int| 0 <= j < history.len() && history[j] == rev;
            assert(true_of(secret, history[j]));
            if rev.state == State::Wrong {
                assert(bounds.contains_key(letter));
                assert(tighter.contains_key(letter));
            }
        } else {
            let j = choose|j: int| 0 <= j < feedback.len() && feedback[j] == rev;
            assert(feedback[j] == revelation_at(secret, guess, j));
            if rev.state == State::Wrong {
                assert(has_absent(feedback, letter));
                assert(occurs(feedback, letter));
                assert(tighter.contains_key(letter));
            }
        }
    }
    assert forall|letter: char| #[trigger] has_absent(feedback, letter) implies match known_max(
        bounds,
        letter,
    ) {
        Some(m) => hits(feedback, letter, feedback.len() as int) <= m,
        None => hits(feedback, letter, feedback.len() as int) == 0 || never_absent(history, letter),
    } by {
        lemma_feedback_counts(secret, guess, letter);
    }
}

/// The secret is consistent with all that is true of it: no feedback on
/// guesses against the secret ever filters the secret out.
pub proof fn lemma_secret_survives(
    history: Seq<LetterRevelation>,
    bounds: Map<char, LetterConstraint>,
    secret: Seq<char>,
)
    requires
        truthful(history, bounds, secret),
    ensures
        accepts(history, bounds, secret),
{
    assert forall|i: int| 0 <= i < history.len() implies position_ok(
        bounds,
        secret,
        #[trigger] history[i],
    ) by {
        assert(true_of(secret, history[i]));
    }
}

/// Where all that is known is true of one secret, no lower bound exceeds
/// the upper bound of its letter.
pub proof fn lemma_bounds_in_order(
    history: Seq<LetterRevelation>,
    bounds: Map<char, LetterConstraint>,
    secret: Seq<char>,
    letter: char,
)
    requires
        truthful(history, bounds, secret),
        bounds.contains_key(letter),
    ensures
        bounds[letter].max matches Some(m) ==> bounds[letter].min <= m,
{
}

/// All the words of `guesses` have five letters.
pub open spec fn playable(guesses: Seq<Seq<char>>) -> bool {
    forall|i: int| 0 <= i < guesses.len() ==> (#[trigger] guesses[i]).len() == WORD_LENGTH
}

/// What a solver that started from nothing knows once the feedback on the
/// first `upto` of `guesses`, each evaluated against `secret`, has been
/// folded into it: the history and the bounds.
pub open spec fn learnt(secret: Seq<char>, guesses: Seq<Seq<char>>, upto: int) -> (
    Seq<LetterRevelation>,
    Map<char, LetterConstraint>,
)
    decreases upto,
{
    if upto <= 0 {
        (Seq::empty(), Map::empty())
    } else {
        let (history, bounds) = learnt(secret, guesses, upto - 1);
        let feedback = evaluate(secret, guesses[upto - 1]);
        (record_all(history, feedback, WORD_LENGTH as int), fold_bounds(bounds, feedback))
    }
}

/// Whatever is guessed against one secret, all that the solver comes to
/// know is true of the secret, and the secret stays a candidate.
pub proof fn lemma_game_is_truthful(secret: Seq<char>, guesses: Seq<Seq<char>>, upto: int)
    requires
        secret.len() == WORD_LENGTH,
        playable(guesses),
        0 <= upto <= guesses.len(),
    ensures
        truthful(learnt(secret, guesses, upto).0, learnt(secret, guesses, upto).1, secret),
        accepts(learnt(secret, guesses, upto).0, learnt(secret, guesses, upto).1, secret),
    decreases upto,
{
    if upto > 0 {
        let (history, bounds) = learnt(secret, guesses, upto - 1);
        lemma_game_is_truthful(secret, guesses, upto - 1);
        lemma_truthful_step(history, bounds, secret, guesses[upto - 1]);
    }
    lemma_secret_survives(
        learnt(secret, guesses, upto).0,
        learnt(secret, guesses, upto).1,
        secret,
    );
}

/// Along the guesses against one secret the filter only narrows: a word
/// that is consistent with what is known after `later` guesses was
/// consistent with what was known after any smaller number of them.
pub proof fn lemma_game_narrows(
    secret: Seq<char>,
    guesses: Seq<Seq<char>>,
    earlier: int,
    later: int,
    word: Seq<char>,
)
    requires
        secret.len() == WORD_LENGTH,
        playable(guesses),
        0 <= earlier <= later <= guesses.len(),
        accepts(learnt(secret, guesses, later).0, learnt(secret, guesses, later).1, word),
    ensures
        accepts(learnt(secret, guesses, earlier).0, learnt(secret, guesses, earlier).1, word),
    decreases later - earlier,
{
    if earlier < later {
        let (history, bounds) = learnt(secret, guesses, later - 1);
        let feedback = evaluate(secret, guesses[later - 1]);
        lemma_game_is_truthful(secret, guesses, later - 1);
        lemma_truthful_step(history, bounds, secret, guesses[later - 1]);
        lemma_evaluate_well_formed(secret, guesses[later - 1]);
        lemma_accepts_monotone(history, bounds, feedback, word);
        lemma_game_narrows(secret, guesses, earlier, later - 1, word);
    }
}

} // verus!

