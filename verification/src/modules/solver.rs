use crate::modules::error::WordleError;
use crate::modules::revelation::{LetterRevelation, WordRevelation, WORD_LENGTH};
use crate::modules::state::State;
use crate::modules::words::letters;
use std::collections::HashMap;
use vstd::prelude::*;
use vstd::std_specs::iter::IteratorSpec;

verus! {

/// What is known of how often one letter occurs in the secret.
#[derive(Clone, Copy, Debug, PartialEq, Eq)]
pub struct LetterConstraint {
    /// The secret holds at least this many copies.
    pub min: usize,
    /// The secret holds at most this many copies, where a bound is known.
    pub max: Option<usize>,
}

/// The candidate words of a session with all that the feedback has taught
/// so far: every letter revelation ever recorded, in the order of arrival,
/// and the bounds on each letter's number of copies in the secret. The
/// bounds are keyed by the letter's code point.
pub struct Solver {
    pub possibilities: Vec<String>,
    pub revelations: Vec<LetterRevelation>,
    pub constraints: HashMap<u32, LetterConstraint>,
}

/// The numbers that are code points of letters.
pub open spec fn is_code_point(key: u32) -> bool {
    key < 0xD800 || (0xE000 <= key && key <= 0x10FFFF)
}

/// The bounds that a table keyed by code points holds, letter by letter.
pub open spec fn bounds_of(constraints: Map<u32, LetterConstraint>) -> Map<char, LetterConstraint> {
    Map::new(
        |letter: char| constraints.contains_key(letter as u32),
        |letter: char| constraints[letter as u32],
    )
}

/// The number of positions among the first `upto` of `word` that hold
/// `letter`.
pub open spec fn occurrences(word: Seq<char>, letter: char, upto: int) -> nat
    decreases upto,
{
    if upto <= 0 {
        0
    } else {
        let here: nat = if word[upto - 1] == letter {
            1
        } else {
            0
        };
        occurrences(word, letter, upto - 1) + here
    }
}

/// The number of positions among the first `upto` of `guess` at which
/// `letter` is `Correct` or `Change`: the copies of the letter that this
/// guess proves to be in the secret.
pub open spec fn hits(guess: Seq<LetterRevelation>, letter: char, upto: int) -> nat
    decreases upto,
{
    if upto <= 0 {
        0
    } else {
        let here: nat = if guess[upto - 1].letter == letter && guess[upto - 1].state.is_hit() {
            1
        } else {
            0
        };
        hits(guess, letter, upto - 1) + here
    }
}

/// `letter` is `Wrong` at some position of `guess`.
pub open spec fn has_absent(guess: Seq<LetterRevelation>, letter: char) -> bool {
    exists|i: int|
        0 <= i < guess.len() && (#[trigger] guess[i]).letter == letter && guess[i].state
            == State::Wrong
}

/// `letter` stands at some position of `guess`.
pub open spec fn occurs(guess: Seq<LetterRevelation>, letter: char) -> bool {
    exists|i: int| 0 <= i < guess.len() && (#[trigger] guess[i]).letter == letter
}

/// The least number of copies of a letter that `bounds` knows of: zero
/// where it holds nothing on the letter.
pub open spec fn known_min(bounds: Map<char, LetterConstraint>, letter: char) -> nat {
    if bounds.contains_key(letter) {
        bounds[letter].min as nat
    } else {
        0
    }
}

/// The greatest number of copies of a letter that `bounds` allows, if it
/// knows of a limit.
pub open spec fn known_max(bounds: Map<char, LetterConstraint>, letter: char) -> Option<usize> {
    if bounds.contains_key(letter) {
        bounds[letter].max
    } else {
        None
    }
}

/// The bounds on one letter after `guess` has been folded into `bounds`.
///
/// The lower bound rises to the number of copies that the guess proves, if
/// that is more than was known. Where the guess marks the letter `Wrong` at
/// some position, the upper bound becomes the number of copies that the
/// guess proves, whatever it was before: it is taken afresh from each guess
/// and not merged with an earlier one. Where the guess does not mark the
/// letter `Wrong`, the upper bound stays as it was.
pub open spec fn folded(
    bounds: Map<char, LetterConstraint>,
    guess: Seq<LetterRevelation>,
    letter: char,
) -> LetterConstraint {
    let seen = hits(guess, letter, guess.len() as int);
    LetterConstraint {
        min: if known_min(bounds, letter) >= seen {
            known_min(bounds, letter) as usize
        } else {
            seen as usize
        },
        max: if has_absent(guess, letter) {
            Some(seen as usize)
        } else {
            known_max(bounds, letter)
        },
    }
}

/// The bounds after `guess` has been folded into `bounds`: every letter of
/// the guess has an entry, and no entry is lost.
pub open spec fn fold_bounds(
    bounds: Map<char, LetterConstraint>,
    guess: Seq<LetterRevelation>,
) -> Map<char, LetterConstraint> {
    Map::new(
        |letter: char| bounds.contains_key(letter) || occurs(guess, letter),
        |letter: char| folded(bounds, guess, letter),
    )
}

/// The history after one more letter revelation: it is added at the end
/// unless the very same revelation (index, letter and state) is in the
/// history already.
pub open spec fn record(history: Seq<LetterRevelation>, rev: LetterRevelation) -> Seq<
    LetterRevelation,
> {
    if history.contains(rev) {
        history
    } else {
        history.push(rev)
    }
}

/// The history after the first `upto` letter revelations of `guess` have
/// been recorded, one after the other.
pub open spec fn record_all(
    history: Seq<LetterRevelation>,
    guess: Seq<LetterRevelation>,
    upto: int,
) -> Seq<LetterRevelation>
    decreases upto,
{
    if upto <= 0 {
        history
    } else {
        record(record_all(history, guess, upto - 1), guess[upto - 1])
    }
}

/// `word` has `letter` at position `index`.
pub open spec fn has_letter_at(word: Seq<char>, index: int, letter: char) -> bool {
    0 <= index < word.len() && word[index] == letter
}

/// `bounds` holds an upper bound above zero for `letter`: the letter is
/// proven to occur in the secret.
pub open spec fn proven_present(bounds: Map<char, LetterConstraint>, letter: char) -> bool {
    known_max(bounds, letter) matches Some(m) && m > 0
}

/// `word` agrees with one recorded letter revelation.
///
/// `Correct` asks for the letter at the position, `Change` forbids it
/// there. `Wrong` forbids it there too, unless the letter is proven to
/// occur in the secret: the mark then stood for a surplus copy only, and
/// the position is left open.
pub open spec fn position_ok(
    bounds: Map<char, LetterConstraint>,
    word: Seq<char>,
    rev: LetterRevelation,
) -> bool {
    match rev.state {
        State::Correct => has_letter_at(word, rev.index as int, rev.letter),
        State::Change => !has_letter_at(word, rev.index as int, rev.letter),
        State::Wrong => proven_present(bounds, rev.letter) || !has_letter_at(
            word,
            rev.index as int,
            rev.letter,
        ),
    }
}

/// A letter that occurs `count` times agrees with `constraint`.
pub open spec fn count_ok(constraint: LetterConstraint, count: nat) -> bool {
    &&& constraint.min <= count
    &&& constraint.max matches Some(m) ==> count <= m
}

/// `word` is consistent with all that is known: it agrees with every
/// recorded letter revelation, and it holds each letter that has bounds as
/// often as the bounds allow.
pub open spec fn accepts(
    history: Seq<LetterRevelation>,
    bounds: Map<char, LetterConstraint>,
    word: Seq<char>,
) -> bool {
    &&& forall|i: int| 0 <= i < history.len() ==> position_ok(bounds, word, #[trigger] history[i])
    &&& forall|letter: char| #[trigger]
        bounds.contains_key(letter) ==> count_ok(
            bounds[letter],
            occurrences(word, letter, word.len() as int),
        )
}

/// The words of `candidates` that are consistent with all that is known, in
/// their order.
pub open spec fn survivors(
    candidates: Seq<String>,
    history: Seq<LetterRevelation>,
    bounds: Map<char, LetterConstraint>,
) -> Seq<String> {
    candidates.filter(|word: String| accepts(history, bounds, word@))
}

/// What a filter lets through is part of what it was given, and meets the
/// test.
pub proof fn lemma_filter_subset<A>(s: Seq<A>, keep: spec_fn(A) -> bool)
    ensures
        forall|x: A| #[trigger] s.filter(keep).contains(x) ==> s.contains(x) && keep(x),
    decreases s.len(),
{
    reveal(Seq::filter);
    if s.len() > 0 {
        let front = s.drop_last();
        lemma_filter_subset(front, keep);
        assert forall|x: A| #[trigger] s.filter(keep).contains(x) implies s.contains(x) && keep(
            x,
        ) by {
            let i = choose|i: int| 0 <= i < s.filter(keep).len() && s.filter(keep)[i] == x;
            if keep(s.last()) && i == front.filter(keep).len() {
                assert(s[s.len() - 1] == x);
            } else {
                assert(front.filter(keep)[i] == x);
                assert(front.filter(keep).contains(x));
                let j = choose|j: int| 0 <= j < front.len() && front[j] == x;
                assert(s[j] == x);
            }
        }
    }
}

/// Filtering by a test and then by a stricter one gives what the stricter
/// test gives alone.
pub proof fn lemma_filter_twice<A>(
    s: Seq<A>,
    keep: spec_fn(A) -> bool,
    stricter: spec_fn(A) -> bool,
)
    requires
        forall|x: A| #[trigger] stricter(x) ==> keep(x),
    ensures
        s.filter(keep).filter(stricter) == s.filter(stricter),
    decreases s.len(),
{
    reveal(Seq::filter);
    if s.len() > 0 {
        let front = s.drop_last();
        lemma_filter_twice(front, keep, stricter);
        if keep(s.last()) {
            let kept = front.filter(keep).push(s.last());
            assert(kept.drop_last() =~= front.filter(keep));
        }
    }
}

/// Filtering one word more either adds that word at the end or changes
/// nothing.
pub proof fn lemma_survivors_step(
    candidates: Seq<String>,
    history: Seq<LetterRevelation>,
    bounds: Map<char, LetterConstraint>,
    upto: int,
)
    requires
        0 <= upto < candidates.len(),
    ensures
        survivors(candidates.take(upto + 1), history, bounds) == if accepts(
            history,
            bounds,
            candidates[upto]@,
        ) {
            survivors(candidates.take(upto), history, bounds).push(candidates[upto])
        } else {
            survivors(candidates.take(upto), history, bounds)
        },
{
    reveal(Seq::filter);
    assert(candidates.take(upto + 1).drop_last() =~= candidates.take(upto));
}

/// Recording letter revelations keeps what the history held, in its
/// place.
pub proof fn lemma_record_all_keeps(
    history: Seq<LetterRevelation>,
    guess: Seq<LetterRevelation>,
    upto: int,
)
    requires
        0 <= upto <= guess.len(),
    ensures
        history.len() <= record_all(history, guess, upto).len(),
        forall|i: int|
            0 <= i < history.len() ==> #[trigger] record_all(history, guess, upto)[i] == history[i],
    decreases upto,
{
    if upto > 0 {
        lemma_record_all_keeps(history, guess, upto - 1);
    }
}

/// A guess proves no copy of a letter that it does not hold, and never
/// more copies than it has positions.
pub proof fn lemma_hits_bounds(guess: Seq<LetterRevelation>, letter: char, upto: int)
    requires
        0 <= upto <= guess.len(),
    ensures
        hits(guess, letter, upto) <= upto,
        !occurs(guess, letter) ==> hits(guess, letter, upto) == 0,
    decreases upto,
{
    if upto > 0 {
        lemma_hits_bounds(guess, letter, upto - 1);
        if guess[upto - 1].letter == letter {
            assert(occurs(guess, letter));
        }
    }
}

/// Folding a guess never lowers the lower bound of any letter, and lifts
/// it to the number of copies that the guess proves at least.
pub proof fn lemma_min_never_decreases(
    bounds: Map<char, LetterConstraint>,
    guess: Seq<LetterRevelation>,
    letter: char,
)
    requires
        guess.len() == WORD_LENGTH,
    ensures
        known_min(bounds, letter) <= known_min(fold_bounds(bounds, guess), letter),
        hits(guess, letter, guess.len() as int) <= known_min(fold_bounds(bounds, guess), letter),
{
    lemma_hits_bounds(guess, letter, guess.len() as int);
}

/// A guess gives an upper bound to those letters only that it marks
/// `Wrong` at some position. The upper bound of every other letter stays
/// as it was; a letter that the guess does not hold at all keeps all that
/// was known of it, and gets no entry where it had none.
pub proof fn lemma_max_only_from_absent(
    bounds: Map<char, LetterConstraint>,
    guess: Seq<LetterRevelation>,
    letter: char,
)
    requires
        guess.len() == WORD_LENGTH,
    ensures
        !has_absent(guess, letter) ==> known_max(fold_bounds(bounds, guess), letter) == known_max(
            bounds,
            letter,
        ),
        !occurs(guess, letter) ==> {
            &&& fold_bounds(bounds, guess).contains_key(letter) == bounds.contains_key(letter)
            &&& bounds.contains_key(letter) ==> fold_bounds(bounds, guess)[letter] == bounds[letter]
        },
{
    lemma_hits_bounds(guess, letter, guess.len() as int);
}

/// Every letter has a code point of its own, from which the letter can be
/// had back.
pub proof fn lemma_code_point(letter: char)
    ensures
        is_code_point(letter as u32),
        (letter as u32) as char == letter,
{
}

/// Tells whether `list` holds `rev`.
fn holds(list: &Vec<LetterRevelation>, rev: &LetterRevelation) -> (r: bool)
    ensures
        r == list@.contains(*rev),
{
    let mut i: usize = 0;
    while i < list.len()
        invariant
            i <= list.len(),
            forall|j: int| 0 <= j < i ==> list@[j] != *rev,
        decreases list.len() - i,
    {
        if list[i] == *rev {
            return true;
        }
        i += 1;
    }
    false
}

/// Counts the copies of the letter with code point `key` in `word`.
fn count_letter(word: &Vec<char>, key: u32) -> (r: usize)
    requires
        is_code_point(key),
    ensures
        r == occurrences(word@, key as char, word@.len() as int),
{
    let mut r: usize = 0;
    let mut i: usize = 0;
    while i < word.len()
        invariant
            i <= word.len(),
            r <= i,
            is_code_point(key),
            r == occurrences(word@, key as char, i as int),
        decreases word.len() - i,
    {
        proof {
            lemma_code_point(word@[i as int]);
        }
        if word[i] as u32 == key {
            r += 1;
        }
        i += 1;
    }
    r
}

/// Counts the positions of `guess` at which `letter` is `Correct` or
/// `Change`.
fn count_hits(guess: &Vec<LetterRevelation>, letter: char) -> (r: usize)
    ensures
        r == hits(guess@, letter, guess@.len() as int),
{
    let mut r: usize = 0;
    let mut i: usize = 0;
    while i < guess.len()
        invariant
            i <= guess.len(),
            r <= i,
            r == hits(guess@, letter, i as int),
        decreases guess.len() - i,
    {
        if guess[i].letter == letter && guess[i].state.hit() {
            r += 1;
        }
        i += 1;
    }
    r
}

/// Tells whether `guess` marks `letter` as `Wrong` at some position.
fn marks_absent(guess: &Vec<LetterRevelation>, letter: char) -> (r: bool)
    ensures
        r == has_absent(guess@, letter),
{
    let mut i: usize = 0;
    while i < guess.len()
        invariant
            i <= guess.len(),
            forall|j: int|
                0 <= j < i ==> !((#[trigger] guess@[j]).letter == letter && guess@[j].state
                    == State::Wrong),
        decreases guess.len() - i,
    {
        if guess[i].letter == letter && !guess[i].state.hit() {
            return true;
        }
        i += 1;
    }
    false
}

/// Tells whether `key` is the code point of a letter.
fn code_point(key: u32) -> (r: bool)
    ensures
        r == is_code_point(key),
{
    key < 0xD800 || (0xE000 <= key && key <= 0x10FFFF)
}

impl Default for Solver {
    /// A solver without candidates that has seen no feedback.
    fn default() -> (r: Solver)
        ensures
            r.possibilities@ == Seq::<String>::empty(),
            r.revelations@ == Seq::<LetterRevelation>::empty(),
            r.bounds() == Map::<char, LetterConstraint>::empty(),
    {
        Solver::new(Vec::new())
    }
}

impl Solver {
    /// The bounds on each letter's number of copies in the secret.
    pub open spec fn bounds(&self) -> Map<char, LetterConstraint> {
        bounds_of(self.constraints@)
    }

    /// A solver that has seen no feedback yet: every word of
    /// `possibilities` is a candidate.
    pub fn new(possibilities: Vec<String>) -> (r: Solver)
        ensures
            r.possibilities == possibilities,
            r.revelations@ == Seq::<LetterRevelation>::empty(),
            r.constraints@ == Map::<u32, LetterConstraint>::empty(),
            r.bounds() == Map::<char, LetterConstraint>::empty(),
    {
        let r = Solver { possibilities, revelations: Vec::new(), constraints: HashMap::new() };
        assert(r.bounds() =~= Map::<char, LetterConstraint>::empty());
        r
    }

    /// The bounds known for `letter`, if there are any.
    pub fn constraint(&self, letter: char) -> (r: Option<LetterConstraint>)
        ensures
            r == if self.bounds().contains_key(letter) {
                Some(self.bounds()[letter])
            } else {
                None
            },
    {
        broadcast use vstd::std_specs::hash::group_hash_axioms;

        let key: u32 = letter as u32;
        match self.constraints.get(&key) {
            Some(constraint) => Some(*constraint),
            None => None,
        }
    }

    /// The number of candidate words that are left.
    pub fn number_of_possibilities(&self) -> (r: usize)
        ensures
            r == self.possibilities@.len(),
    {
        self.possibilities.len()
    }

    /// Records one letter revelation in the history, unless the very same
    /// revelation is there already. The bounds and the candidates stay as
    /// they are: bounds are learnt from a whole guess only.
    ///
    /// A revelation whose index lies outside the word is refused as an
    /// `IllegalRevelation`, and nothing changes.
    pub fn add_revelation(&mut self, rev: &LetterRevelation) -> (r: Result<(), WordleError>)
        ensures
            r is Ok <==> rev.index < WORD_LENGTH,
            r is Ok ==> final(self).revelations@ == record(old(self).revelations@, *rev),
            r matches Err(e) ==> e == WordleError::IllegalRevelation && final(self).revelations@
                == old(self).revelations@,
            final(self).constraints == old(self).constraints,
            final(self).possibilities == old(self).possibilities,
    {
        if rev.index >= WORD_LENGTH {
            return Err(WordleError::IllegalRevelation);
        }
        if !holds(&self.revelations, rev) {
            self.revelations.push(*rev);
        }
        Ok(())
    }

    /// Tells whether `word` agrees with one recorded letter revelation.
    fn position_fits(&self, word: &Vec<char>, rev: &LetterRevelation) -> (r: bool)
        ensures
            r == position_ok(self.bounds(), word@, *rev),
    {
        broadcast use vstd::std_specs::hash::group_hash_axioms;

        let here = rev.index < word.len() && word[rev.index] == rev.letter;
        match rev.state {
            State::Correct => here,
            State::Change => !here,
            State::Wrong => {
                if !here {
                    true
                } else {
                    let key: u32 = rev.letter as u32;
                    match self.constraints.get(&key) {
                        Some(constraint) => match constraint.max {
                            Some(m) => m > 0,
                            None => false,
                        },
                        None => false,
                    }
                }
            },
        }
    }

    /// Tells whether `word` is consistent with all that is known.
    pub fn filter_word(&self, word: &str) -> (r: bool)
        ensures
            r == accepts(self.revelations@, self.bounds(), word@),
    {
        broadcast use vstd::std_specs::hash::group_hash_axioms;

        let w = letters(word);
        let mut i: usize = 0;
        while i < self.revelations.len()
            invariant
                i <= self.revelations.len(),
                w@ == word@,
                forall|j: int|
                    0 <= j < i ==> position_ok(
                        self.bounds(),
                        word@,
                        #[trigger] self.revelations@[j],
                    ),
            decreases self.revelations.len() - i,
        {
            if !self.position_fits(&w, &self.revelations[i]) {
                return false;
            }
            i += 1;
        }
        let ghost entries = self.constraints.iter().remaining();
        let ghost mut seen: int = 0;
        for entry in it: self.constraints.iter()
            invariant
                w@ == word@,
                it.seq() == entries,
                seen == it.index(),
                forall|j: int|
                    0 <= j < seen && is_code_point(*(#[trigger] entries[j]).0) ==> count_ok(
                        *entries[j].1,
                        occurrences(word@, *entries[j].0 as char, word@.len() as int),
                    ),
        {
            let (key, constraint) = entry;
            if code_point(*key) {
                let count = count_letter(&w, *key);
                let fits = count >= constraint.min && match constraint.max {
                    Some(m) => count <= m,
                    None => true,
                };
                if !fits {
                    proof {
                        let letter = *key as char;
                        assert(entry == it.seq()[it.index()]);
                        assert(self.constraints@.contains_key(*key));
                        assert(self.constraints@[*key] == *constraint);
                        assert(self.bounds().contains_key(letter));
                        assert(self.bounds()[letter] == *constraint);
                    }
                    return false;
                }
            }
            proof {
                seen = seen + 1;
            }
        }
        proof {
            assert(seen == entries.len());
            assert forall|letter: char| #[trigger]
                self.bounds().contains_key(letter) implies count_ok(
                self.bounds()[letter],
                occurrences(word@, letter, word@.len() as int),
            ) by {
                let key = letter as u32;
                let value = self.constraints@[key];
                lemma_code_point(letter);
                assert(self.constraints@.contains_key(key));
                assert(entries.contains((&key, &value)));
                let j = choose|j: int| 0 <= j < entries.len() && entries[j] == (&key, &value);
                assert(*entries[j].0 == key);
                assert(key as char == letter);
            }
        }
        true
    }

    /// The words of `candidates` that are consistent with all that is
    /// known, in their order. Neither the candidates nor the solver change.
    pub fn filter(&self, candidates: &Vec<String>) -> (r: Vec<String>)
        ensures
            r@ == survivors(candidates@, self.revelations@, self.bounds()),
    {
        let mut r: Vec<String> = Vec::new();
        let mut i: usize = 0;
        proof {
            reveal(Seq::filter);
            assert(candidates@.take(0) =~= Seq::<String>::empty());
        }
        while i < candidates.len()
            invariant
                i <= candidates.len(),
                r@ == survivors(candidates@.take(i as int), self.revelations@, self.bounds()),
            decreases candidates.len() - i,
        {
            proof {
                lemma_survivors_step(candidates@, self.revelations@, self.bounds(), i as int);
            }
            if self.filter_word(candidates[i].as_str()) {
                r.push(candidates[i].clone());
            }
            i += 1;
        }
        assert(candidates@.take(candidates@.len() as int) =~= candidates@);
        r
    }

    /// The candidate words that are still consistent with all that is
    /// known, in their order.
    pub fn filtering_possibilities(&self) -> (r: Vec<String>)
        ensures
            r@ == survivors(self.possibilities@, self.revelations@, self.bounds()),
    {
        self.filter(&self.possibilities)
    }

    /// Folds the feedback on one guess into the solver.
    ///
    /// Each of the five letter revelations is recorded in the history,
    /// unless the very same revelation is there already. Whether recorded
    /// anew or not, the guess then updates the bounds of each of its
    /// letters as `folded` says, and the candidates are filtered against
    /// the new state.
    ///
    /// No candidate comes back that an earlier guess had removed, no lower
    /// bound ever decreases, and only a letter that the guess marks `Wrong`
    /// at some position gets an upper bound from it.
    pub fn add_revelations(&mut self, revelations: &WordRevelation)
        ensures
            final(self).revelations@ == record_all(
                old(self).revelations@,
                revelations@,
                WORD_LENGTH as int,
            ),
            final(self).bounds() == fold_bounds(old(self).bounds(), revelations@),
            final(self).possibilities@ == survivors(
                old(self).possibilities@,
                final(self).revelations@,
                final(self).bounds(),
            ),
            forall|word: String| #[trigger]
                final(self).possibilities@.contains(word) ==> old(self).possibilities@.contains(
                    word,
                ),
            final(self).possibilities@.len() <= old(self).possibilities@.len(),
            forall|letter: char|
                known_min(old(self).bounds(), letter) <= #[trigger] known_min(
                    final(self).bounds(),
                    letter,
                ),
            forall|letter: char|
                !has_absent(revelations@, letter) ==> #[trigger] known_max(
                    final(self).bounds(),
                    letter,
                ) == known_max(old(self).bounds(), letter),
    {
        broadcast use vstd::std_specs::hash::group_hash_axioms;

        let guess = revelations.to_vec();
        let ghost bounds = self.bounds();
        let mut i: usize = 0;
        while i < WORD_LENGTH
            invariant
                i <= WORD_LENGTH,
                guess@ == revelations@,
                revelations.wf(),
                self.revelations@ == record_all(old(self).revelations@, revelations@, i as int),
                self.constraints == old(self).constraints,
                self.possibilities == old(self).possibilities,
            decreases WORD_LENGTH - i,
        {
            let _ = self.add_revelation(&guess[i]);
            i += 1;
        }
        let mut i: usize = 0;
        while i < WORD_LENGTH
            invariant
                i <= WORD_LENGTH,
                guess@ == revelations@,
                revelations.wf(),
                bounds == old(self).bounds(),
                self.revelations@ == record_all(
                    old(self).revelations@,
                    revelations@,
                    WORD_LENGTH as int,
                ),
                self.possibilities == old(self).possibilities,
                forall|letter: char| #[trigger]
                    self.bounds().contains_key(letter) <==> bounds.contains_key(letter) || occurs(
                        guess@.take(i as int),
                        letter,
                    ),
                forall|letter: char| #[trigger]
                    self.bounds().contains_key(letter) ==> self.bounds()[letter] == if occurs(
                        guess@.take(i as int),
                        letter,
                    ) {
                        folded(bounds, guess@, letter)
                    } else {
                        bounds[letter]
                    },
            decreases WORD_LENGTH - i,
        {
            let letter = guess[i].letter;
            let key: u32 = letter as u32;
            let seen = count_hits(&guess, letter);
            let absent = marks_absent(&guess, letter);
            let (min, max) = match self.constraints.get(&key) {
                Some(constraint) => (constraint.min, constraint.max),
                None => (0, None),
            };
            let ghost before = self.bounds();
            let constraint = LetterConstraint {
                min: if min >= seen {
                    min
                } else {
                    seen
                },
                max: if absent {
                    Some(seen)
                } else {
                    max
                },
            };
            proof {
                lemma_code_point(letter);
                assert(before.contains_key(letter) == self.constraints@.contains_key(key));
                assert(constraint == folded(bounds, guess@, letter));
            }
            self.constraints.insert(key, constraint);
            proof {
                let shorter = guess@.take(i as int);
                let longer = guess@.take(i + 1);
                assert(longer[i as int].letter == letter);
                assert forall|other: char| occurs(longer, other) <==> (occurs(shorter, other)
                    || other == letter) by {
                    if occurs(shorter, other) {
                        let j = choose|j: int|
                            0 <= j < shorter.len() && (#[trigger] shorter[j]).letter == other;
                        assert(longer[j].letter == other);
                    }
                    if occurs(longer, other) && other != letter {
                        let j = choose|j: int|
                            0 <= j < longer.len() && (#[trigger] longer[j]).letter == other;
                        assert(shorter[j].letter == other);
                    }
                }
                assert forall|other: char| #[trigger]
                    self.bounds().contains_key(other) <==> before.contains_key(other) || other
                        == letter by {
                    lemma_code_point(other);
                }
                assert forall|other: char| #[trigger]
                    self.bounds().contains_key(other) implies self.bounds()[other] == if other
                    == letter {
                    constraint
                } else {
                    before[other]
                } by {
                    lemma_code_point(other);
                }
            }
            i += 1;
        }
        proof {
            assert(guess@.take(WORD_LENGTH as int) =~= guess@);
            assert forall|letter: char| #[trigger]
                self.bounds().contains_key(letter) implies self.bounds()[letter] == folded(
                bounds,
                guess@,
                letter,
            ) by {
                lemma_hits_bounds(guess@, letter, WORD_LENGTH as int);
            }
            assert(self.bounds() =~= fold_bounds(bounds, revelations@));
            assert forall|letter: char|
                known_min(bounds, letter) <= #[trigger] known_min(self.bounds(), letter) by {
                lemma_min_never_decreases(bounds, revelations@, letter);
            }
            assert forall|letter: char|
                !has_absent(revelations@, letter) implies #[trigger] known_max(
                self.bounds(),
                letter,
            ) == known_max(bounds, letter) by {
                lemma_max_only_from_absent(bounds, revelations@, letter);
            }
        }
        proof {
            let keep = |word: String| accepts(self.revelations@, self.bounds(), word@);
            lemma_filter_subset(self.possibilities@, keep);
            self.possibilities@.lemma_filter_len(keep);
        }
        self.possibilities = self.filtering_possibilities();
    }
}

} // verus!
