use crate::modules::error::WordleError;
use crate::modules::state::State;
use vstd::prelude::*;
use vstd::std_specs::iter::IteratorSpec;

verus! {

/// Every word of the game has this many letters.
pub const WORD_LENGTH: usize = 5;

/// What a guess revealed about the letter at one of its positions.
#[derive(Debug, Clone, Copy, PartialEq, Eq, Structural)]
pub struct LetterRevelation {
    pub index: usize,
    pub letter: char,
    pub state: State,
}

/// The position of the first cell of `pool` that still holds `letter`, or the
/// length of `pool` when no cell does.
pub open spec fn first_unused(pool: Seq<Option<char>>, letter: char) -> int
    decreases pool.len(),
{
    if pool.len() == 0 {
        0
    } else if pool[0] == Some(letter) {
        0
    } else {
        1 + first_unused(pool.drop_first(), letter)
    }
}

/// The pool still holds a copy of `letter`.
pub open spec fn has_unused(pool: Seq<Option<char>>, letter: char) -> bool {
    first_unused(pool, letter) < pool.len()
}

/// The cell at position `at` of the pool still holds `letter`.
pub open spec fn holds_at(pool: Seq<Option<char>>, at: int, letter: char) -> bool {
    0 <= at < pool.len() && pool[at] == Some(letter)
}

/// The number of cells among the first `upto` of `pool` that still hold
/// `letter`.
pub open spec fn unused(pool: Seq<Option<char>>, letter: char, upto: int) -> nat
    decreases upto,
{
    if upto <= 0 {
        0
    } else {
        let here: nat = if pool[upto - 1] == Some(letter) {
            1
        } else {
            0
        };
        unused(pool, letter, upto - 1) + here
    }
}

/// A position that holds the letter and that no such position precedes is
/// the first one; the length stands for "none".
pub proof fn lemma_first_unused(pool: Seq<Option<char>>, letter: char, at: int)
    requires
        0 <= at <= pool.len(),
        forall|j: int| 0 <= j < at ==> pool[j] != Some(letter),
        at < pool.len() ==> pool[at] == Some(letter),
    ensures
        first_unused(pool, letter) == at,
    decreases pool.len(),
{
    if pool.len() > 0 && at > 0 {
        let rest = pool.drop_first();
        assert(pool[0] != Some(letter));
        assert forall|j: int| 0 <= j < at - 1 implies rest[j] != Some(letter) by {
            assert(rest[j] == pool[j + 1]);
        }
        lemma_first_unused(rest, letter, at - 1);
    }
}

/// `first_unused` lies within the pool or at its end; no cell before it
/// holds the letter, and the cell at it, if there is one, does.
pub proof fn lemma_first_unused_is_first(pool: Seq<Option<char>>, letter: char)
    ensures
        0 <= first_unused(pool, letter) <= pool.len(),
        forall|j: int| 0 <= j < first_unused(pool, letter) ==> pool[j] != Some(letter),
        first_unused(pool, letter) < pool.len() ==> pool[first_unused(pool, letter)] == Some(
            letter,
        ),
    decreases pool.len(),
{
    if pool.len() > 0 && pool[0] != Some(letter) {
        let rest = pool.drop_first();
        lemma_first_unused_is_first(rest, letter);
        assert forall|j: int| 0 <= j < first_unused(pool, letter) implies pool[j] != Some(
            letter,
        ) by {
            if j > 0 {
                assert(pool[j] == rest[j - 1]);
            }
        }
    }
}

/// Where no cell among the first `upto` holds the letter, none is counted;
/// where one does, at least one is.
pub proof fn lemma_unused_sign(pool: Seq<Option<char>>, letter: char, upto: int)
    requires
        0 <= upto <= pool.len(),
    ensures
        unused(pool, letter, upto) > 0 <==> exists|j: int|
            0 <= j < upto && pool[j] == Some(letter),
    decreases upto,
{
    if upto > 0 {
        lemma_unused_sign(pool, letter, upto - 1);
        if pool[upto - 1] == Some(letter) {
            assert(0 <= upto - 1 < upto && pool[upto - 1] == Some(letter));
        }
    }
}

/// Using up the cell at `at` takes one copy of the letter it held out of the
/// count and leaves the counts of all other letters alone.
pub proof fn lemma_unused_update(pool: Seq<Option<char>>, at: int, letter: char, upto: int)
    requires
        0 <= at < pool.len(),
        0 <= upto <= pool.len(),
    ensures
        unused(pool.update(at, None), letter, upto) + (if at < upto && pool[at] == Some(letter) {
            1nat
        } else {
            0nat
        }) == unused(pool, letter, upto),
    decreases upto,
{
    if upto > 0 {
        lemma_unused_update(pool, at, letter, upto - 1);
    }
}

impl LetterRevelation {
    /// The exact-match step for one letter of a guess.
    ///
    /// `true_word` is the pool of the secret's letters that no guess letter
    /// has been credited with yet, each at its position in the secret. When
    /// the cell at `guessed_index` still holds `guessed_letter`, the letter is
    /// `Correct` and the cell is used up; otherwise nothing is revealed and
    /// the pool stays as it was.
    pub fn get_correct(
        true_word: &mut Vec<Option<char>>,
        guessed_letter: char,
        guessed_index: usize,
    ) -> (r: Option<LetterRevelation>)
        ensures
            r is Some <==> holds_at(old(true_word)@, guessed_index as int, guessed_letter),
            r matches Some(rev) ==> {
                &&& rev == (LetterRevelation {
                    index: guessed_index,
                    letter: guessed_letter,
                    state: State::Correct,
                })
                &&& final(true_word)@ == old(true_word)@.update(guessed_index as int, None)
            },
            r is None ==> final(true_word)@ == old(true_word)@,
    {
        if guessed_index < true_word.len() {
            let cell: Option<char> = true_word[guessed_index];
            match cell {
                Some(c) => {
                    if c == guessed_letter {
                        true_word.set(guessed_index, None);
                        return Some(
                            LetterRevelation {
                                index: guessed_index,
                                letter: guessed_letter,
                                state: State::Correct,
                            },
                        );
                    }
                },
                None => {},
            }
        }
        None
    }

    /// The remaining-occurrence step for one letter of a guess that is not an
    /// exact match.
    ///
    /// When the pool `true_word` still holds a copy of `guessed_letter`, the
    /// letter is `Change` (it occurs elsewhere in the secret) and the first
    /// such copy is used up; otherwise the letter is `Wrong` and the pool
    /// stays as it was.
    pub fn get_incorrect(
        true_word: &mut Vec<Option<char>>,
        guessed_letter: char,
        guessed_index: usize,
    ) -> (r: LetterRevelation)
        ensures
            r.index == guessed_index,
            r.letter == guessed_letter,
            r.state == if has_unused(old(true_word)@, guessed_letter) {
                State::Change
            } else {
                State::Wrong
            },
            final(true_word)@ == if has_unused(old(true_word)@, guessed_letter) {
                old(true_word)@.update(first_unused(old(true_word)@, guessed_letter), None)
            } else {
                old(true_word)@
            },
    {
        let mut state = State::Wrong;
        let mut i: usize = 0;
        while i < true_word.len()
            invariant_except_break
                state == State::Wrong,
            invariant
                i <= true_word.len(),
                true_word@ == old(true_word)@,
                forall|j: int| 0 <= j < i ==> true_word@[j] != Some(guessed_letter),
            ensures
                i <= true_word.len(),
                true_word@ == old(true_word)@,
                forall|j: int| 0 <= j < i ==> true_word@[j] != Some(guessed_letter),
                i < true_word.len() ==> true_word@[i as int] == Some(guessed_letter),
                state == if i < true_word.len() {
                    State::Change
                } else {
                    State::Wrong
                },
            decreases true_word.len() - i,
        {
            let cell: Option<char> = true_word[i];
            let found = match cell {
                Some(c) => c == guessed_letter,
                None => false,
            };
            if found {
                state = State::Change;
                break ;
            }
            i += 1;
        }
        proof {
            lemma_first_unused(true_word@, guessed_letter, i as int);
        }
        if i < true_word.len() {
            true_word.set(i, None);
        }
        LetterRevelation { letter: guessed_letter, index: guessed_index, state }
    }
}

/// What makes five letter revelations the feedback on one guess: one entry
/// per position of the word, in the order of the positions.
pub open spec fn well_formed(entries: Seq<LetterRevelation>) -> bool {
    &&& entries.len() == WORD_LENGTH
    &&& forall|i: int| 0 <= i < entries.len() ==> (#[trigger] entries[i]).index == i
}

/// The feedback on one whole guess: five letter revelations, the one at
/// position `i` speaking of the guess's letter at position `i`.
#[derive(Debug, Clone, Copy, PartialEq, Eq)]
pub struct WordRevelation([LetterRevelation; 5]);

impl View for WordRevelation {
    type V = Seq<LetterRevelation>;

    closed spec fn view(&self) -> Seq<LetterRevelation> {
        self.0@
    }
}

impl IntoIterator for WordRevelation {
    type Item = LetterRevelation;

    type IntoIter = std::vec::IntoIter<LetterRevelation>;

    /// Hands the five letter revelations out, in the order of their
    /// positions.
    fn into_iter(self) -> (r: Self::IntoIter)
        ensures
            r.remaining() == self@,
    {
        self.to_vec().into_iter()
    }
}

impl<'a> IntoIterator for &'a WordRevelation {
    type Item = &'a LetterRevelation;

    type IntoIter = core::slice::Iter<'a, LetterRevelation>;

    /// Shows the five letter revelations, in the order of their positions.
    fn into_iter(self) -> (r: Self::IntoIter)
        ensures
            r.remaining() == self@.as_ref(),
    {
        (&self.0).into_iter()
    }
}

impl WordRevelation {
    /// Holds of every word revelation that exists at run time.
    #[verifier::type_invariant]
    pub open spec fn wf(&self) -> bool {
        well_formed(self@)
    }

    /// Builds the feedback on a guess from its five letter revelations.
    ///
    /// Anything but five entries whose indices are 0, 1, 2, 3, 4 in this
    /// order is refused as an `IllegalRevelation`.
    pub fn new(v: Vec<LetterRevelation>) -> (r: Result<WordRevelation, WordleError>)
        ensures
            r is Ok <==> well_formed(v@),
            r matches Ok(w) ==> w@ == v@ && w.wf(),
            r matches Err(e) ==> e == WordleError::IllegalRevelation,
    {
        if v.len() != WORD_LENGTH {
            return Err(WordleError::IllegalRevelation);
        }
        let mut i: usize = 0;
        while i < WORD_LENGTH
            invariant
                i <= WORD_LENGTH,
                v@.len() == WORD_LENGTH,
                forall|j: int| 0 <= j < i ==> (#[trigger] v@[j]).index == j,
            decreases WORD_LENGTH - i,
        {
            if v[i].index != i {
                return Err(WordleError::IllegalRevelation);
            }
            i += 1;
        }
        let w = WordRevelation([v[0], v[1], v[2], v[3], v[4]]);
        assert(w@ =~= v@);
        Ok(w)
    }

    /// The letter revelation at position `index`, if the word has one.
    pub fn get(&self, index: usize) -> (r: Option<LetterRevelation>)
        ensures
            r == if index < WORD_LENGTH {
                Some(self@[index as int])
            } else {
                None
            },
            self.wf(),
    {
        proof {
            use_type_invariant(self);
        }
        if index < WORD_LENGTH {
            Some(self.0[index])
        } else {
            None
        }
    }

    /// The five letter revelations, in the order of their positions.
    pub fn to_vec(&self) -> (r: Vec<LetterRevelation>)
        ensures
            r@ == self@,
            self.wf(),
    {
        proof {
            use_type_invariant(self);
        }
        let r = vec![self.0[0], self.0[1], self.0[2], self.0[3], self.0[4]];
        assert(r@ =~= self@);
        r
    }
}

} // verus!
