use crate::modules::error::WordleError;
use crate::modules::evaluator::{evaluate, loose_copies, spare_copies};
use crate::modules::revelation::{
    first_unused, lemma_first_unused_is_first, lemma_unused_sign, lemma_unused_update, unused,
    well_formed, LetterRevelation, WordRevelation, WORD_LENGTH,
};
use crate::modules::state::State;
use crate::modules::words::{letters, spellings, split, split_words};
use rand::seq::IndexedRandom;
use vstd::prelude::*;

verus! {

/// A session's dictionary and the secret word chosen from it.
pub struct Config {
    pub _file_path: String,
    pub content: Vec<String>,
    pub chosen_word: String,
}

/// The pool of a secret of which no letter has been credited to a guess
/// yet.
spec fn fresh_pool(secret: Seq<char>) -> Seq<Option<char>> {
    Seq::new(secret.len(), |i: int| Some(secret[i]))
}

/// The pool of a secret once the exact matches of `guess` have used up
/// their letters.
spec fn pool_after_exact(secret: Seq<char>, guess: Seq<char>) -> Seq<Option<char>> {
    Seq::new(
        secret.len(),
        |i: int|
            if secret[i] == guess[i] {
                None
            } else {
                Some(secret[i])
            },
    )
}

/// The spare copies of `letter` that the loose copies of the guess before
/// position `upto` have not used up.
spec fn left_over(secret: Seq<char>, guess: Seq<char>, letter: char, upto: int) -> nat {
    let spare = spare_copies(secret, guess, letter, secret.len() as int);
    let loose = loose_copies(secret, guess, letter, upto);
    if loose >= spare {
        0
    } else {
        (spare - loose) as nat
    }
}

/// `list` holds, in ascending order of position, exactly those entries of
/// `feedback` that are `Correct` (for `exact`) or exactly those that are not
/// (for `!exact`).
spec fn selects(
    list: Seq<LetterRevelation>,
    feedback: Seq<LetterRevelation>,
    exact: bool,
) -> bool {
    &&& forall|k: int|
        0 <= k < list.len() ==> {
            &&& (#[trigger] list[k]).index < feedback.len()
            &&& list[k] == feedback[list[k].index as int]
            &&& (list[k].state == State::Correct) == exact
        }
    &&& forall|i: int|
        0 <= i < feedback.len() && ((#[trigger] feedback[i]).state == State::Correct) == exact
            ==> list.contains(feedback[i])
    &&& forall|j: int, k: int|
        0 <= j < k < list.len() ==> (#[trigger] list[j]).index < (#[trigger] list[k]).index
}

/// The pool that the exact matches leave holds as many copies of a letter
/// as the secret has spare ones.
proof fn lemma_pool_after_exact(secret: Seq<char>, guess: Seq<char>, letter: char, upto: int)
    requires
        secret.len() == guess.len(),
        0 <= upto <= secret.len(),
    ensures
        unused(pool_after_exact(secret, guess), letter, upto) == spare_copies(
            secret,
            guess,
            letter,
            upto,
        ),
    decreases upto,
{
    if upto > 0 {
        lemma_pool_after_exact(secret, guess, letter, upto - 1);
    }
}

/// Tells whether `list` has an entry for position `index`.
fn has_index(list: &Vec<LetterRevelation>, index: usize) -> (r: bool)
    ensures
        r == exists|k: int| 0 <= k < list@.len() && (#[trigger] list@[k]).index == index,
{
    let mut k: usize = 0;
    while k < list.len()
        invariant
            k <= list.len(),
            forall|j: int| 0 <= j < k ==> (#[trigger] list@[j]).index != index,
        decreases list.len() - k,
    {
        if list[k].index == index {
            return true;
        }
        k += 1;
    }
    false
}

/// The slot at `index` holds an entry of `list` that belongs there.
spec fn placed(
    slots: Seq<Option<LetterRevelation>>,
    list: Seq<LetterRevelation>,
    index: int,
) -> bool {
    exists|j: int|
        0 <= j < list.len() && (#[trigger] list[j]).index == index && slots[index] == Some(list[j])
}

/// Puts each entry of `list` into the slot of its index.
fn place(slots: &mut Vec<Option<LetterRevelation>>, list: &Vec<LetterRevelation>)
    requires
        forall|k: int| 0 <= k < list@.len() ==> (#[trigger] list@[k]).index < old(slots)@.len(),
    ensures
        final(slots)@.len() == old(slots)@.len(),
        forall|i: int|
            0 <= i < final(slots)@.len() ==> #[trigger] final(slots)@[i] == old(slots)@[i]
                || placed(final(slots)@, list@, i),
        forall|k: int|
            0 <= k < list@.len() ==> placed(
                final(slots)@,
                list@,
                (#[trigger] list@[k]).index as int,
            ),
{
    let mut n: usize = 0;
    while n < list.len()
        invariant
            n <= list.len(),
            slots@.len() == old(slots)@.len(),
            forall|k: int| 0 <= k < list@.len() ==> (#[trigger] list@[k]).index < slots@.len(),
            forall|i: int|
                0 <= i < slots@.len() ==> #[trigger] slots@[i] == old(slots)@[i] || placed(
                    slots@,
                    list@,
                    i,
                ),
            forall|k: int| 0 <= k < n ==> placed(slots@, list@, (#[trigger] list@[k]).index as int),
        decreases list.len() - n,
    {
        let entry = list[n];
        let ghost before = slots@;
        slots.set(entry.index, Some(entry));
        proof {
            assert(list@[n as int].index == entry.index && slots@[entry.index as int] == Some(
                list@[n as int],
            ));
            assert(placed(slots@, list@, entry.index as int));
            assert forall|i: int| 0 <= i < slots@.len() && i != entry.index && placed(
                before,
                list@,
                i,
            ) implies placed(slots@, list@, i) by {
                let j = choose|j: int|
                    0 <= j < list@.len() && (#[trigger] list@[j]).index == i && before[i] == Some(
                        list@[j],
                    );
                assert(list@[j].index == i && slots@[i] == Some(list@[j]));
            }
        }
        n += 1;
    }
}

/// Picks one of `words` at random, with `rand::seq::IndexedRandom::choose`
/// on the generator of `rand::rng`. Which word comes back is not known; it
/// is one of `words`, and there is none only where `words` is empty.
#[verifier::external_body]
pub(crate) fn choose_word(words: &Vec<String>) -> (r: Option<String>)
    ensures
        r is None <==> words@.len() == 0,
        r matches Some(word) ==> exists|i: int|
            0 <= i < words@.len() && (#[trigger] words@[i])@ == word@,
{
    let mut rng = rand::rng();
    words.choose(&mut rng).cloned()
}

impl Default for Config {
    /// A configuration without a dictionary and without a secret.
    fn default() -> (r: Config)
        ensures
            r._file_path@ == Seq::<char>::empty(),
            r.content@ == Seq::<String>::empty(),
            r.chosen_word@ == Seq::<char>::empty(),
    {
        Config { _file_path: String::new(), content: Vec::new(), chosen_word: String::new() }
    }
}

impl Config {
    /// The secret is a word of the dictionary.
    pub open spec fn secret_is_listed(&self) -> bool {
        exists|i: int|
            0 <= i < self.content@.len() && (#[trigger] self.content@[i])@ == self.chosen_word@
    }

    /// The configuration with the dictionary `content` and the secret
    /// `chosen_word`, if a secret was chosen.
    pub fn with_secret(
        file_path: String,
        content: Vec<String>,
        chosen_word: Option<String>,
    ) -> (r: Option<Config>)
        ensures
            r is Some <==> chosen_word is Some,
            r matches Some(config) ==> {
                &&& config._file_path == file_path
                &&& config.content == content
                &&& config.chosen_word == chosen_word->0
            },
    {
        match chosen_word {
            Some(chosen_word) => Some(Config { _file_path: file_path, content, chosen_word }),
            None => None,
        }
    }

    /// Reads the dictionary out of `contents`, word by word, and chooses
    /// the secret among its words at random.
    ///
    /// There is a configuration exactly when `contents` holds a word. Which
    /// word becomes the secret is left to chance.
    pub fn new(file_path: String, contents: String) -> (r: Option<Config>)
        ensures
            r is Some <==> split(contents@).len() > 0,
            r matches Some(config) ==> {
                &&& config._file_path == file_path
                &&& spellings(config.content@) == split(contents@)
                &&& config.secret_is_listed()
            },
    {
        let words = split_words(contents.as_str());
        assert(spellings(words@).len() == words@.len());
        let chosen_word = choose_word(&words);
        Config::with_secret(file_path, words, chosen_word)
    }

    /// The exact-match pass over a guess: the `Correct` entries of the
    /// feedback, in ascending order of position, each using up the letter of
    /// the secret that it matches.
    fn get_correct_revelations(
        &self,
        guessed_word: &Vec<char>,
        true_word: &mut Vec<Option<char>>,
    ) -> (r: Vec<LetterRevelation>)
        requires
            self.chosen_word@.len() == WORD_LENGTH,
            guessed_word@.len() == WORD_LENGTH,
            old(true_word)@ == fresh_pool(self.chosen_word@),
        ensures
            final(true_word)@ == pool_after_exact(self.chosen_word@, guessed_word@),
            selects(r@, evaluate(self.chosen_word@, guessed_word@), true),
    {
        let ghost secret = self.chosen_word@;
        let ghost guess = guessed_word@;
        let ghost feedback = evaluate(secret, guess);
        let mut r: Vec<LetterRevelation> = Vec::new();
        let mut i: usize = 0;
        while i < WORD_LENGTH
            invariant
                i <= WORD_LENGTH,
                secret == self.chosen_word@,
                guess == guessed_word@,
                feedback == evaluate(secret, guess),
                secret.len() == WORD_LENGTH,
                guess.len() == WORD_LENGTH,
                true_word@.len() == WORD_LENGTH,
                forall|k: int|
                    0 <= k < WORD_LENGTH ==> #[trigger] true_word@[k] == if k < i && secret[k]
                        == guess[k] {
                        None
                    } else {
                        Some(secret[k])
                    },
                forall|k: int|
                    0 <= k < r@.len() ==> {
                        &&& (#[trigger] r@[k]).index < i
                        &&& r@[k] == feedback[r@[k].index as int]
                        &&& r@[k].state == State::Correct
                    },
                forall|j: int|
                    0 <= j < i && (#[trigger] feedback[j]).state == State::Correct ==> r@.contains(
                        feedback[j],
                    ),
                forall|j: int, k: int|
                    0 <= j < k < r@.len() ==> (#[trigger] r@[j]).index < (#[trigger] r@[k]).index,
            decreases WORD_LENGTH - i,
        {
            let ghost listed = r@;
            match LetterRevelation::get_correct(true_word, guessed_word[i], i) {
                Some(rev) => {
                    r.push(rev);
                    assert(r@[listed.len() as int] == feedback[i as int]);
                },
                None => {},
            }
            proof {
                assert forall|j: int|
                    0 <= j < i + 1 && (#[trigger] feedback[j]).state
                        == State::Correct implies r@.contains(feedback[j]) by {
                    if j < i {
                        let k = choose|k: int| 0 <= k < listed.len() && listed[k] == feedback[j];
                        assert(r@[k] == feedback[j]);
                    } else {
                        assert(r@[listed.len() as int] == feedback[j]);
                    }
                }
            }
            i += 1;
        }
        assert(true_word@ =~= pool_after_exact(secret, guess));
        r
    }

    /// The remaining-occurrence pass over a guess: the entries of the
    /// feedback that are not `Correct`, in ascending order of position.
    /// The spare copies of a letter go to its loose copies from left to
    /// right.
    fn get_incorrect_revelation(
        &self,
        guessed_word: &Vec<char>,
        true_word: &mut Vec<Option<char>>,
        correct_revelations: &Vec<LetterRevelation>,
    ) -> (r: Vec<LetterRevelation>)
        requires
            self.chosen_word@.len() == WORD_LENGTH,
            guessed_word@.len() == WORD_LENGTH,
            old(true_word)@ == pool_after_exact(self.chosen_word@, guessed_word@),
            selects(correct_revelations@, evaluate(self.chosen_word@, guessed_word@), true),
        ensures
            selects(r@, evaluate(self.chosen_word@, guessed_word@), false),
    {
        let ghost secret = self.chosen_word@;
        let ghost guess = guessed_word@;
        let ghost feedback = evaluate(secret, guess);
        let mut r: Vec<LetterRevelation> = Vec::new();
        proof {
            assert forall|l: char| #[trigger]
                unused(true_word@, l, WORD_LENGTH as int) == left_over(secret, guess, l, 0) by {
                lemma_pool_after_exact(secret, guess, l, WORD_LENGTH as int);
            }
        }
        let mut i: usize = 0;
        while i < WORD_LENGTH
            invariant
                i <= WORD_LENGTH,
                secret == self.chosen_word@,
                guess == guessed_word@,
                feedback == evaluate(secret, guess),
                secret.len() == WORD_LENGTH,
                guess.len() == WORD_LENGTH,
                true_word@.len() == WORD_LENGTH,
                selects(correct_revelations@, feedback, true),
                forall|l: char| #[trigger]
                    unused(true_word@, l, WORD_LENGTH as int) == left_over(
                        secret,
                        guess,
                        l,
                        i as int,
                    ),
                forall|k: int|
                    0 <= k < r@.len() ==> {
                        &&& (#[trigger] r@[k]).index < i
                        &&& r@[k] == feedback[r@[k].index as int]
                        &&& r@[k].state != State::Correct
                    },
                forall|j: int|
                    0 <= j < i && (#[trigger] feedback[j]).state != State::Correct ==> r@.contains(
                        feedback[j],
                    ),
                forall|j: int, k: int|
                    0 <= j < k < r@.len() ==> (#[trigger] r@[j]).index < (#[trigger] r@[k]).index,
            decreases WORD_LENGTH - i,
        {
            let ghost listed = r@;
            let ghost pool = true_word@;
            let letter = guessed_word[i];
            let exact = has_index(correct_revelations, i);
            proof {
                if exact {
                    let k = choose|k: int|
                        0 <= k < correct_revelations@.len() && (
                        #[trigger] correct_revelations@[k]).index == i;
                    assert(correct_revelations@[k] == feedback[i as int]);
                } else if feedback[i as int].state == State::Correct {
                    assert(correct_revelations@.contains(feedback[i as int]));
                }
                assert(exact == (secret[i as int] == letter));
            }
            if !exact {
                let rev = LetterRevelation::get_incorrect(true_word, letter, i);
                proof {
                    let first = first_unused(pool, letter);
                    lemma_first_unused_is_first(pool, letter);
                    lemma_unused_sign(pool, letter, WORD_LENGTH as int);
                    assert(rev == feedback[i as int]);
                    assert forall|l: char| #[trigger]
                        unused(true_word@, l, WORD_LENGTH as int) == left_over(
                            secret,
                            guess,
                            l,
                            i + 1,
                        ) by {
                        if first < pool.len() {
                            lemma_unused_update(pool, first, l, WORD_LENGTH as int);
                        }
                    }
                }
                r.push(rev);
                assert(r@[listed.len() as int] == feedback[i as int]);
            }
            proof {
                assert forall|j: int|
                    0 <= j < i + 1 && (#[trigger] feedback[j]).state
                        != State::Correct implies r@.contains(feedback[j]) by {
                    if j < i {
                        let k = choose|k: int| 0 <= k < listed.len() && listed[k] == feedback[j];
                        assert(r@[k] == feedback[j]);
                    } else {
                        assert(r@[listed.len() as int] == feedback[j]);
                    }
                }
            }
            i += 1;
        }
        r
    }

    /// Evaluates a guess against the chosen word.
    ///
    /// Both words must have exactly five letters; anything else is refused
    /// as `InvalidLength`. The feedback has one entry per position of the
    /// guess, in order. Exact matches are found first, over the whole word;
    /// only then are the letters that the secret has left over handed out,
    /// from left to right, to the other letters of the guess. Neither word
    /// is changed.
    pub fn check(&self, guessed_word: &str) -> (r: Result<WordRevelation, WordleError>)
        ensures
            r is Ok <==> self.chosen_word@.len() == WORD_LENGTH && guessed_word@.len()
                == WORD_LENGTH,
            r matches Ok(w) ==> w@ == evaluate(self.chosen_word@, guessed_word@) && w.wf(),
            r matches Err(e) ==> e == WordleError::InvalidLength,
    {
        let secret = letters(self.chosen_word.as_str());
        let guess = letters(guessed_word);
        if secret.len() != WORD_LENGTH || guess.len() != WORD_LENGTH {
            return Err(WordleError::InvalidLength);
        }
        let ghost feedback = evaluate(secret@, guess@);
        let mut true_word: Vec<Option<char>> = Vec::new();
        let mut i: usize = 0;
        while i < WORD_LENGTH
            invariant
                i <= WORD_LENGTH,
                secret@.len() == WORD_LENGTH,
                true_word@.len() == i,
                forall|k: int| 0 <= k < i ==> #[trigger] true_word@[k] == Some(secret@[k]),
            decreases WORD_LENGTH - i,
        {
            true_word.push(Some(secret[i]));
            i += 1;
        }
        assert(true_word@ =~= fresh_pool(secret@));
        let correct_revelations = self.get_correct_revelations(&guess, &mut true_word);
        let else_revelations = self.get_incorrect_revelation(
            &guess,
            &mut true_word,
            &correct_revelations,
        );
        let mut slots: Vec<Option<LetterRevelation>> = vec![None, None, None, None, None];
        place(&mut slots, &correct_revelations);
        let ghost half = slots@;
        place(&mut slots, &else_revelations);
        proof {
            assert forall|p: int| 0 <= p < WORD_LENGTH implies #[trigger] slots@[p] == Some(
                feedback[p],
            ) by {
                if feedback[p].state == State::Correct {
                    assert(correct_revelations@.contains(feedback[p]));
                    let k = choose|k: int|
                        0 <= k < correct_revelations@.len() && correct_revelations@[k]
                            == feedback[p];
                    assert(correct_revelations@[k].index == p);
                    assert(half[p] == Some(feedback[p]));
                } else {
                    assert(else_revelations@.contains(feedback[p]));
                    let k = choose|k: int|
                        0 <= k < else_revelations@.len() && else_revelations@[k] == feedback[p];
                    assert(else_revelations@[k].index == p);
                }
            }
        }
        let revelations = vec![
            slots[0].unwrap(),
            slots[1].unwrap(),
            slots[2].unwrap(),
            slots[3].unwrap(),
            slots[4].unwrap(),
        ];
        assert(revelations@ =~= feedback);
        assert(well_formed(feedback));
        match WordRevelation::new(revelations) {
            Ok(w) => Ok(w),
            Err(_) => Err(WordleError::InvalidLength),
        }
    }

    /// Tells whether the dictionary holds `guessed_word`.
    pub fn word_exists(&self, guessed_word: &str) -> (r: bool)
        ensures
            r == exists|i: int|
                0 <= i < self.content@.len() && (#[trigger] self.content@[i])@ == guessed_word@,
    {
        let wanted = guessed_word.to_owned();
        let mut i: usize = 0;
        while i < self.content.len()
            invariant
                i <= self.content.len(),
                wanted@ == guessed_word@,
                forall|j: int| 0 <= j < i ==> (#[trigger] self.content@[j])@ != guessed_word@,
            decreases self.content.len() - i,
        {
            if self.content[i] == wanted {
                return true;
            }
            i += 1;
        }
        false
    }
}

} // verus!
