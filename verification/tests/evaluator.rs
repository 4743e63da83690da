use wordle::modules::config::Config;
use wordle::modules::error::WordleError;
use wordle::modules::revelation::{LetterRevelation, WordRevelation};
use wordle::modules::state::State;

fn config(secret: &str) -> Config {
    Config {
        _file_path: String::new(),
        content: vec![secret.to_string()],
        chosen_word: secret.to_string(),
    }
}

fn states(secret: &str, guess: &str) -> Vec<State> {
    config(secret).check(guess).unwrap().to_vec().iter().map(|r| r.state).collect()
}

#[test]
fn erase_against_speed() {
    assert_eq!(
        states("ERASE", "SPEED"),
        vec![State::Change, State::Wrong, State::Change, State::Change, State::Wrong]
    );
}

#[test]
fn alloy_against_llama() {
    assert_eq!(
        states("ALLOY", "LLAMA"),
        vec![State::Change, State::Correct, State::Change, State::Wrong, State::Wrong]
    );
}

#[test]
fn feedback_has_one_entry_per_position_in_order() {
    let feedback = config("crane").check("nacre").unwrap().to_vec();
    assert_eq!(feedback.len(), 5);
    for (i, rev) in feedback.iter().enumerate() {
        assert_eq!(rev.index, i);
        assert_eq!(rev.letter, "nacre".chars().nth(i).unwrap());
    }
}

#[test]
fn guessing_the_secret_is_all_correct() {
    for word in ["tests", "apple", "zzzzz", "ERASE"] {
        assert_eq!(states(word, word), vec![State::Correct; 5]);
    }
}

#[test]
fn no_shared_letter_is_all_wrong() {
    assert_eq!(states("abcde", "fghij"), vec![State::Wrong; 5]);
}

#[test]
fn a_wrong_letter_does_not_spend_the_pool() {
    // The first letter is absent; the second must still find the secret's `a`.
    assert_eq!(
        states("abcde", "xayyy"),
        vec![State::Wrong, State::Change, State::Wrong, State::Wrong, State::Wrong]
    );
}

#[test]
fn exact_matches_are_credited_before_misplaced_ones() {
    // The secret has one `e`, matched exactly at the end: the earlier `e` of the guess gets none.
    assert_eq!(
        states("apple", "eagle"),
        vec![State::Wrong, State::Change, State::Wrong, State::Correct, State::Correct]
    );
}

#[test]
fn check_refuses_a_guess_of_another_length() {
    assert_eq!(config("apple").check("app"), Err(WordleError::InvalidLength));
    assert_eq!(config("apple").check("apples"), Err(WordleError::InvalidLength));
    assert_eq!(config("apple").check(""), Err(WordleError::InvalidLength));
}

#[test]
fn check_refuses_a_secret_of_another_length() {
    assert_eq!(config("app").check("apple"), Err(WordleError::InvalidLength));
    assert_eq!(config("").check("apple"), Err(WordleError::InvalidLength));
}

#[test]
fn letters_are_counted_by_character() {
    assert_eq!(
        states("écrit", "chérí"),
        vec![State::Change, State::Wrong, State::Change, State::Change, State::Wrong]
    );
}

#[test]
fn check_leaves_the_secret_alone() {
    let c = config("erase");
    let _ = c.check("speed");
    assert_eq!(c.chosen_word, "erase");
    assert_eq!(states("erase", "speed"), states("erase", "speed"));
}

#[test]
fn get_correct_uses_up_the_matching_cell() {
    let mut pool = vec![Some('a'), Some('b'), Some('a')];
    let r = LetterRevelation::get_correct(&mut pool, 'a', 2);
    assert_eq!(r, Some(LetterRevelation { index: 2, letter: 'a', state: State::Correct }));
    assert_eq!(pool, vec![Some('a'), Some('b'), None]);
}

#[test]
fn get_correct_reveals_nothing_without_a_match() {
    let mut pool = vec![Some('a'), Some('b'), None];
    assert_eq!(LetterRevelation::get_correct(&mut pool, 'a', 1), None);
    assert_eq!(LetterRevelation::get_correct(&mut pool, 'a', 2), None);
    assert_eq!(LetterRevelation::get_correct(&mut pool, 'a', 7), None);
    assert_eq!(pool, vec![Some('a'), Some('b'), None]);
}

#[test]
fn get_incorrect_uses_up_the_first_copy() {
    let mut pool = vec![Some('b'), Some('a'), None, Some('a')];
    let r = LetterRevelation::get_incorrect(&mut pool, 'a', 0);
    assert_eq!(r, LetterRevelation { index: 0, letter: 'a', state: State::Change });
    assert_eq!(pool, vec![Some('b'), None, None, Some('a')]);
    let r = LetterRevelation::get_incorrect(&mut pool, 'a', 1);
    assert_eq!(r.state, State::Change);
    assert_eq!(pool, vec![Some('b'), None, None, None]);
}

#[test]
fn get_incorrect_leaves_the_pool_when_the_letter_is_gone() {
    let mut pool = vec![Some('b'), None];
    let r = LetterRevelation::get_incorrect(&mut pool, 'a', 1);
    assert_eq!(r, LetterRevelation { index: 1, letter: 'a', state: State::Wrong });
    assert_eq!(pool, vec![Some('b'), None]);
}

fn rev(index: usize, letter: char, state: State) -> LetterRevelation {
    LetterRevelation { index, letter, state }
}

#[test]
fn word_revelation_keeps_its_entries() {
    let entries: Vec<LetterRevelation> =
        "tests".chars().enumerate().map(|(i, c)| rev(i, c, State::Wrong)).collect();
    let w = WordRevelation::new(entries.clone()).unwrap();
    assert_eq!(w.to_vec(), entries);
    assert_eq!(w.get(3), Some(entries[3]));
    assert_eq!(w.get(5), None);
}

#[test]
fn word_revelation_refuses_a_wrong_number_of_entries() {
    let mut entries: Vec<LetterRevelation> =
        "tests".chars().enumerate().map(|(i, c)| rev(i, c, State::Wrong)).collect();
    entries.push(rev(5, 'x', State::Wrong));
    assert_eq!(WordRevelation::new(entries.clone()), Err(WordleError::IllegalRevelation));
    entries.truncate(4);
    assert_eq!(WordRevelation::new(entries), Err(WordleError::IllegalRevelation));
    assert_eq!(WordRevelation::new(vec![]), Err(WordleError::IllegalRevelation));
}

#[test]
fn word_revelation_refuses_entries_out_of_place() {
    let mut entries: Vec<LetterRevelation> =
        "tests".chars().enumerate().map(|(i, c)| rev(i, c, State::Wrong)).collect();
    entries.swap(1, 2);
    assert_eq!(WordRevelation::new(entries), Err(WordleError::IllegalRevelation));
    let entries: Vec<LetterRevelation> =
        "tests".chars().enumerate().map(|(i, c)| rev(i + 1, c, State::Wrong)).collect();
    assert_eq!(WordRevelation::new(entries), Err(WordleError::IllegalRevelation));
}

#[test]
fn word_exists_looks_the_word_up() {
    let c = Config {
        _file_path: String::new(),
        content: vec!["apple".to_string(), "grape".to_string()],
        chosen_word: "apple".to_string(),
    };
    assert!(c.word_exists("grape"));
    assert!(c.word_exists("apple"));
    assert!(!c.word_exists("table"));
    assert!(!c.word_exists("grap"));
    assert!(!c.word_exists(""));
}

#[test]
fn a_word_revelation_hands_its_entries_out_in_order() {
    let entries: Vec<LetterRevelation> =
        "tests".chars().enumerate().map(|(i, c)| rev(i, c, State::Change)).collect();
    let w = WordRevelation::new(entries.clone()).unwrap();
    let mut seen = vec![];
    for r in &w {
        seen.push(*r);
    }
    assert_eq!(seen, entries);
    let owned: Vec<LetterRevelation> = w.into_iter().collect();
    assert_eq!(owned, entries);
}
