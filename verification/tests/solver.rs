use std::collections::HashMap;
use wordle::modules::config::Config;
use wordle::modules::error::WordleError;
use wordle::modules::revelation::{LetterRevelation, WordRevelation};
use wordle::modules::solver::{LetterConstraint, Solver};
use wordle::modules::state::State;

#[test]
fn correct_letter() {
    let mut solver = Solver::new(vec![]);
    solver
        .add_revelation(&LetterRevelation { index: 0, letter: 't', state: State::Correct })
        .unwrap();
    assert!(solver.filter_word("tests"));
}

#[test]
fn wrong_letter() {
    let mut solver = Solver::new(vec![]);
    solver
        .add_revelation(&LetterRevelation { index: 0, letter: 't', state: State::Wrong })
        .unwrap();
    assert!(!solver.filter_word("tests"));
}

#[test]
fn change_letter() {
    let mut solver = Solver::new(vec![]);
    solver
        .add_revelation(&LetterRevelation { index: 0, letter: 't', state: State::Change })
        .unwrap();
    assert!(!solver.filter_word("tests"));
}

#[test]
fn everything_correct() {
    let mut solver = Solver::new(vec![]);
    for (idx, c) in String::from("tests").chars().enumerate() {
        solver
            .add_revelation(&LetterRevelation { index: idx, letter: c, state: State::Correct })
            .unwrap();
    }
    assert!(solver.filter_word("tests"));
}

fn word(entries: [(char, State); 5]) -> WordRevelation {
    WordRevelation::new(
        entries
            .iter()
            .enumerate()
            .map(|(index, (letter, state))| LetterRevelation {
                index,
                letter: *letter,
                state: *state,
            })
            .collect(),
    )
    .unwrap()
}

#[test]
fn another_bug() {
    let solver = Solver::new(vec![]);
    let mut revelations: HashMap<String, WordRevelation> = Default::default();
    revelations.insert(
        String::from("tests"),
        WordRevelation::new(vec![
            LetterRevelation { index: 0, letter: 't', state: State::Wrong },
            LetterRevelation { index: 1, letter: 'e', state: State::Wrong },
            LetterRevelation { index: 2, letter: 's', state: State::Wrong },
            LetterRevelation { index: 3, letter: 't', state: State::Wrong },
            LetterRevelation { index: 4, letter: 's', state: State::Wrong },
        ])
        .unwrap(),
    );
    revelations.insert(
        String::from("clear"),
        WordRevelation::new(vec![
            LetterRevelation { index: 0, letter: 'c', state: State::Change },
            LetterRevelation { index: 1, letter: 'l', state: State::Wrong },
            LetterRevelation { index: 2, letter: 'e', state: State::Wrong },
            LetterRevelation { index: 3, letter: 'a', state: State::Wrong },
            LetterRevelation { index: 4, letter: 'r', state: State::Change },
        ])
        .unwrap(),
    );
    revelations.insert(
        String::from("blink"),
        WordRevelation::new(vec![
            LetterRevelation { index: 0, letter: 'b', state: State::Change },
            LetterRevelation { index: 1, letter: 'l', state: State::Wrong },
            LetterRevelation { index: 2, letter: 'i', state: State::Wrong },
            LetterRevelation { index: 3, letter: 'n', state: State::Wrong },
            LetterRevelation { index: 4, letter: 'k', state: State::Wrong },
        ])
        .unwrap(),
    );
    revelations.insert(
        String::from("tames"),
        WordRevelation::new(vec![
            LetterRevelation { index: 0, letter: 't', state: State::Wrong },
            LetterRevelation { index: 1, letter: 'a', state: State::Wrong },
            LetterRevelation { index: 2, letter: 'm', state: State::Wrong },
            LetterRevelation { index: 3, letter: 'e', state: State::Wrong },
            LetterRevelation { index: 4, letter: 's', state: State::Wrong },
        ])
        .unwrap(),
    );
    revelations.insert(
        String::from("humps"),
        WordRevelation::new(vec![
            LetterRevelation { index: 0, letter: 'h', state: State::Wrong },
            LetterRevelation { index: 1, letter: 'u', state: State::Wrong },
            LetterRevelation { index: 2, letter: 'm', state: State::Wrong },
            LetterRevelation { index: 3, letter: 'p', state: State::Wrong },
            LetterRevelation { index: 4, letter: 's', state: State::Wrong },
        ])
        .unwrap(),
    );
    assert_eq!(revelations.len(), 5);
    assert!(solver.filter_word("scrob"));
}

fn feedback(secret: &str, guess: &str) -> WordRevelation {
    Config { _file_path: String::new(), content: vec![], chosen_word: secret.to_string() }
        .check(guess)
        .unwrap()
}

fn dictionary(words: &[&str]) -> Vec<String> {
    words.iter().map(|w| w.to_string()).collect()
}

fn bound(solver: &Solver, letter: char) -> Option<LetterConstraint> {
    assert_eq!(solver.constraint(letter), solver.constraints.get(&(letter as u32)).copied());
    solver.constraint(letter)
}

#[test]
fn apple_grape_table() {
    let mut solver = Solver::new(dictionary(&["APPLE", "GRAPE", "TABLE"]));
    let revealed = feedback("APPLE", "GRAPE");
    let states: Vec<State> = revealed.to_vec().iter().map(|r| r.state).collect();
    assert_eq!(
        states,
        vec![State::Wrong, State::Wrong, State::Change, State::Change, State::Correct]
    );
    solver.add_revelations(&revealed);
    assert_eq!(bound(&solver, 'G'), Some(LetterConstraint { min: 0, max: Some(0) }));
    assert_eq!(bound(&solver, 'R'), Some(LetterConstraint { min: 0, max: Some(0) }));
    assert_eq!(bound(&solver, 'A'), Some(LetterConstraint { min: 1, max: None }));
    assert_eq!(bound(&solver, 'P'), Some(LetterConstraint { min: 1, max: None }));
    assert_eq!(bound(&solver, 'E'), Some(LetterConstraint { min: 1, max: None }));
    assert_eq!(solver.constraints.len(), 5);
    // TABLE has no P, of which the guess proved one copy.
    assert_eq!(solver.possibilities, dictionary(&["APPLE"]));
    assert_eq!(solver.number_of_possibilities(), 1);
    assert!(solver.filter_word("APPLE"));
    assert!(!solver.filter_word("GRAPE"));
    assert!(!solver.filter_word("TABLE"));
}

#[test]
fn a_new_solver_keeps_every_word() {
    let solver = Solver::new(dictionary(&["apple", "grape", "xy", ""]));
    assert_eq!(solver.number_of_possibilities(), 4);
    assert!(solver.revelations.is_empty());
    assert!(solver.constraints.is_empty());
    assert_eq!(solver.filtering_possibilities(), dictionary(&["apple", "grape", "xy", ""]));
    assert!(solver.filter_word("anything"));
}

#[test]
fn add_revelation_skips_an_exact_duplicate() {
    let mut solver = Solver::new(vec![]);
    let rev = LetterRevelation { index: 1, letter: 'e', state: State::Change };
    assert_eq!(solver.add_revelation(&rev), Ok(()));
    assert_eq!(solver.add_revelation(&rev), Ok(()));
    assert_eq!(solver.revelations, vec![rev]);
    // Another state at the same place is another revelation.
    let other = LetterRevelation { index: 1, letter: 'e', state: State::Wrong };
    assert_eq!(solver.add_revelation(&other), Ok(()));
    assert_eq!(solver.revelations, vec![rev, other]);
    assert!(solver.constraints.is_empty());
}

#[test]
fn add_revelation_refuses_an_index_outside_the_word() {
    let mut solver = Solver::new(dictionary(&["apple"]));
    let rev = LetterRevelation { index: 5, letter: 'e', state: State::Correct };
    assert_eq!(solver.add_revelation(&rev), Err(WordleError::IllegalRevelation));
    assert!(solver.revelations.is_empty());
    assert_eq!(solver.possibilities, dictionary(&["apple"]));
    let last = LetterRevelation { index: 4, letter: 'e', state: State::Correct };
    assert_eq!(solver.add_revelation(&last), Ok(()));
}

#[test]
fn the_same_guess_twice_is_recorded_once_and_folded_twice() {
    let mut solver = Solver::new(vec![]);
    let revealed = feedback("ERASE", "SPEED");
    solver.add_revelations(&revealed);
    let history = solver.revelations.clone();
    let bounds = solver.constraints.clone();
    assert_eq!(history, revealed.to_vec());
    solver.add_revelations(&revealed);
    assert_eq!(solver.revelations, history);
    assert_eq!(solver.constraints, bounds);
}

#[test]
fn bounds_of_a_guess_with_a_surplus_copy() {
    // SPEED against ERASE: S misplaced, P absent, both E misplaced, D absent.
    let mut solver = Solver::new(vec![]);
    solver.add_revelations(&feedback("ERASE", "SPEED"));
    assert_eq!(bound(&solver, 'S'), Some(LetterConstraint { min: 1, max: None }));
    assert_eq!(bound(&solver, 'P'), Some(LetterConstraint { min: 0, max: Some(0) }));
    assert_eq!(bound(&solver, 'E'), Some(LetterConstraint { min: 2, max: None }));
    assert_eq!(bound(&solver, 'D'), Some(LetterConstraint { min: 0, max: Some(0) }));
    assert_eq!(bound(&solver, 'R'), None);
    // LLAMA against ALLOY: one A is credited, the other is surplus.
    let mut solver = Solver::new(vec![]);
    solver.add_revelations(&feedback("ALLOY", "LLAMA"));
    assert_eq!(bound(&solver, 'L'), Some(LetterConstraint { min: 2, max: None }));
    assert_eq!(bound(&solver, 'A'), Some(LetterConstraint { min: 1, max: Some(1) }));
    assert_eq!(bound(&solver, 'M'), Some(LetterConstraint { min: 0, max: Some(0) }));
}

#[test]
fn a_lower_bound_never_decreases() {
    let mut solver = Solver::new(vec![]);
    let secret = "eerie";
    let mut last = 0;
    for guess in ["geese", "abbey", "eagle", "fjord", "eerie", "tepee"] {
        solver.add_revelations(&feedback(secret, guess));
        let now = bound(&solver, 'e').map_or(0, |c| c.min);
        assert!(now >= last);
        last = now;
    }
    assert_eq!(last, 3);
}

#[test]
fn the_lower_bound_is_the_most_that_one_guess_proved() {
    let mut solver = Solver::new(vec![]);
    solver.add_revelations(&feedback("llama", "hello"));
    assert_eq!(bound(&solver, 'l').unwrap().min, 2);
    solver.add_revelations(&feedback("llama", "ablet"));
    // One guess proved two copies, the next one copy: two stay proven, they are not added up.
    assert_eq!(bound(&solver, 'l').unwrap().min, 2);
}

#[test]
fn a_guess_sharing_no_letter_bounds_its_own_letters_only() {
    let mut solver = Solver::new(dictionary(&["abcde", "fghij", "vwxyz"]));
    solver.add_revelations(&feedback("abcde", "fghij"));
    for letter in "fghij".chars() {
        assert_eq!(bound(&solver, letter), Some(LetterConstraint { min: 0, max: Some(0) }));
    }
    for letter in "abcdeklmnopqrstuvwxyz".chars() {
        assert_eq!(bound(&solver, letter), None);
    }
    assert_eq!(solver.constraints.len(), 5);
    assert_eq!(solver.possibilities, dictionary(&["abcde", "vwxyz"]));
}

#[test]
fn an_upper_bound_is_taken_afresh_from_each_guess() {
    let mut solver = Solver::new(vec![]);
    solver.add_revelations(&word([
        ('a', State::Correct),
        ('a', State::Wrong),
        ('b', State::Wrong),
        ('c', State::Wrong),
        ('d', State::Wrong),
    ]));
    assert_eq!(bound(&solver, 'a'), Some(LetterConstraint { min: 1, max: Some(1) }));
    solver.add_revelations(&word([
        ('a', State::Correct),
        ('a', State::Change),
        ('a', State::Wrong),
        ('c', State::Wrong),
        ('d', State::Wrong),
    ]));
    assert_eq!(bound(&solver, 'a'), Some(LetterConstraint { min: 2, max: Some(2) }));
}

#[test]
fn a_surplus_copy_does_not_close_its_position() {
    // LLAMA against ALLOY marks the last A wrong although the secret has an A.
    let mut solver = Solver::new(dictionary(&["ALLOY", "ALLEY", "LLAMA", "ELBLA", "ATOLL"]));
    solver.add_revelations(&feedback("ALLOY", "LLAMA"));
    assert!(solver.filter_word("ALLOY"));
    assert!(solver.filter_word("ALLEY"));
    // One A ending the word: allowed, because A is proven to occur once.
    assert!(solver.filter_word("ELBLA"));
    assert!(!solver.filter_word("LLAMA"));
    assert!(!solver.filter_word("ATOLL"));
    assert_eq!(solver.possibilities, dictionary(&["ALLOY", "ALLEY", "ELBLA"]));
}

#[test]
fn a_wholly_absent_letter_closes_its_position_and_every_other() {
    let mut solver = Solver::new(vec![]);
    solver.add_revelations(&feedback("abcde", "xbcde"));
    assert!(!solver.filter_word("xbcde"));
    assert!(!solver.filter_word("abcdx"));
    assert!(solver.filter_word("abcde"));
}

#[test]
fn filter_is_pure_and_idempotent() {
    let words = dictionary(&["APPLE", "GRAPE", "TABLE", "AMPLE", "MAPLE", "PAPER"]);
    let mut solver = Solver::new(vec![]);
    solver.add_revelations(&feedback("APPLE", "GRAPE"));
    let once = solver.filter(&words);
    assert_eq!(once, dictionary(&["APPLE", "AMPLE", "MAPLE"]));
    let twice = solver.filter(&once);
    assert_eq!(twice, once);
    assert_eq!(words.len(), 6);
    assert!(solver.possibilities.is_empty());
}

#[test]
fn more_guesses_never_bring_a_word_back() {
    let words = dictionary(&["crane", "crate", "trace", "react", "caret", "carve", "nacre"]);
    let secret = "trace";
    let mut solver = Solver::new(words.clone());
    let mut before = solver.filter(&words);
    for guess in ["nacre", "carve", "react", "crate", "trace"] {
        solver.add_revelations(&feedback(secret, guess));
        let after = solver.filter(&words);
        assert!(after.iter().all(|w| before.contains(w)));
        assert!(after.contains(&secret.to_string()));
        assert_eq!(solver.possibilities, after);
        before = after;
    }
    assert_eq!(before, dictionary(&["trace"]));
}

#[test]
fn a_later_guess_can_loosen_an_upper_bound() {
    // Feedback that no single secret can give: first no `a` at all, then one.
    let words = dictionary(&["axxxx"]);
    let mut solver = Solver::new(vec![]);
    solver.add_revelations(&word([
        ('b', State::Wrong),
        ('a', State::Wrong),
        ('c', State::Wrong),
        ('d', State::Wrong),
        ('e', State::Wrong),
    ]));
    assert!(solver.filter(&words).is_empty());
    solver.add_revelations(&word([
        ('a', State::Correct),
        ('a', State::Wrong),
        ('c', State::Wrong),
        ('d', State::Wrong),
        ('e', State::Wrong),
    ]));
    assert_eq!(bound(&solver, 'a'), Some(LetterConstraint { min: 1, max: Some(1) }));
    assert_eq!(solver.filter(&words), words);
}

#[test]
fn words_of_another_length_are_judged_by_what_they_hold() {
    let mut solver = Solver::new(vec![]);
    solver.add_revelations(&feedback("abcde", "abxyz"));
    // `a` and `b` in place, no x, y or z: nothing here speaks against a shorter word.
    assert!(solver.filter_word("ab"));
    assert!(!solver.filter_word("a"));
    assert!(!solver.filter_word(""));
    assert!(!solver.filter_word("abx"));
}

#[test]
fn default_solver_is_blank() {
    let solver = Solver::default();
    assert_eq!(solver.number_of_possibilities(), 0);
    assert!(solver.revelations.is_empty());
    assert!(solver.constraints.is_empty());
}

#[test]
fn a_letter_marked_wrong_everywhere_rules_out_every_word_that_holds_it() {
    let mut solver = Solver::new(dictionary(&["scrob", "crumb", "comic"]));
    let guesses = [
        word([
            ('t', State::Wrong),
            ('e', State::Wrong),
            ('s', State::Wrong),
            ('t', State::Wrong),
            ('s', State::Wrong),
        ]),
        word([
            ('c', State::Change),
            ('l', State::Wrong),
            ('e', State::Wrong),
            ('a', State::Wrong),
            ('r', State::Change),
        ]),
        word([
            ('b', State::Change),
            ('l', State::Wrong),
            ('i', State::Wrong),
            ('n', State::Wrong),
            ('k', State::Wrong),
        ]),
    ];
    for guess in &guesses {
        solver.add_revelations(guess);
    }
    assert_eq!(bound(&solver, 's'), Some(LetterConstraint { min: 0, max: Some(0) }));
    assert_eq!(bound(&solver, 'c'), Some(LetterConstraint { min: 1, max: None }));
    // `scrob` holds an s; `comic` holds an i, and c in first place, as `crumb` does.
    assert!(!solver.filter_word("scrob"));
    assert!(!solver.filter_word("comic"));
    assert!(!solver.filter_word("crumb"));
    assert!(solver.filter_word("rucbm"));
    assert_eq!(solver.possibilities, Vec::<String>::new());
    // 11 different letters came by; the l at position 1 is recorded once.
    assert_eq!(solver.constraints.len(), 11);
    assert_eq!(solver.revelations.len(), 14);
}

#[test]
fn keys_that_are_no_letters_bound_nothing() {
    let mut solver = Solver::new(vec![]);
    solver.constraints.insert(0xD800, LetterConstraint { min: 3, max: Some(3) });
    solver.constraints.insert(0x110000, LetterConstraint { min: 1, max: None });
    assert!(solver.filter_word("tests"));
    solver.constraints.insert('t' as u32, LetterConstraint { min: 3, max: None });
    assert!(!solver.filter_word("tests"));
}
