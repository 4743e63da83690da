use crate::modules::config::{choose_word, Config};
use crate::modules::evaluator::evaluate;
use crate::modules::revelation::{LetterRevelation, WordRevelation, WORD_LENGTH};
use crate::modules::state::State;
use crate::modules::words::{spellings, split};
use vstd::prelude::*;
use vstd::string::StringExecFns;

verus! {

/// Where the dictionary of a session is looked for.
pub const FILE_PATH: &'static str = "./valid-wordle-words.txt";

/// The number of guesses that a session allows.
pub const MAX_ATTEMPTS: usize = 5;

/// The keys that the game tells apart.
#[derive(Debug, Clone, Copy, PartialEq, Eq, Structural)]
pub enum Key {
    Esc,
    Char(char),
    Delete,
    Backspace,
    Enter,
    Other,
}

/// One key press: the key, and whether the control key, and no other
/// modifier, was held down with it.
#[derive(Debug, Clone, Copy, PartialEq, Eq, Structural)]
pub struct KeyPress {
    pub code: Key,
    pub control: bool,
}

/// All that a session is made of, as plain values.
pub struct GameState {
    pub secret: Seq<char>,
    pub dictionary: Seq<Seq<char>>,
    pub title: Seq<char>,
    pub guess: Seq<char>,
    pub revelations: Seq<Seq<LetterRevelation>>,
    pub win_state: bool,
    pub finished: bool,
    pub attempt: nat,
    pub exit: bool,
}

/// A session: the dictionary and the secret, the guess being typed, the
/// feedback on the guesses made, and how far the session has got.
pub struct Game {
    config: Config,
    title: String,
    guess: String,
    revelations: Vec<WordRevelation>,
    win_state: bool,
    finished: bool,
    attempt: usize,
    exit: bool,
}

/// The feedback says that the guess was the secret: every letter is
/// `Correct`.
pub open spec fn solved(feedback: Seq<LetterRevelation>) -> bool {
    forall|i: int| 0 <= i < feedback.len() ==> (#[trigger] feedback[i]).state == State::Correct
}

/// The feedback of each of `words`.
pub open spec fn feedbacks(words: Seq<WordRevelation>) -> Seq<Seq<LetterRevelation>> {
    Seq::new(words.len(), |i: int| words[i]@)
}

impl GameState {
    /// What every session keeps to: the secret has five letters, and no
    /// more guesses are counted than a session allows.
    pub open spec fn wf(self) -> bool {
        &&& self.secret.len() == WORD_LENGTH
        &&& self.attempt <= MAX_ATTEMPTS
    }

    /// A session at its start.
    pub open spec fn opening(secret: Seq<char>, dictionary: Seq<Seq<char>>) -> GameState {
        GameState {
            secret,
            dictionary,
            title: "Wordle"@,
            guess: Seq::empty(),
            revelations: Seq::empty(),
            win_state: false,
            finished: false,
            attempt: 0,
            exit: false,
        }
    }

    /// The session with the title that tells how it ended, if it has ended.
    pub open spec fn closed(self) -> GameState {
        if !self.finished {
            self
        } else if self.win_state {
            GameState { title: " Congratulation "@, ..self }
        } else {
            GameState { title: " The true word was : "@ + self.secret + " "@, ..self }
        }
    }

    /// The session ends, lost, once all its guesses are used up.
    pub open spec fn ended(self) -> GameState {
        if self.attempt == MAX_ATTEMPTS {
            (GameState { finished: true, ..self }).closed()
        } else {
            self
        }
    }

    /// A letter joins the guess, as long as the guess has fewer than five.
    pub open spec fn typed(self, c: char) -> GameState {
        if self.guess.len() < WORD_LENGTH {
            GameState { guess: self.guess.push(c), ..self }
        } else {
            self
        }
    }

    /// The last letter of the guess, if it has one, is taken back.
    pub open spec fn erased(self) -> GameState {
        if self.guess.len() > 0 {
            GameState { guess: self.guess.drop_last(), ..self }
        } else {
            self
        }
    }

    /// The guess is submitted.
    ///
    /// A guess that has not five letters, or that the dictionary does not
    /// hold, is refused with a word in the title and stays as typed. Any
    /// other guess is evaluated against the secret: its feedback joins the
    /// list, it counts as an attempt, and the guess line is emptied. Where
    /// the guess was the secret the session ends, won.
    pub open spec fn entered(self) -> GameState {
        if self.guess.len() != WORD_LENGTH {
            GameState { title: " Word must be of 5 letters "@, ..self }
        } else if !self.dictionary.contains(self.guess) {
            GameState { title: " Word doesn't exist in dectionary "@, ..self }
        } else {
            let feedback = evaluate(self.secret, self.guess);
            let judged = if solved(feedback) {
                (GameState { win_state: true, finished: true, ..self }).closed()
            } else {
                self
            };
            GameState {
                revelations: judged.revelations.push(feedback),
                attempt: judged.attempt + 1,
                guess: Seq::empty(),
                ..judged
            }
        }
    }

    /// What a key does to a session that has not ended; one that has ended
    /// takes no key.
    pub open spec fn dispatched(self, code: Key) -> GameState {
        if self.finished {
            self
        } else {
            match code {
                Key::Char(c) => self.typed(c),
                Key::Delete | Key::Backspace => self.erased(),
                Key::Enter => self.entered(),
                _ => self,
            }
        }
    }

    /// What a key press other than the one that asks for a new session
    /// does: the escape key marks the session for leaving, and every key
    /// then acts on the session as `dispatched` says, after the session has
    /// been ended if its guesses were used up.
    pub open spec fn pressed(self, key: KeyPress) -> GameState {
        let current = self.ended();
        let marked = if key.code == Key::Esc {
            GameState { exit: true, ..current }
        } else {
            current
        };
        marked.dispatched(key.code)
    }
}

impl GameState {
    /// The dictionary holds a word, and all its words have five letters.
    pub open spec fn all_playable(self) -> bool {
        &&& self.dictionary.len() > 0
        &&& forall|i: int|
            0 <= i < self.dictionary.len() ==> (#[trigger] self.dictionary[i]).len() == WORD_LENGTH
    }

    /// `next` is a session started anew on the dictionary of this one, with
    /// a five-letter secret out of the dictionary, that has then taken
    /// `key`.
    pub open spec fn restarted_to(self, next: GameState, key: KeyPress) -> bool {
        exists|secret: Seq<char>|
            {
                &&& #[trigger] self.dictionary.contains(secret)
                &&& secret.len() == WORD_LENGTH
                &&& next == GameState::opening(secret, self.dictionary).dispatched(key.code)
            }
    }
}

impl KeyPress {
    /// The key press that asks for a new session: `r` with the control key.
    pub open spec fn asks_restart(self) -> bool {
        self.control && self.code == Key::Char('r')
    }
}

impl View for Game {
    type V = GameState;

    closed spec fn view(&self) -> GameState {
        GameState {
            secret: self.config.chosen_word@,
            dictionary: spellings(self.config.content@),
            title: self.title@,
            guess: self.guess@,
            revelations: feedbacks(self.revelations@),
            win_state: self.win_state,
            finished: self.finished,
            attempt: self.attempt as nat,
            exit: self.exit,
        }
    }
}

impl Game {
    /// Holds of every session that exists at run time.
    #[verifier::type_invariant]
    pub open spec fn wf(&self) -> bool {
        self@.wf()
    }

    /// A session at its start, with the dictionary and the secret of
    /// `config`.
    fn new(config: Config) -> (r: Game)
        requires
            config.chosen_word@.len() == WORD_LENGTH,
        ensures
            r@ == GameState::opening(config.chosen_word@, spellings(config.content@)),
    {
        let r = Game {
            config,
            title: String::from_str("Wordle"),
            guess: String::new(),
            revelations: Vec::new(),
            win_state: false,
            finished: false,
            attempt: 0,
            exit: false,
        };
        assert(r@.revelations =~= Seq::empty());
        r
    }

    /// The session on the dictionary and the secret of `config`, if there
    /// is a configuration and its secret has five letters.
    pub fn start_with(config: Option<Config>) -> (r: Option<Game>)
        ensures
            r is Some <==> (config matches Some(c) && c.chosen_word@.len() == WORD_LENGTH),
            r matches Some(game) ==> {
                &&& game@ == GameState::opening(
                    config->0.chosen_word@,
                    spellings(config->0.content@),
                )
                &&& game@.wf()
            },
    {
        match config {
            Some(config) => {
                if config.chosen_word.as_str().unicode_len() == WORD_LENGTH {
                    Some(Game::new(config))
                } else {
                    None
                }
            },
            None => None,
        }
    }

    /// Starts a session on the dictionary that `words` holds, with a secret
    /// chosen at random among its words.
    ///
    /// There is no session where `words` holds no word, nor where the word
    /// chosen has not five letters; a dictionary of five-letter words always
    /// gives one.
    pub fn start(words: String) -> (r: Option<Game>)
        ensures
            r matches Some(game) ==> {
                &&& split(words@).contains(game@.secret)
                &&& game@ == GameState::opening(game@.secret, split(words@))
                &&& game@.wf()
            },
            split(words@).len() == 0 ==> r is None,
            split(words@).len() > 0 && (forall|i: int|
                0 <= i < split(words@).len() ==> (#[trigger] split(words@)[i]).len() == WORD_LENGTH)
                ==> r is Some,
    {
        let config = Config::new(String::from_str(FILE_PATH), words);
        proof {
            if config is Some {
                let config = config->0;
                let i = choose|i: int|
                    0 <= i < config.content@.len() && (#[trigger] config.content@[i])@
                        == config.chosen_word@;
                assert(spellings(config.content@)[i] == config.chosen_word@);
            }
        }
        Game::start_with(config)
    }

    /// Sets the title that tells how the session ended, if it has ended.
    fn finish(&mut self)
        ensures
            final(self)@ == old(self)@.closed(),
    {
        proof {
            use_type_invariant(&*self);
        }
        if !self.finished {
            return ;
        }
        if self.win_state {
            self.title = String::from_str(" Congratulation ");
        } else {
            let mut title = String::from_str(" The true word was : ");
            title.append(self.config.chosen_word.as_str());
            title.append(" ");
            self.title = title;
        }
    }

    /// Ends the session, lost, once all its guesses are used up.
    pub fn handle_end(&mut self)
        ensures
            final(self)@ == old(self)@.ended(),
    {
        proof {
            use_type_invariant(&*self);
        }
        if self.attempt == MAX_ATTEMPTS {
            self.finished = true;
            self.finish();
        }
    }

    /// Lets a letter join the guess, as long as the guess has fewer than
    /// five.
    fn add_char(&mut self, c: char)
        ensures
            final(self)@ == old(self)@.typed(c),
    {
        proof {
            use_type_invariant(&*self);
        }
        if self.guess.as_str().unicode_len() < WORD_LENGTH {
            let mut guess = self.guess.clone();
            guess.push(c);
            self.guess = guess;
        }
    }

    /// Takes the last letter of the guess back, if it has one.
    fn remove_char(&mut self)
        ensures
            final(self)@ == old(self)@.erased(),
    {
        proof {
            use_type_invariant(&*self);
        }
        if self.guess.as_str().unicode_len() > 0 {
            let mut guess = self.guess.clone();
            guess.pop();
            self.guess = guess;
        }
    }

    /// Empties the guess line.
    fn clear_guess(&mut self)
        ensures
            final(self)@ == (GameState { guess: Seq::empty(), ..old(self)@ }),
    {
        proof {
            use_type_invariant(&*self);
        }
        let mut guess = self.guess.clone();
        guess.clear();
        self.guess = guess;
    }

    /// Marks the session for leaving.
    fn exit(&mut self)
        ensures
            final(self)@ == (GameState { exit: true, ..old(self)@ }),
    {
        proof {
            use_type_invariant(&*self);
        }
        self.exit = true;
    }

    /// Tells whether the feedback says that the guess was the secret.
    pub fn check_game_over(revelation: &WordRevelation) -> (r: bool)
        ensures
            r == solved(revelation@),
    {
        let entries = revelation.to_vec();
        let mut i: usize = 0;
        while i < entries.len()
            invariant
                i <= entries.len(),
                entries@ == revelation@,
                forall|j: int| 0 <= j < i ==> (#[trigger] entries@[j]).state == State::Correct,
            decreases entries.len() - i,
        {
            if entries[i].state != State::Correct {
                assert(revelation@[i as int].state != State::Correct);
                return false;
            }
            i += 1;
        }
        true
    }

    /// Submits the guess, as `GameState::entered` says.
    fn enter_guess(&mut self)
        requires
            old(self)@.attempt < MAX_ATTEMPTS,
        ensures
            final(self)@ == old(self)@.entered(),
    {
        proof {
            use_type_invariant(&*self);
        }
        if self.guess.as_str().unicode_len() != WORD_LENGTH {
            self.title = String::from_str(" Word must be of 5 letters ");
            return ;
        }
        let listed = self.config.word_exists(self.guess.as_str());
        proof {
            let words = spellings(self.config.content@);
            if listed {
                let i = choose|i: int|
                    0 <= i < self.config.content@.len() && (#[trigger] self.config.content@[i])@
                        == self.guess@;
                assert(words[i] == self.guess@);
            } else if words.contains(self.guess@) {
                let i = choose|i: int| 0 <= i < words.len() && words[i] == self.guess@;
                assert(self.config.content@[i]@ == self.guess@);
            }
        }
        if !listed {
            self.title = String::from_str(" Word doesn't exist in dectionary ");
            return ;
        }
        match self.config.check(self.guess.as_str()) {
            Ok(revelation) => {
                if Game::check_game_over(&revelation) {
                    self.win_state = true;
                    self.finished = true;
                    self.finish();
                }
                let ghost before = self.revelations@;
                let mut revelations = self.revelations.clone();
                revelations.push(revelation);
                self.revelations = revelations;
                assert(feedbacks(self.revelations@) =~= feedbacks(before).push(revelation@));
                self.attempt += 1;
                self.clear_guess();
            },
            // Both words have five letters here, so there is feedback.
            Err(_) => {},
        }
    }

    /// Starts the session anew on the same dictionary with `secret`, if
    /// there is one and it has five letters; leaves the session as it is
    /// otherwise.
    pub fn restart_with(&mut self, secret: Option<String>)
        ensures
            final(self)@ == match secret {
                Some(word) => if word@.len() == WORD_LENGTH {
                    GameState::opening(word@, old(self)@.dictionary)
                } else {
                    old(self)@
                },
                None => old(self)@,
            },
    {
        proof {
            use_type_invariant(&*self);
        }
        match secret {
            Some(word) => {
                if word.as_str().unicode_len() == WORD_LENGTH {
                    self.config.chosen_word = word;
                    self.title = String::from_str("Wordle");
                    self.guess = String::new();
                    self.revelations = Vec::new();
                    self.win_state = false;
                    self.finished = false;
                    self.attempt = 0;
                    self.exit = false;
                    assert(self@.revelations =~= Seq::empty());
                }
            },
            None => {},
        }
    }

    /// Takes one key press.
    ///
    /// The session is first ended if its guesses are used up. `r` with the
    /// control key then starts the session anew, with a secret drawn at
    /// random from the dictionary; the escape key marks the session for
    /// leaving. After that the key acts as `dispatched` says: the `r` that
    /// asked for a new session is typed into its guess line.
    ///
    /// Where the word drawn has not five letters, or the dictionary is
    /// empty, the session is not started anew and goes on as it was. On a
    /// dictionary of five-letter words it always is.
    pub fn handle_key_event(&mut self, key: KeyPress)
        ensures
            !key.asks_restart() ==> final(self)@ == old(self)@.pressed(key),
            key.asks_restart() ==> {
                ||| final(self)@ == old(self)@.pressed(key)
                ||| old(self)@.restarted_to(final(self)@, key)
            },
            key.asks_restart() && old(self)@.all_playable() ==> old(self)@.restarted_to(
                final(self)@,
                key,
            ),
            final(self)@.wf(),
    {
        self.handle_end();
        let ghost mut fresh: Option<Seq<char>> = None;
        if key.control && key.code == Key::Char('r') {
            let drawn = choose_word(&self.config.content);
            proof {
                if drawn is Some {
                    let word = drawn->0;
                    let i = choose|i: int|
                        0 <= i < self.config.content@.len() && (#[trigger] self.config.content@[i])@
                            == word@;
                    assert(spellings(self.config.content@)[i] == word@);
                    if word@.len() == WORD_LENGTH {
                        fresh = Some(word@);
                    }
                }
            }
            self.restart_with(drawn);
        } else if key.code == Key::Esc {
            self.exit();
        }
        proof {
            use_type_invariant(&*self);
        }
        if !self.finished {
            match key.code {
                Key::Char(c) => self.add_char(c),
                Key::Delete | Key::Backspace => self.remove_char(),
                Key::Enter => self.enter_guess(),
                _ => {},
            }
        }
        proof {
            use_type_invariant(&*self);
            if let Some(secret) = fresh {
                assert(old(self)@.dictionary.contains(secret));
                assert(self@ == GameState::opening(secret, old(self)@.dictionary).dispatched(
                    key.code,
                ));
            }
        }
    }

    /// The title line.
    pub fn title(&self) -> (r: &String)
        ensures
            r@ == self@.title,
    {
        &self.title
    }

    /// The guess as typed so far.
    pub fn guess(&self) -> (r: &String)
        ensures
            r@ == self@.guess,
    {
        &self.guess
    }

    /// The feedback on the guesses made, oldest first.
    pub fn revelations(&self) -> (r: &Vec<WordRevelation>)
        ensures
            feedbacks(r@) == self@.revelations,
    {
        &self.revelations
    }

    /// The secret of the session.
    pub fn secret(&self) -> (r: &String)
        ensures
            r@ == self@.secret,
    {
        &self.config.chosen_word
    }

    /// The number of guesses made.
    pub fn attempt(&self) -> (r: usize)
        ensures
            r == self@.attempt,
    {
        self.attempt
    }

    /// Tells whether the session was won.
    pub fn has_won(&self) -> (r: bool)
        ensures
            r == self@.win_state,
    {
        self.win_state
    }

    /// Tells whether the session has ended.
    pub fn is_finished(&self) -> (r: bool)
        ensures
            r == self@.finished,
    {
        self.finished
    }

    /// Tells whether the session is marked for leaving.
    pub fn should_exit(&self) -> (r: bool)
        ensures
            r == self@.exit,
    {
        self.exit
    }
}

} // verus!
