//! One game: the answer, the guesses made so far with their verdicts, the
//! state of the keyboard, and the hard-mode switch.

use vstd::prelude::*;
use crate::grade::{grade, grade_at, grade_word};
pub use crate::grade::{GuessStatus, LetterStatus};
use crate::hint::{check_hints, count_letters, keeps_hints};
use crate::words::{
    byte_len, check_word, contains_word, is_letter, is_word, lemma_word_byte_len, letters,
    spellings,
};

verus! {

/// Number of guesses that a game allows.
pub const MAX_GAME_ROUND: usize = 6;

/// The state of the 26 keys, `A` first.
pub type Alphabet = [LetterStatus; 26];

/// Why a word was turned down.
#[derive(Clone, Copy, Debug, PartialEq, Eq, Structural)]
pub enum Error {
    UnexpectedWordLength,
    UnknownWord,
    BadAnswer,
    HintUnused,
}

impl Error {
    /// A sentence for the player.
    pub fn what(&self) -> (message: String)
        ensures
            message@ == match *self {
                Error::UnexpectedWordLength => "The length of a word should be 5."@,
                Error::UnknownWord => "Unknown word, please try again."@,
                Error::BadAnswer => "That seems not suitable for a Wordle game. Maybe pick another?"@,
                Error::HintUnused => "You must use the hint in difficult mode."@,
            },
    {
        match self {
            Self::UnexpectedWordLength => "The length of a word should be 5.".to_owned(),
            Self::UnknownWord => "Unknown word, please try again.".to_owned(),
            Self::BadAnswer => "That seems not suitable for a Wordle game. Maybe pick another?".to_owned(),
            Self::HintUnused => "You must use the hint in difficult mode.".to_owned(),
        }
    }
}

/// Place of a letter on the keyboard: 0 for `A`, 25 for `Z`.
pub fn get_index(c: char) -> (i: usize)
    requires
        'A' <= c,
    ensures
        i == c as int - 'A' as int,
{
    c as usize - 'A' as usize
}

/// Where a game stands after a guess.
#[derive(Debug, PartialEq, Eq)]
pub enum GameStatus {
    Going,
    Won(usize),
    Failed(String),
}

/// A `GameStatus` with the answer as a sequence of characters.
pub enum StatusView {
    Going,
    Won(nat),
    Failed(Seq<char>),
}

impl View for GameStatus {
    type V = StatusView;

    open spec fn view(&self) -> StatusView {
        match *self {
            GameStatus::Going => StatusView::Going,
            GameStatus::Won(round) => StatusView::Won(round as nat),
            GameStatus::Failed(answer) => StatusView::Failed(answer@),
        }
    }
}

/// What a game is: its answer, the words guessed so far, oldest first, and
/// the hard-mode switch. Verdicts and keyboard follow from these.
pub struct GameView {
    pub answer: Seq<char>,
    pub words: Seq<Seq<char>>,
    pub difficult: bool,
}

/// The state that `start` leaves a key in after the first `n` letters of a
/// graded guess: each letter equal to `c` raises it to its verdict, if that
/// is greater.
pub open spec fn key_after_word(
    start: LetterStatus,
    answer: Seq<char>,
    word: Seq<char>,
    c: char,
    n: int,
) -> LetterStatus
    decreases n,
{
    if n <= 0 {
        start
    } else {
        let before = key_after_word(start, answer, word, c, n - 1);
        if n <= word.len() && word[n - 1] == c {
            before.best(grade_at(answer, word, n - 1))
        } else {
            before
        }
    }
}

/// The state of the key `c` after a sequence of guesses.
pub open spec fn key_state(answer: Seq<char>, words: Seq<Seq<char>>, c: char) -> LetterStatus
    decreases words.len(),
{
    if words.len() == 0 {
        LetterStatus::Unknown
    } else {
        key_after_word(
            key_state(answer, words.drop_last(), c),
            answer,
            words.last(),
            c,
            words.last().len() as int,
        )
    }
}

/// What holds of every game in play: the answer and the guesses are
/// playable words, and there are at most six guesses.
pub open spec fn valid_state(g: GameView) -> bool {
    &&& is_word(g.answer)
    &&& g.words.len() <= MAX_GAME_ROUND
    &&& forall|k: int| 0 <= k < g.words.len() ==> is_word(#[trigger] g.words[k])
}

/// Whether some earlier guess revealed something that `word` does not use.
pub open spec fn ignores_a_hint(g: GameView, word: Seq<char>, strict: bool) -> bool {
    exists|k: int|
        0 <= k < g.words.len() && !keeps_hints(
            #[trigger] g.words[k],
            grade(g.answer, g.words[k]),
            word,
            strict,
        )
}

/// The verdict on a word offered as a guess.
pub open spec fn validation(
    g: GameView,
    difficult: bool,
    strict: bool,
    word: Seq<char>,
    list: Seq<Seq<char>>,
) -> Result<(), Error> {
    if !list.contains(word) {
        Err(Error::UnknownWord)
    } else if difficult && ignores_a_hint(g, word, strict) {
        Err(Error::HintUnused)
    } else {
        Ok(())
    }
}

/// Where the game stands once `word` has been accepted as guess number
/// `round`.
pub open spec fn outcome(answer: Seq<char>, round: nat, word: Seq<char>) -> StatusView {
    if word == answer {
        StatusView::Won(round)
    } else if round == MAX_GAME_ROUND {
        StatusView::Failed(answer)
    } else {
        StatusView::Going
    }
}

/// What `guess` returns for a word.
pub open spec fn guess_result(g: GameView, word: Seq<char>, list: Seq<Seq<char>>) -> Result<
    StatusView,
    Error,
> {
    if byte_len(word) != crate::words::WORD_LENGTH {
        Err(Error::UnexpectedWordLength)
    } else {
        match validation(g, g.difficult, false, word, list) {
            Err(e) => Err(e),
            Ok(_) => Ok(outcome(g.answer, g.words.len() + 1, word)),
        }
    }
}

/// Where a game stands: going before the first guess, and after it what
/// the last guess made of it.
pub open spec fn standing(g: GameView) -> StatusView {
    if g.words.len() == 0 {
        StatusView::Going
    } else {
        outcome(g.answer, g.words.len(), g.words.last())
    }
}

/// The letter of the key at place `k`, `A` at 0.
pub open spec fn letter_at(k: int) -> char {
    ((k + 'A' as int) as u8) as char
}

/// Every key is the key of a letter.
pub proof fn lemma_keys_are_letters()
    ensures
        forall|k: int|
            0 <= k < 26 ==> is_letter(#[trigger] letter_at(k)) && letter_at(k) as int - 'A' as int
                == k,
{
}

/// The game after `word` has been accepted.
pub open spec fn with_guess(g: GameView, word: Seq<char>) -> GameView {
    GameView { answer: g.answer, words: g.words.push(word), difficult: g.difficult }
}

/// A result with its status viewed.
pub open spec fn result_view(r: Result<GameStatus, Error>) -> Result<StatusView, Error> {
    match r {
        Ok(status) => Ok(status@),
        Err(e) => Err(e),
    }
}

/// All five verdicts are green.
pub open spec fn all_green(status: Seq<LetterStatus>) -> bool {
    forall|i: int| 0 <= i < status.len() ==> #[trigger] status[i] == LetterStatus::Green
}

/// A game in play. Its guesses are made through `guess`, which keeps
/// verdicts and keyboard in step with them.
pub struct Game {
    answer: String,
    guesses: Vec<(String, GuessStatus)>,
    alphabet: Alphabet,
    difficult: bool,
}

impl View for Game {
    type V = GameView;

    closed spec fn view(&self) -> GameView {
        GameView {
            answer: self.answer@,
            words: Seq::new(self.guesses@.len(), |k: int| self.guesses@[k].0@),
            difficult: self.difficult,
        }
    }
}

impl Game {
    /// The verdicts kept with the guesses, one row per guess.
    pub closed spec fn verdicts(&self) -> Seq<Seq<LetterStatus>> {
        Seq::new(self.guesses@.len(), |k: int| self.guesses@[k].1@)
    }

    /// The keyboard as it is kept, `A` first.
    pub closed spec fn keyboard(&self) -> Seq<LetterStatus> {
        self.alphabet@
    }

    /// The stored verdicts are those of the grading, one row per guess.
    pub closed spec fn rows_graded(&self) -> bool {
        forall|k: int|
            0 <= k < self.guesses@.len() ==> (#[trigger] self.guesses@[k]).1@ == grade(
                self.answer@,
                self.guesses@[k].0@,
            )
    }

    /// The stored keyboard is the one that the guesses give.
    pub closed spec fn keys_folded(&self) -> bool {
        forall|c: char|
            is_letter(c) ==> self.alphabet@[c as int - 'A' as int] == #[trigger] key_state(
                self.answer@,
                self@.words,
                c,
            )
    }

    /// Well-formedness: the game is in a valid state, and verdicts and
    /// keyboard are what answer and guesses make them.
    pub closed spec fn wf(&self) -> bool {
        &&& valid_state(self@)
        &&& self.rows_graded()
        &&& self.keys_folded()
    }

    /// A well-formed game is in a valid state, its verdicts are those of
    /// the grading, and each key shows the best verdict its letter has had.
    pub proof fn lemma_wf(&self)
        requires
            self.wf(),
        ensures
            valid_state(self@),
            self.verdicts().len() == self@.words.len(),
            forall|k: int|
                0 <= k < self@.words.len() ==> #[trigger] self.verdicts()[k] == grade(
                    self@.answer,
                    self@.words[k],
                ),
            self.keyboard().len() == 26,
            forall|c: char|
                is_letter(c) ==> self.keyboard()[c as int - 'A' as int] == #[trigger] key_state(
                    self@.answer,
                    self@.words,
                    c,
                ),
            forall|k: int|
                0 <= k < 26 ==> #[trigger] self.keyboard()[k] == key_state(
                    self@.answer,
                    self@.words,
                    letter_at(k),
                ),
    {
        lemma_keys_are_letters();
    }

    /// Starts a game with the given answer, which must be one of
    /// `answer_list`. The list is taken to hold playable words: an answer
    /// that it holds must be one.
    pub fn new(answer: &str, difficult: bool, answer_list: &Vec<String>) -> (r: Result<Self, Error>)
        requires
            spellings(answer_list@).contains(answer@) ==> is_word(answer@),
        ensures
            match r {
                Ok(game) => {
                    &&& spellings(answer_list@).contains(answer@)
                    &&& game.wf()
                    &&& game@ == (GameView { answer: answer@, words: Seq::empty(), difficult })
                    &&& game.verdicts() == Seq::<Seq<LetterStatus>>::empty()
                    &&& game.keyboard() == Seq::new(26, |k: int| LetterStatus::Unknown)
                },
                Err(e) => e == Error::BadAnswer && !spellings(answer_list@).contains(answer@),
            },
    {
        let answer = answer.to_owned();
        if !contains_word(answer_list, &answer) {
            return Err(Error::BadAnswer);
        }
        let game = Self {
            answer,
            guesses: Vec::new(),
            alphabet: [LetterStatus::Unknown; 26],
            difficult,
        };
        assert(game@.words =~= Seq::empty());
        assert(game.verdicts() =~= Seq::empty());
        assert(game.keyboard() =~= Seq::new(26, |k: int| LetterStatus::Unknown));
        Ok(game)
    }

    /// Builds the game that has the given answer and in which the given
    /// words were guessed, oldest first; verdicts and keyboard are worked
    /// out anew. There is no such game unless the answer and the words are
    /// playable and the words are six at most.
    pub fn restore(answer: &str, difficult: bool, words: &Vec<String>) -> (r: Option<Self>)
        ensures
            match r {
                Some(game) => {
                    &&& game.wf()
                    &&& game@ == (GameView { answer: answer@, words: spellings(words@), difficult })
                },
                None => !valid_state(
                    GameView { answer: answer@, words: spellings(words@), difficult },
                ),
            },
    {
        let ghost goal = GameView { answer: answer@, words: spellings(words@), difficult };
        if !check_word(answer) || words.len() > MAX_GAME_ROUND {
            return None;
        }
        let mut game = Self {
            answer: answer.to_owned(),
            guesses: Vec::new(),
            alphabet: [LetterStatus::Unknown; 26],
            difficult,
        };
        assert(game@.words =~= spellings(words@).take(0));
        let mut k: usize = 0;
        while k < words.len()
            invariant
                k <= words@.len(),
                words@.len() <= MAX_GAME_ROUND,
                goal == (GameView { answer: answer@, words: spellings(words@), difficult }),
                game.wf(),
                game@ == (GameView {
                    answer: answer@,
                    words: spellings(words@).take(k as int),
                    difficult,
                }),
            decreases words@.len() - k,
        {
            let word = &words[k];
            if !check_word(word.as_str()) {
                assert(!is_word(goal.words[k as int]));
                return None;
            }
            game.record(word);
            assert(game@.words =~= spellings(words@).take(k + 1));
            k += 1;
        }
        assert(game@.words =~= spellings(words@));
        Some(game)
    }

    /// The answer.
    pub fn get_answer(&self) -> (answer: &String)
        ensures
            answer@ == self@.answer,
    {
        &self.answer
    }

    /// Whether hard mode is on.
    pub fn is_difficult(&self) -> (difficult: bool)
        ensures
            difficult == self@.difficult,
    {
        self.difficult
    }

    /// Where the game stands: going before the first guess, and after it
    /// what the last guess made of it.
    pub fn get_status(&self) -> (status: GameStatus)
        requires
            self.wf(),
        ensures
            status@ == standing(self@),
    {
        let round = self.guesses.len();
        if round == 0 {
            return GameStatus::Going;
        }
        proof {
            lemma_all_green_is_answer(self@.answer, self@.words.last());
            assert(is_word(self@.words[round - 1]));
        }
        if is_complete(&self.guesses[round - 1].1) {
            GameStatus::Won(round)
        } else if round == MAX_GAME_ROUND {
            GameStatus::Failed(self.answer.clone())
        } else {
            GameStatus::Going
        }
    }

    /// How many guesses have been made.
    pub fn get_round(&self) -> (round: usize)
        ensures
            round == self@.words.len(),
    {
        self.guesses.len()
    }

    /// The guesses made so far, oldest first, each with its verdicts.
    pub fn get_guesses(&self) -> (guesses: &Vec<(String, GuessStatus)>)
        ensures
            guesses@.len() == self@.words.len(),
            forall|k: int|
                0 <= k < guesses@.len() ==> {
                    &&& (#[trigger] guesses@[k]).0@ == self@.words[k]
                    &&& guesses@[k].1@ == self.verdicts()[k]
                },
    {
        &self.guesses
    }

    /// Switches hard mode on or off; the guesses made stay as they are.
    pub fn set_difficult(&mut self, difficult: bool)
        ensures
            final(self)@ == (GameView { difficult, ..old(self)@ }),
            old(self).wf() ==> final(self).wf(),
            final(self).verdicts() == old(self).verdicts(),
            final(self).keyboard() == old(self).keyboard(),
    {
        self.difficult = difficult;
        assert(final(self)@.words =~= old(self)@.words);
    }


    /// The best verdict that each letter has had so far.
    pub fn get_alphabet(&self) -> (alphabet: &Alphabet)
        ensures
            alphabet@ == self.keyboard(),
    {
        &self.alphabet
    }

    /// Checks whether `word` would be accepted as a guess: it must be one
    /// of `word_list`, and in hard mode it must use what every earlier
    /// guess revealed. With `strict`, a hint is held to more: see
    /// `keeps_strictly`. The game is left as it is.
    pub fn validate_guess(
        &self,
        difficult: bool,
        strict: bool,
        word: &String,
        word_list: &Vec<String>,
    ) -> (r: Result<(), Error>)
        requires
            self.wf(),
        ensures
            r == validation(self@, difficult, strict, word@, spellings(word_list@)),
    {
        if !contains_word(word_list, word) {
            return Err(Error::UnknownWord);
        }
        if difficult {
            let now = letters(word.as_str());
            let guess_counter = count_letters(&now);
            // Every earlier guess is checked, since hard mode may have
            // been off when some of them were made.
            let mut k: usize = 0;
            while k < self.guesses.len()
                invariant
                    difficult,
                    spellings(word_list@).contains(word@),
                    k <= self.guesses@.len(),
                    self.wf(),
                    now@ == word@,
                    crate::hint::counts_letters(guess_counter@, now@),
                    forall|j: int|
                        0 <= j < k ==> keeps_hints(
                            #[trigger] self@.words[j],
                            grade(self@.answer, self@.words[j]),
                            word@,
                            strict,
                        ),
                decreases self.guesses@.len() - k,
            {
                let last = letters(self.guesses[k].0.as_str());
                assert(last@ == self@.words[k as int]);
                assert(is_word(self@.words[k as int]));
                assert(self.guesses@[k as int].1@ == grade(self@.answer, self@.words[k as int]));
                if !check_hints(&last, &self.guesses[k].1, &now, &guess_counter, strict) {
                    assert(ignores_a_hint(self@, word@, strict));
                    return Err(Error::HintUnused);
                }
                k += 1;
            }
            assert(!ignores_a_hint(self@, word@, strict));
        }
        Ok(())
    }

    /// Grades a playable word against the answer.
    fn get_guess_status(&self, word: &str) -> (status: GuessStatus)
        requires
            is_word(self@.answer),
            word@.len() == 5,
        ensures
            status@ == grade(self@.answer, word@),
    {
        let answer = letters(self.answer.as_str());
        let guess = letters(word);
        grade_word(&answer, &guess)
    }

    /// Raises the key of each letter of `word` to its verdict, where that
    /// is greater than what the key shows.
    fn update_alphabet(&mut self, word: &str, status: &GuessStatus)
        requires
            is_word(word@),
            status@ == grade(old(self)@.answer, word@),
        ensures
            final(self)@ == old(self)@,
            final(self).guesses == old(self).guesses,
            forall|c: char|
                is_letter(c) ==> final(self).alphabet@[c as int - 'A' as int] == #[trigger] key_after_word(
                    old(self).alphabet@[c as int - 'A' as int],
                    old(self)@.answer,
                    word@,
                    c,
                    5,
                ),
    {
        let guess = letters(word);
        let mut i: usize = 0;
        while i < 5
            invariant
                i <= 5,
                guess@ == word@,
                is_word(word@),
                status@ == grade(old(self)@.answer, word@),
                self.answer == old(self).answer,
                self.guesses == old(self).guesses,
                self.difficult == old(self).difficult,
                forall|c: char|
                    is_letter(c) ==> self.alphabet@[c as int - 'A' as int] == #[trigger] key_after_word(
                        old(self).alphabet@[c as int - 'A' as int],
                        old(self)@.answer,
                        word@,
                        c,
                        i as int,
                    ),
            decreases 5 - i,
        {
            let letter = guess[i];
            assert(is_letter(word@[i as int]));
            let index = get_index(letter);
            let ghost before = self.alphabet@;
            let raised = self.alphabet[index].max(status[i]);
            self.alphabet[index] = raised;
            i += 1;
            assert forall|c: char| is_letter(c) implies self.alphabet@[c as int - 'A' as int]
                == #[trigger] key_after_word(
                old(self).alphabet@[c as int - 'A' as int],
                old(self)@.answer,
                word@,
                c,
                i as int,
            ) by {
                assert(before[c as int - 'A' as int] == key_after_word(
                    old(self).alphabet@[c as int - 'A' as int],
                    old(self)@.answer,
                    word@,
                    c,
                    i - 1,
                ));
            }
        }
    }

    /// Grades a playable word, brings the keyboard up to date and adds
    /// the word with its verdicts to the guesses made.
    fn record(&mut self, word: &String) -> (status: GuessStatus)
        requires
            old(self).wf(),
            old(self)@.words.len() < MAX_GAME_ROUND,
            is_word(word@),
        ensures
            final(self).wf(),
            final(self)@ == with_guess(old(self)@, word@),
            status@ == grade(old(self)@.answer, word@),
    {
        let status = self.get_guess_status(word.as_str());
        self.update_alphabet(word.as_str(), &status);
        self.guesses.push((word.clone(), status));
        proof {
            assert(self@.words =~= old(self)@.words.push(word@));
            assert(self@.words.drop_last() =~= old(self)@.words);
            assert(self@.words.last() == word@);
            assert(valid_state(self@));
            assert(self.rows_graded()) by {
                assert forall|k: int| 0 <= k < self.guesses@.len() implies (
                #[trigger] self.guesses@[k]).1@ == grade(self.answer@, self.guesses@[k].0@) by {
                    if k < old(self).guesses@.len() {
                        assert(self.guesses@[k] == old(self).guesses@[k]);
                    }
                }
            }
            assert(self.keys_folded()) by {
                assert forall|c: char| is_letter(c) implies self.alphabet@[c as int - 'A' as int]
                    == #[trigger] key_state(self.answer@, self@.words, c) by {
                    assert(old(self).alphabet@[c as int - 'A' as int] == key_state(
                        old(self).answer@,
                        old(self)@.words,
                        c,
                    ));
                    assert(self.alphabet@[c as int - 'A' as int] == key_after_word(
                        old(self).alphabet@[c as int - 'A' as int],
                        old(self)@.answer,
                        word@,
                        c,
                        5,
                    ));
                }
            }
        }
        status
    }

    /// Makes a guess. A word of the wrong length, a word that is not in
    /// `word_list`, and in hard mode a word that ignores a hint are turned
    /// down, and the game stays as it was. Otherwise the word is graded and
    /// recorded, the keyboard is brought up to date, and the result tells
    /// whether the game is won, lost or still going. No key ever shows
    /// less than it did.
    ///
    /// The game must have a round left, and the list is taken to hold
    /// playable words: a word that it holds must be one. The list need not
    /// be sorted.
    pub fn guess(&mut self, word: &String, word_list: &Vec<String>) -> (r: Result<GameStatus, Error>)
        requires
            old(self).wf(),
            old(self)@.words.len() < MAX_GAME_ROUND,
            spellings(word_list@).contains(word@) ==> is_word(word@),
        ensures
            final(self).wf(),
            result_view(r) == guess_result(old(self)@, word@, spellings(word_list@)),
            r is Ok ==> final(self)@ == with_guess(old(self)@, word@),
            r is Ok ==> final(self).verdicts() == old(self).verdicts().push(
                grade(old(self)@.answer, word@),
            ),
            r is Ok ==> forall|k: int|
                0 <= k < 26 ==> #[trigger] final(self).keyboard()[k] == key_after_word(
                    old(self).keyboard()[k],
                    old(self)@.answer,
                    word@,
                    letter_at(k),
                    5,
                ),
            r is Err ==> *final(self) == *old(self),
            forall|k: int|
                0 <= k < 26 ==> (#[trigger] final(self).keyboard()[k]).rank() >= old(
                    self,
                ).keyboard()[k].rank(),
    {
        if word.as_str().as_bytes().len() != crate::words::WORD_LENGTH {
            return Err(Error::UnexpectedWordLength);
        }
        match self.validate_guess(self.difficult, false, word, word_list) {
            Err(e) => {
                return Err(e);
            },
            Ok(_) => {},
        }
        proof {
            lemma_word_byte_len(word@);
        }
        let guess_status = self.record(word);
        proof {
            lemma_all_green_is_answer(self@.answer, word@);
            old(self).lemma_wf();
            self.lemma_wf();
            assert(self@.words.drop_last() =~= old(self)@.words);
            assert(self@.words.last() == word@);
            assert(self.verdicts() =~= old(self).verdicts().push(grade(old(self)@.answer, word@)));
            assert forall|k: int| 0 <= k < 26 implies (#[trigger] self.keyboard()[k]).rank()
                >= old(self).keyboard()[k].rank() by {
                crate::theory::lemma_key_never_regresses(
                    old(self)@.answer,
                    old(self)@.words,
                    word@,
                    letter_at(k),
                );
            }
        }
        let round = self.get_round();
        let game_status = if is_complete(&guess_status) {
            GameStatus::Won(round)
        } else if round == MAX_GAME_ROUND {
            GameStatus::Failed(self.answer.clone())
        } else {
            GameStatus::Going
        };
        Ok(game_status)
    }
}

/// Whether all five verdicts are green.
pub fn is_complete(status: &GuessStatus) -> (complete: bool)
    ensures
        complete == all_green(status@),
{
    let mut i: usize = 0;
    while i < 5
        invariant
            i <= 5,
            forall|j: int| 0 <= j < i ==> #[trigger] status@[j] == LetterStatus::Green,
        decreases 5 - i,
    {
        match status[i] {
            LetterStatus::Green => {},
            _ => {
                return false;
            },
        }
        i += 1;
    }
    true
}

/// A guess of the answer's length is graded all green exactly when it is
/// the answer.
pub proof fn lemma_all_green_is_answer(answer: Seq<char>, word: Seq<char>)
    requires
        answer.len() == word.len(),
    ensures
        all_green(grade(answer, word)) <==> word == answer,
{
    if all_green(grade(answer, word)) {
        assert forall|i: int| 0 <= i < word.len() implies word[i] == answer[i] by {
            assert(grade(answer, word)[i] == LetterStatus::Green);
        }
        assert(word =~= answer);
    }
}

} // verus!
