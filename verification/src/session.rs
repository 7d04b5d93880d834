//! A sitting at the board: the game in play, the word being typed, the
//! statistics, and what each key does to them.

use vstd::prelude::*;
use crate::args::Args;
use crate::game::{
    guess_result, with_guess, Game, GameStatus, GameView, StatusView, MAX_GAME_ROUND,
};
use crate::grade::LetterStatus;
use crate::lists::{same_words, shuffle, shuffled, sort, sorted_form};
use crate::stats::{used_once_more, uses, Stats, StatsView};
use crate::theme::{Letter, BACKSPACE, ENTER};
use crate::words::{
    all_words, byte_len, clear_string, lemma_listed_word, letters, pop_char, push_char,
    spellings, WORD_LENGTH,
};

verus! {

/// The state of a sitting.
pub struct WordleApp {
    /// The options in force.
    pub args: Args,
    /// The statistics of the player.
    pub stats: Stats,
    /// The game in play, if one was started.
    pub game: Option<Game>,
    /// Where that game stands.
    pub game_status: Option<GameStatus>,
    /// The letters typed for the next guess.
    pub guess: String,
    /// The words that may be guessed.
    pub word_list: Vec<String>,
    /// The words that may be answers, in the order of the days.
    pub answer_list: Vec<String>,
}

impl Default for WordleApp {
    /// A sitting before anything was loaded: no game, no words.
    fn default() -> (app: Self)
        ensures
            app.game is None,
            app.game_status is None,
            app.guess@ == Seq::<char>::empty(),
            app.word_list@ == Seq::<String>::empty(),
            app.answer_list@ == Seq::<String>::empty(),
            app.stats.wf(),
            app.stats@ == crate::stats::no_stats(),
            app.args.day is None,
            app.args.seed is None,
            !app.args.difficult,
    {
        Self {
            args: Args::default(),
            stats: Stats::default(),
            game: None,
            game_status: None,
            guess: String::new(),
            word_list: Vec::new(),
            answer_list: Vec::new(),
        }
    }
}

/// How a status counts in the statistics: a win adds a game won and its
/// guesses, a loss adds a game lost.
pub open spec fn counted(s: StatsView, status: StatusView) -> StatsView {
    match status {
        StatusView::Going => s,
        StatusView::Won(round) => StatsView { wins: s.wins + 1, tries: s.tries + round, ..s },
        StatusView::Failed(_) => StatsView { fails: s.fails + 1, ..s },
    }
}

impl WordleApp {
    /// A game is in play and has not ended.
    pub open spec fn playing(&self) -> bool {
        self.game_status is Some && self.game_status->0 is Going
    }

    /// Well-formedness of a sitting with a game: the lists hold playable
    /// words, game and statistics are well-formed, and a game that is still
    /// going has a round left.
    pub open spec fn wf(&self) -> bool {
        &&& self.stats.wf()
        &&& all_words(self.word_list@)
        &&& all_words(self.answer_list@)
        &&& self.game is Some
        &&& self.game->0.wf()
        &&& self.game_status is Some
        &&& self.playing() ==> self.game->0@.words.len() < MAX_GAME_ROUND
    }

    /// Everything but the game, its status and the typed word is the same
    /// in `self` and `other`.
    pub open spec fn same_setting(&self, other: &WordleApp) -> bool {
        &&& self.args == other.args
        &&& self.stats == other.stats
        &&& self.word_list == other.word_list
        &&& self.answer_list == other.answer_list
    }

    /// Puts the list of answers in the order of the days: sorted first, so
    /// that the same seed always gives the same order, then shuffled.
    pub fn shuffle_answer_list(&mut self, seed: u64)
        ensures
            spellings(final(self).answer_list@) == shuffled(
                sorted_form(spellings(old(self).answer_list@)),
                seed,
            ),
            same_words(spellings(final(self).answer_list@), spellings(old(self).answer_list@)),
            final(self).answer_list@.len() == old(self).answer_list@.len(),
            all_words(old(self).answer_list@) ==> all_words(final(self).answer_list@),
            final(self).args == old(self).args,
            final(self).stats == old(self).stats,
            final(self).game == old(self).game,
            final(self).game_status == old(self).game_status,
            final(self).guess == old(self).guess,
            final(self).word_list == old(self).word_list,
    {
        sort(&mut self.answer_list);
        shuffle(&mut self.answer_list, seed);
    }

    /// Starts a new game with the answer of the day.
    pub fn start(&mut self)
        requires
            old(self).args.day is Some,
            old(self).args.day->0 < old(self).answer_list@.len(),
            all_words(old(self).answer_list@),
        ensures
            final(self).same_setting(old(self)),
            final(self).game is Some,
            final(self).game->0.wf(),
            final(self).game->0@ == (GameView {
                answer: old(self).answer_list@[old(self).args.day->0 as int]@,
                words: Seq::empty(),
                difficult: old(self).args.difficult,
            }),
            final(self).game_status == Some(GameStatus::Going),
            final(self).guess@ == Seq::<char>::empty(),
    {
        let day = self.args.day.unwrap();
        let answer = &self.answer_list[day as usize];
        proof {
            assert(spellings(self.answer_list@)[day as int] == answer@);
            lemma_listed_word(self.answer_list@, answer@);
        }
        let game = match Game::new(answer.as_str(), self.args.difficult, &self.answer_list) {
            Ok(game) => Some(game),
            Err(_) => None,
        };
        self.game = game;
        self.game_status = Some(GameStatus::Going);
        clear_string(&mut self.guess);
    }

    /// Moves on to the next day; after the last answer comes the first.
    pub fn another_day(&mut self)
        requires
            old(self).args.day is Some,
            old(self).args.day->0 < u32::MAX,
            0 < old(self).answer_list@.len() <= u32::MAX,
        ensures
            final(self).args.day == Some(
                ((old(self).args.day->0 + 1) % (old(self).answer_list@.len() as int)) as u32,
            ),
            final(self).args == (Args { day: final(self).args.day, ..old(self).args }),
            final(self).stats == old(self).stats,
            final(self).game == old(self).game,
            final(self).game_status == old(self).game_status,
            final(self).guess == old(self).guess,
            final(self).word_list == old(self).word_list,
            final(self).answer_list == old(self).answer_list,
    {
        let mut day = self.args.day.unwrap();
        day += 1;
        day %= self.answer_list.len() as u32;
        self.args.day = Some(day);
    }

    /// What submitting the typed word makes of a sitting: a word that the
    /// game turns down changes nothing; an accepted word is recorded by the
    /// game and counted by the statistics, together with a win or a loss,
    /// and the typed word is cleared.
    pub open spec fn submitted(&self, after: &WordleApp) -> bool {
        match guess_result(self.game->0@, self.guess@, spellings(self.word_list@)) {
            Err(_) => *after == *self,
            Ok(status) => {
                &&& after.args == self.args
                &&& after.word_list == self.word_list
                &&& after.answer_list == self.answer_list
                &&& after.game is Some
                &&& after.game->0@ == with_guess(self.game->0@, self.guess@)
                &&& after.game_status is Some
                &&& after.game_status->0@ == status
                &&& after.guess@ == Seq::<char>::empty()
                &&& after.stats@ == counted(
                    StatsView {
                        usage: used_once_more(self.stats@.usage, self.guess@),
                        ..self.stats@
                    },
                    status,
                )
            },
        }
    }

    /// What the statistics need so that one more guess, and with it a win
    /// or a loss, can be counted.
    pub open spec fn can_count(&self) -> bool {
        &&& self.stats@.wins < i32::MAX
        &&& self.stats@.fails < i32::MAX
        &&& self.stats@.tries + MAX_GAME_ROUND <= i32::MAX
        &&& uses(self.stats@.usage, self.guess@) < usize::MAX
    }

    /// Submits the typed word as a guess.
    pub fn submit(&mut self)
        requires
            old(self).wf(),
            old(self).playing(),
            old(self).can_count(),
        ensures
            final(self).wf(),
            old(self).submitted(final(self)),
    {
        proof {
            lemma_listed_word(self.word_list@, self.guess@);
            self.game->0.lemma_wf();
        }
        let result = match &mut self.game {
            Some(game) => game.guess(&self.guess, &self.word_list),
            None => Err(crate::game::Error::UnknownWord),
        };
        match result {
            Ok(game_status) => {
                self.stats.update_guess(self.guess.as_str());
                match &game_status {
                    GameStatus::Won(round) => {
                        self.stats.win_with_guesses_updated(*round);
                    },
                    GameStatus::Failed(_) => {
                        self.stats.fail_with_guesses_updated();
                    },
                    GameStatus::Going => {},
                }
                clear_string(&mut self.guess);
                self.game_status = Some(game_status);
            },
            Err(_) => {},
        }
    }

    /// Takes back the last letter typed, if there is one.
    pub fn erase(&mut self)
        ensures
            final(self).guess@ == if old(self).guess@.len() > 0 {
                old(self).guess@.drop_last()
            } else {
                old(self).guess@
            },
            final(self).same_setting(old(self)),
            final(self).game == old(self).game,
            final(self).game_status == old(self).game_status,
    {
        pop_char(&mut self.guess);
    }

    /// Types a letter, unless five bytes are typed already.
    pub fn type_letter(&mut self, key: char)
        ensures
            final(self).guess@ == if byte_len(old(self).guess@) < WORD_LENGTH {
                old(self).guess@.push(key)
            } else {
                old(self).guess@
            },
            final(self).same_setting(old(self)),
            final(self).game == old(self).game,
            final(self).game_status == old(self).game_status,
    {
        if self.guess.as_str().as_bytes().len() < WORD_LENGTH {
            push_char(&mut self.guess, key);
        }
    }

    /// What the sitting needs so that the next day can be started.
    pub open spec fn can_restart(&self) -> bool {
        &&& self.args.day is Some
        &&& self.args.day->0 < u32::MAX
        &&& 0 < self.answer_list@.len() <= u32::MAX
    }

    /// What starting the next day makes of a sitting: the day moves on,
    /// and a new game begins with the answer of that day.
    pub open spec fn restarted(&self, after: &WordleApp) -> bool {
        let day = (self.args.day->0 + 1) % (self.answer_list@.len() as int);
        &&& after.args == (Args { day: Some(day as u32), ..self.args })
        &&& after.stats == self.stats
        &&& after.word_list == self.word_list
        &&& after.answer_list == self.answer_list
        &&& after.game is Some
        &&& after.game->0@ == (GameView {
            answer: self.answer_list@[day]@,
            words: Seq::empty(),
            difficult: self.args.difficult,
        })
        &&& after.game_status == Some(GameStatus::Going)
        &&& after.guess@ == Seq::<char>::empty()
    }

    /// Ends the day and starts the game of the next.
    pub fn restart(&mut self)
        requires
            old(self).wf(),
            old(self).can_restart(),
        ensures
            final(self).wf(),
            old(self).restarted(final(self)),
    {
        self.another_day();
        self.start();
    }

    /// Whether `press` can handle the key: the statistics have room for
    /// what it may count, and the next day can be started if the key asks
    /// for it.
    pub fn can_press(&self, key: char) -> (ok: bool)
        requires
            self.stats.wf(),
        ensures
            ok == ({
                &&& self.playing() && key == ENTER ==> self.can_count()
                &&& !self.playing() && (key == ENTER || key == BACKSPACE) ==> self.can_restart()
            }),
    {
        let going = match &self.game_status {
            Some(GameStatus::Going) => true,
            _ => false,
        };
        if going {
            if key == ENTER {
                self.stats.get_wins() < i32::MAX && self.stats.get_fails() < i32::MAX
                    && self.stats.get_tries() <= i32::MAX - 6 && self.stats.times_used(
                    self.guess.as_str(),
                ) < usize::MAX
            } else {
                true
            }
        } else if key == ENTER || key == BACKSPACE {
            match self.args.day {
                Some(day) => day < u32::MAX && 0 < self.answer_list.len() && self.answer_list.len()
                    <= u32::MAX as usize,
                None => false,
            }
        } else {
            true
        }
    }

    /// Handles a key. While the game goes on, enter submits the typed
    /// word, backspace takes a letter back and any other key types it;
    /// once the game has ended, enter and backspace start the next day and
    /// other keys do nothing.
    pub fn press(&mut self, key: char)
        requires
            old(self).wf(),
            old(self).playing() && key == ENTER ==> old(self).can_count(),
            !old(self).playing() && (key == ENTER || key == BACKSPACE) ==> old(self).can_restart(),
        ensures
            final(self).wf(),
            old(self).playing() && key == ENTER ==> old(self).submitted(final(self)),
            old(self).playing() && key != ENTER ==> {
                &&& final(self).same_setting(old(self))
                &&& final(self).game == old(self).game
                &&& final(self).game_status == old(self).game_status
                &&& final(self).guess@ == if key == BACKSPACE {
                    if old(self).guess@.len() > 0 {
                        old(self).guess@.drop_last()
                    } else {
                        old(self).guess@
                    }
                } else if byte_len(old(self).guess@) < WORD_LENGTH {
                    old(self).guess@.push(key)
                } else {
                    old(self).guess@
                }
            },
            !old(self).playing() && (key == ENTER || key == BACKSPACE) ==> old(self).restarted(
                final(self),
            ),
            !old(self).playing() && key != ENTER && key != BACKSPACE ==> *final(self) == *old(self),
    {
        let going = match &self.game_status {
            Some(GameStatus::Going) => true,
            _ => false,
        };
        if going {
            if key == ENTER {
                self.submit();
            } else if key == BACKSPACE {
                self.erase();
            } else {
                self.type_letter(key);
            }
        } else {
            if key == BACKSPACE || key == ENTER {
                self.restart();
            }
        }
    }

    /// Makes a sitting ready for play with the given lists: a missing seed
    /// and a missing day get their defaults, the answers are put in the
    /// order of the days, and a game is started unless one is in play.
    pub fn prepare(&mut self, word_list: Vec<String>, answer_list: Vec<String>)
        requires
            all_words(answer_list@),
            old(self).game is None ==> (match old(self).args.day {
                Some(day) => day as int,
                None => 0,
            }) < answer_list@.len(),
        ensures
            final(self).word_list == word_list,
            spellings(final(self).answer_list@) == shuffled(
                sorted_form(spellings(answer_list@)),
                final(self).args.seed->0,
            ),
            same_words(spellings(final(self).answer_list@), spellings(answer_list@)),
            all_words(final(self).answer_list@),
            final(self).args == (Args {
                seed: match old(self).args.seed {
                    Some(seed) => Some(seed),
                    None => Some(crate::args::DEFAULT_SEED),
                },
                day: match old(self).args.day {
                    Some(day) => Some(day),
                    None => Some(0u32),
                },
                ..old(self).args
            }),
            final(self).stats == old(self).stats,
            old(self).game is Some ==> {
                &&& final(self).game == old(self).game
                &&& final(self).game_status == old(self).game_status
                &&& final(self).guess == old(self).guess
            },
            old(self).game is None ==> {
                &&& final(self).game is Some
                &&& final(self).game->0.wf()
                &&& final(self).game->0@ == (GameView {
                    answer: final(self).answer_list@[final(self).args.day->0 as int]@,
                    words: Seq::empty(),
                    difficult: old(self).args.difficult,
                })
                &&& final(self).game_status == Some(GameStatus::Going)
                &&& final(self).guess@ == Seq::<char>::empty()
            },
    {
        if self.args.seed.is_none() {
            self.args.seed = Some(crate::args::DEFAULT_SEED);
        }
        if self.args.day.is_none() {
            self.args.day = Some(crate::args::DEFAULT_DAY - 1);
        }
        self.word_list = word_list;
        self.answer_list = answer_list;
        let seed = self.args.seed.unwrap();
        self.shuffle_answer_list(seed);
        if self.game.is_none() {
            self.start();
        }
    }

    /// What the board shows in a cell: the letters of the guesses made
    /// with their verdicts, then the letters typed so far, then nothing.
    pub open spec fn cell_of(&self, row: int, column: int) -> Letter {
        let g = self.game->0@;
        if row < g.words.len() {
            Letter {
                letter: Some(g.words[row][column]),
                status: crate::grade::grade_at(g.answer, g.words[row], column),
            }
        } else if row == g.words.len() && column < byte_len(self.guess@) {
            Letter {
                letter: if column < self.guess@.len() {
                    Some(self.guess@[column])
                } else {
                    None
                },
                status: LetterStatus::Unknown,
            }
        } else {
            Letter { letter: None, status: LetterStatus::Unknown }
        }
    }

    /// What the board shows in the cell at `row` and `column`.
    pub fn cell(&self, row: usize, column: usize) -> (cell: Letter)
        requires
            self.game is Some,
            self.game->0.wf(),
            column < WORD_LENGTH,
        ensures
            cell == self.cell_of(row as int, column as int),
    {
        let game = self.game.as_ref().unwrap();
        proof {
            game.lemma_wf();
        }
        let guesses = game.get_guesses();
        if row < game.get_round() {
            let word = letters(guesses[row].0.as_str());
            assert(crate::words::is_word(game@.words[row as int]));
            assert(guesses@[row as int].1@ == crate::grade::grade(
                game@.answer,
                game@.words[row as int],
            ));
            Letter { letter: Some(word[column]), status: guesses[row].1[column] }
        } else if row == game.get_round() && column < self.guess.as_str().as_bytes().len() {
            let typed = letters(self.guess.as_str());
            let letter = if column < typed.len() {
                Some(typed[column])
            } else {
                None
            };
            Letter { letter, status: LetterStatus::Unknown }
        } else {
            Letter { letter: None, status: LetterStatus::Unknown }
        }
    }

    /// The word whose definition is of interest once the game has ended:
    /// the winning guess, or the answer that was missed. None while the
    /// game goes on.
    pub fn definition_word(&self) -> (word: Option<&String>)
        requires
            self.game is Some,
            self.game_status is Some,
            self.game_status->0 is Won ==> self.game->0@.words.len() > 0,
        ensures
            match self.game_status->0 {
                GameStatus::Going => word is None,
                GameStatus::Won(_) => word is Some && word->0@ == self.game->0@.words.last(),
                GameStatus::Failed(answer) => word is Some && *word->0 == answer,
            },
    {
        match self.game_status.as_ref().unwrap() {
            GameStatus::Going => None,
            GameStatus::Won(_) => {
                let guesses = self.game.as_ref().unwrap().get_guesses();
                Some(&guesses[guesses.len() - 1].0)
            },
            GameStatus::Failed(answer) => Some(answer),
        }
    }
}

} // verus!
