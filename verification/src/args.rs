//! The options of a run, and the checks made on them before a game starts.

use vstd::prelude::*;
use crate::words::{contains_word, spellings};

verus! {

/// The day played when none is given.
pub const DEFAULT_DAY: u32 = 1;

/// The seed of the shuffle when none is given.
pub const DEFAULT_SEED: u64 = 19260817;

/// The day played when none is given, as an option.
pub fn get_one() -> (day: Option<u32>)
    ensures
        day == Some(DEFAULT_DAY),
{
    Some(DEFAULT_DAY)
}

/// The seed of the shuffle when none is given, as an option.
pub fn get_default_seed() -> (seed: Option<u64>)
    ensures
        seed == Some(DEFAULT_SEED),
{
    Some(DEFAULT_SEED)
}

/// The options of a run. Files are given by their paths.
pub struct Args {
    /// The answer to play with.
    pub word: Option<String>,
    /// Whether the answer is drawn from the shuffled list.
    pub random: bool,
    /// Whether hard mode is on.
    pub difficult: bool,
    /// Whether statistics are shown after each game.
    pub stats: bool,
    /// The day to start with, counted from one.
    pub day: Option<u32>,
    /// The seed of the shuffle.
    pub seed: Option<u64>,
    /// The file of words that may be answers.
    pub final_set: Option<String>,
    /// The file of words that may be guessed.
    pub acceptable_set: Option<String>,
    /// The file in which games are kept between runs.
    pub state: Option<String>,
    /// The file from which options are read first.
    pub config: Option<String>,
}

impl Default for Args {
    /// No option set.
    fn default() -> (args: Self)
        ensures
            args.word is None,
            !args.random,
            !args.difficult,
            !args.stats,
            args.day is None,
            args.seed is None,
            args.final_set is None,
            args.acceptable_set is None,
            args.state is None,
            args.config is None,
    {
        Args {
            word: None,
            random: false,
            difficult: false,
            stats: false,
            day: None,
            seed: None,
            final_set: None,
            acceptable_set: None,
            state: None,
            config: None,
        }
    }
}

/// What was found at the path of a word list.
pub enum WordListFile {
    /// Nothing is there.
    Missing,
    /// What is there is no file.
    NotAFile,
    /// A file with these words.
    Words(Vec<String>),
}

/// What the lowercase form of a string is, character for character as
/// Unicode defines it.
pub uninterp spec fn lowercased(s: Seq<char>) -> Seq<char>;

/// The lowercase form of a string: `str::to_lowercase` of the standard
/// library. Its result depends on the string alone; nothing else is
/// claimed of it.
#[verifier::external_body]
fn to_lowercase(s: &String) -> (r: String)
    ensures
        r@ == lowercased(s@),
{
    s.to_lowercase()
}

/// A Latin letter, capital or small.
pub open spec fn is_latin(c: char) -> bool {
    'A' <= c <= 'Z' || 'a' <= c <= 'z'
}

/// Five Latin letters.
pub open spec fn is_latin_word(w: Seq<char>) -> bool {
    &&& w.len() == 5
    &&& forall|i: int| 0 <= i < w.len() ==> is_latin(#[trigger] w[i])
}

/// What is wrong with a word list, if anything: the message for the first
/// fault found.
pub open spec fn word_list_fault(file: WordListFile) -> Option<Seq<char>> {
    match file {
        WordListFile::Missing => Some("File does not exist"@),
        WordListFile::NotAFile => Some("Not a file"@),
        WordListFile::Words(words) => {
            if exists|i: int| 0 <= i < words@.len() && !is_latin_word(#[trigger] words@[i]@) {
                Some("Invalid word list: words should consist of 5 latin letters"@)
            } else if words@.len() == 0 {
                Some("Invalid word list: empty file"@)
            } else {
                None
            }
        },
    }
}

/// Whether a result carries the message of the fault, or none where there
/// is no fault.
pub open spec fn reports(r: Result<(), String>, fault: Option<Seq<char>>) -> bool {
    match r {
        Ok(_) => fault is None,
        Err(message) => fault == Some(message@),
    }
}

/// Whether a word is five Latin letters.
pub fn check_latin_word(word: &str) -> (ok: bool)
    ensures
        ok == is_latin_word(word@),
{
    let letters = crate::words::letters(word);
    if letters.len() != 5 {
        return false;
    }
    let mut i: usize = 0;
    while i < 5
        invariant
            i <= 5,
            letters@ == word@,
            letters@.len() == 5,
            forall|j: int| 0 <= j < i ==> is_latin(#[trigger] word@[j]),
        decreases 5 - i,
    {
        let c = letters[i];
        if !(('A' <= c && c <= 'Z') || ('a' <= c && c <= 'z')) {
            assert(!is_latin(word@[i as int]));
            return false;
        }
        i += 1;
    }
    true
}

/// Checks what was found at the path of a word list: it must be a file
/// that holds at least one word, and only words of five Latin letters.
pub fn is_valid_word_list(file: &WordListFile) -> (r: Result<(), String>)
    ensures
        reports(r, word_list_fault(*file)),
{
    match file {
        WordListFile::Missing => Err("File does not exist".to_owned()),
        WordListFile::NotAFile => Err("Not a file".to_owned()),
        WordListFile::Words(words) => {
            let mut i: usize = 0;
            while i < words.len()
                invariant
                    i <= words@.len(),
                    *file == WordListFile::Words(*words),
                    forall|j: int| 0 <= j < i ==> is_latin_word(#[trigger] words@[j]@),
                decreases words@.len() - i,
            {
                if !check_latin_word(words[i].as_str()) {
                    assert(!is_latin_word(words@[i as int]@));
                    return Err(
                        "Invalid word list: words should consist of 5 latin letters".to_owned(),
                    );
                }
                i += 1;
            }
            if words.len() == 0 {
                return Err("Invalid word list: empty file".to_owned());
            }
            Ok(())
        },
    }
}

/// What is wrong with the options, if anything, given the lowercase form
/// of the word offered as answer: the message for the first fault found.
pub open spec fn args_fault(args: Args, lowered: Option<Seq<char>>, list: Seq<Seq<char>>) -> Option<
    Seq<char>,
> {
    if args.day is Some && args.day->0 == 0 {
        Some("Day must be greater than 0!"@)
    } else if args.day is Some && args.day->0 > (list.len() as u32) {
        Some("Day should be less than or equal to the number of answers!"@)
    } else if lowered is Some && !list.contains(lowered->0) {
        Some("Provided answer is not in the answer words list!"@)
    } else if args.word is Some && args.random {
        Some("Conflicting arguments: --word and --random"@)
    } else if args.seed is Some && !args.random {
        Some("--seed requires --random"@)
    } else if args.day is Some && !args.random {
        Some("--day requires --random"@)
    } else {
        None
    }
}

/// The lowercase form of the word offered as answer, if one is offered.
pub open spec fn lowered_word(args: Args) -> Option<Seq<char>> {
    match args.word {
        Some(word) => Some(lowercased(word@)),
        None => None,
    }
}

impl Args {
    /// Checks the two word lists that the options name, the list of
    /// answers first. What was found at each path is handed in; a list
    /// that the options do not name is not looked at.
    pub fn validate_word_list(&self, final_set: &WordListFile, acceptable_set: &WordListFile) -> (r:
        Result<(), String>)
        ensures
            reports(
                r,
                if self.final_set is Some && word_list_fault(*final_set) is Some {
                    word_list_fault(*final_set)
                } else if self.acceptable_set is Some {
                    word_list_fault(*acceptable_set)
                } else {
                    None
                },
            ),
    {
        if self.final_set.is_some() {
            match is_valid_word_list(final_set) {
                Err(message) => {
                    return Err(message);
                },
                Ok(_) => {},
            }
        }
        if self.acceptable_set.is_some() {
            match is_valid_word_list(acceptable_set) {
                Err(message) => {
                    return Err(message);
                },
                Ok(_) => {},
            }
        }
        Ok(())
    }

    /// Checks the options against the list of answers.
    pub fn validate(&self, answer_list: &Vec<String>) -> (r: Result<(), String>)
        ensures
            reports(r, args_fault(*self, lowered_word(*self), spellings(answer_list@))),
    {
        let lowered = match &self.word {
            Some(word) => Some(to_lowercase(word)),
            None => None,
        };
        self.validate_lowered(&lowered, answer_list)
    }

    /// Checks the options against the list of answers, where `lowered` is
    /// the lowercase form of the word offered as answer.
    pub fn validate_lowered(&self, lowered: &Option<String>, answer_list: &Vec<String>) -> (r: Result<
        (),
        String,
    >)
        ensures
            reports(
                r,
                args_fault(
                    *self,
                    match *lowered {
                        Some(word) => Some(word@),
                        None => None,
                    },
                    spellings(answer_list@),
                ),
            ),
    {
        if let Some(day) = self.day {
            if day == 0 {
                return Err("Day must be greater than 0!".to_owned());
            }
            if day > #[verifier::truncate] (answer_list.len() as u32) {
                return Err("Day should be less than or equal to the number of answers!".to_owned());
            }
        }
        if let Some(word) = lowered {
            if !contains_word(answer_list, word) {
                return Err("Provided answer is not in the answer words list!".to_owned());
            }
        }
        if self.word.is_some() && self.random {
            return Err("Conflicting arguments: --word and --random".to_owned());
        }
        if self.seed.is_some() && !self.random {
            return Err("--seed requires --random".to_owned());
        }
        if self.day.is_some() && !self.random {
            return Err("--day requires --random".to_owned());
        }
        Ok(())
    }
}

} // verus!
