//! Word lists as they come from a file: words set apart by white space,
//! in any case.

use vstd::prelude::*;
use crate::words::{contains_word, letters, push_char, spellings};

verus! {

/// Whether a character is white space as Unicode defines it.
pub uninterp spec fn is_space(c: char) -> bool;

/// What the uppercase form of a string is, character for character as
/// Unicode defines it.
pub uninterp spec fn uppercased(s: Seq<char>) -> Seq<char>;

/// Whether a character is white space: `char::is_whitespace` of the
/// standard library. The answer depends on the character alone.
#[verifier::external_body]
fn is_whitespace(c: char) -> (b: bool)
    ensures
        b == is_space(c),
{
    c.is_whitespace()
}

/// The uppercase form of a string: `str::to_uppercase` of the standard
/// library. Its result depends on the string alone; nothing else is
/// claimed of it.
#[verifier::external_body]
fn to_uppercase(s: &String) -> (r: String)
    ensures
        r@ == uppercased(s@),
{
    s.to_uppercase()
}

/// Reading the first `n` characters of a text, of which `blank` marks
/// those that set words apart: the words that have ended, and the letters
/// of the word that has not. A character without a mark counts as a
/// letter.
pub open spec fn scanned(text: Seq<char>, blank: Seq<bool>, n: int) -> (Seq<Seq<char>>, Seq<char>)
    decreases n,
{
    if n <= 0 {
        (Seq::empty(), Seq::empty())
    } else {
        let (done, run) = scanned(text, blank, n - 1);
        if !(n <= blank.len() && blank[n - 1]) {
            (done, run.push(text[n - 1]))
        } else if run.len() > 0 {
            (done.push(run), Seq::empty())
        } else {
            (done, run)
        }
    }
}

/// The words of a text: its longest stretches without a blank, in order.
pub open spec fn words_between(text: Seq<char>, blank: Seq<bool>) -> Seq<Seq<char>> {
    let (done, run) = scanned(text, blank, text.len() as int);
    if run.len() > 0 {
        done.push(run)
    } else {
        done
    }
}

/// Which characters of a text are white space.
pub open spec fn spaces_of(text: Seq<char>) -> Seq<bool> {
    Seq::new(text.len(), |i: int| is_space(text[i]))
}

/// The words of a text set apart by white space, each in uppercase.
pub open spec fn word_list_of(text: Seq<char>) -> Seq<Seq<char>> {
    Seq::new(
        words_between(text, spaces_of(text)).len(),
        |i: int| uppercased(words_between(text, spaces_of(text))[i]),
    )
}

/// Splits a text into its words, where `blank` marks the characters that
/// set words apart.
pub fn split_words(text: &Vec<char>, blank: &Vec<bool>) -> (words: Vec<String>)
    ensures
        spellings(words@) == words_between(text@, blank@),
{
    let mut words: Vec<String> = Vec::new();
    let mut run = String::new();
    let mut n: usize = 0;
    while n < text.len()
        invariant
            n <= text@.len(),
            run@ == scanned(text@, blank@, n as int).1,
            spellings(words@) == scanned(text@, blank@, n as int).0,
        decreases text@.len() - n,
    {
        let ghost before = spellings(words@);
        if !(n < blank.len() && blank[n]) {
            push_char(&mut run, text[n]);
        } else if !run.as_str().is_empty() {
            words.push(run);
            run = String::new();
            assert(spellings(words@) =~= before.push(scanned(text@, blank@, n as int).1));
        }
        n += 1;
    }
    if !run.as_str().is_empty() {
        let ghost before = spellings(words@);
        words.push(run);
        assert(spellings(words@) =~= before.push(scanned(text@, blank@, n as int).1));
    }
    words
}

/// Reads a word list from the contents of a file: the words between
/// white space, each put in uppercase.
pub fn parse_word_list(contents: &str) -> (list: Vec<String>)
    ensures
        spellings(list@) == word_list_of(contents@),
{
    let text = letters(contents);
    let mut blank: Vec<bool> = Vec::new();
    let mut n: usize = 0;
    while n < text.len()
        invariant
            n <= text@.len(),
            text@ == contents@,
            blank@ == spaces_of(text@).take(n as int),
        decreases text@.len() - n,
    {
        blank.push(is_whitespace(text[n]));
        n += 1;
        assert(blank@ =~= spaces_of(text@).take(n as int));
    }
    assert(blank@ =~= spaces_of(text@));
    let words = split_words(&text, &blank);
    let mut list: Vec<String> = Vec::new();
    let mut i: usize = 0;
    while i < words.len()
        invariant
            i <= words@.len(),
            list@.len() == i,
            forall|j: int| 0 <= j < i ==> (#[trigger] list@[j])@ == uppercased(words@[j]@),
        decreases words@.len() - i,
    {
        list.push(to_uppercase(&words[i]));
        i += 1;
    }
    assert(spellings(list@) =~= word_list_of(contents@)) by {
        assert forall|j: int| 0 <= j < list@.len() implies spellings(list@)[j] == word_list_of(
            contents@,
        )[j] by {
            assert(spellings(words@)[j] == words@[j]@);
        }
    }
    list
}

/// Whether every word of `part` is a word of `whole`.
pub fn is_sublist(part: &Vec<String>, whole: &Vec<String>) -> (b: bool)
    ensures
        b == forall|i: int|
            0 <= i < part@.len() ==> spellings(whole@).contains(#[trigger] part@[i]@),
{
    let mut i: usize = 0;
    while i < part.len()
        invariant
            i <= part@.len(),
            forall|j: int| 0 <= j < i ==> spellings(whole@).contains(#[trigger] part@[j]@),
        decreases part@.len() - i,
    {
        if !contains_word(whole, &part[i]) {
            return false;
        }
        i += 1;
    }
    true
}

} // verus!
