//! Words as sequences of characters, and the few operations on them that
//! the rest of the library is built from.

use vstd::prelude::*;

verus! {

/// Number of letters in a playable word.
pub const WORD_LENGTH: usize = 5;

/// Number of letters on the keyboard, `A` to `Z`.
pub const ALPHABET_SIZE: usize = 26;

/// A capital Latin letter.
pub open spec fn is_letter(c: char) -> bool {
    'A' <= c <= 'Z'
}

/// A playable word: exactly five capital Latin letters.
pub open spec fn is_word(w: Seq<char>) -> bool {
    &&& w.len() == WORD_LENGTH
    &&& forall|i: int| 0 <= i < w.len() ==> is_letter(#[trigger] w[i])
}

/// The words of a list, each as its sequence of characters.
pub open spec fn spellings(list: Seq<String>) -> Seq<Seq<char>> {
    Seq::new(list.len(), |i: int| list[i]@)
}

/// How many of the first `n` characters of `w` are `c`.
pub open spec fn occurrences(w: Seq<char>, c: char, n: int) -> nat
    decreases n,
{
    if n <= 0 {
        0
    } else {
        occurrences(w, c, n - 1) + if n <= w.len() && w[n - 1] == c { 1nat } else { 0nat }
    }
}

/// Length of a word in bytes, as UTF-8 stores it.
pub open spec fn byte_len(w: Seq<char>) -> nat {
    vstd::utf8::encode_utf8(w).len()
}

/// A playable word takes one byte per letter.
pub proof fn lemma_word_byte_len(w: Seq<char>)
    requires
        is_word(w),
    ensures
        byte_len(w) == WORD_LENGTH,
{
    assert(vstd::utf8::is_ascii_chars(w)) by {
        assert forall|i: int| 0 <= i < w.len() implies '\0' <= #[trigger] w[i] <= '\u{7f}' by {
            assert(is_letter(w[i]));
        }
    }
    vstd::utf8::is_ascii_chars_encode_utf8(w);
}

/// The count of a character never exceeds the number of positions looked at.
pub proof fn lemma_occurrences_bound(w: Seq<char>, c: char, n: int)
    ensures
        occurrences(w, c, n) <= if n < 0 { 0 } else { n },
    decreases n,
{
    if n > 0 {
        lemma_occurrences_bound(w, c, n - 1);
    }
}

/// The characters of a string, in order.
pub fn letters(s: &str) -> (v: Vec<char>)
    ensures
        v@ == s@,
{
    let mut v: Vec<char> = Vec::new();
    for c in it: s.chars()
        invariant
            v@ == it.seq().take(it.index() as int),
    {
        v.push(c);
    }
    v
}

/// Whether `word` is one of the words of `list`.
pub fn contains_word(list: &Vec<String>, word: &String) -> (found: bool)
    ensures
        found == spellings(list@).contains(word@),
{
    let mut i: usize = 0;
    while i < list.len()
        invariant
            i <= list.len(),
            forall|j: int| 0 <= j < i ==> spellings(list@)[j] != word@,
        decreases list.len() - i,
    {
        if list[i] == *word {
            assert(spellings(list@)[i as int] == word@);
            return true;
        }
        i += 1;
    }
    false
}

/// Every word of the list is playable.
pub open spec fn all_words(list: Seq<String>) -> bool {
    forall|i: int| 0 <= i < list.len() ==> is_word(#[trigger] list[i]@)
}

/// A word that a list of playable words holds is playable.
pub proof fn lemma_listed_word(list: Seq<String>, word: Seq<char>)
    requires
        all_words(list),
    ensures
        spellings(list).contains(word) ==> is_word(word),
{
    if spellings(list).contains(word) {
        let i = choose|i: int| 0 <= i < spellings(list).len() && spellings(list)[i] == word;
        assert(is_word(list[i]@));
    }
}

/// Whether a string is a playable word.
pub fn check_word(word: &str) -> (ok: bool)
    ensures
        ok == is_word(word@),
{
    let text = letters(word);
    if text.len() != WORD_LENGTH {
        return false;
    }
    let mut i: usize = 0;
    while i < text.len()
        invariant
            i <= text@.len(),
            text@ == word@,
            text@.len() == WORD_LENGTH,
            forall|j: int| 0 <= j < i ==> is_letter(#[trigger] word@[j]),
        decreases text@.len() - i,
    {
        let c = text[i];
        if !('A' <= c && c <= 'Z') {
            assert(!is_letter(word@[i as int]));
            return false;
        }
        i += 1;
    }
    true
}

/// Whether every word of a list is playable.
pub fn check_words(list: &Vec<String>) -> (ok: bool)
    ensures
        ok == all_words(list@),
{
    let mut i: usize = 0;
    while i < list.len()
        invariant
            i <= list@.len(),
            forall|j: int| 0 <= j < i ==> is_word(#[trigger] list@[j]@),
        decreases list@.len() - i,
    {
        if !check_word(list[i].as_str()) {
            return false;
        }
        i += 1;
    }
    true
}

/// Appends a character to a string: `String::push` of the standard
/// library.
#[verifier::external_body]
pub(crate) fn push_char(s: &mut String, c: char)
    ensures
        final(s)@ == old(s)@.push(c),
{
    s.push(c)
}

/// Takes the last character off a string and returns it, or returns
/// `None` where the string is empty: `String::pop` of the standard
/// library.
#[verifier::external_body]
pub(crate) fn pop_char(s: &mut String) -> (c: Option<char>)
    ensures
        old(s)@.len() == 0 ==> c is None && final(s)@ == old(s)@,
        old(s)@.len() > 0 ==> c == Some(old(s)@.last()) && final(s)@ == old(s)@.drop_last(),
{
    s.pop()
}

/// Empties a string: `String::clear` of the standard library.
#[verifier::external_body]
pub(crate) fn clear_string(s: &mut String)
    ensures
        final(s)@ == Seq::<char>::empty(),
{
    s.clear()
}

} // verus!
