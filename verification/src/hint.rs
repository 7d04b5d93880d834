//! The hard-mode rule: what an earlier guess revealed must be used again.

use vstd::prelude::*;
use std::collections::HashMap;
use crate::grade::{
    count, lemma_code_point_injective, lookup, tally, Counter, GuessStatus, LetterStatus,
};
use crate::words::{lemma_occurrences_bound, occurrences};

verus! {

/// A status that shows the letter to be in the answer.
pub open spec fn reveals(s: LetterStatus) -> bool {
    s == LetterStatus::Green || s == LetterStatus::Yellow
}

/// Number of positions that an earlier guess and a new word have in common.
pub open spec fn overlap(prev: Seq<char>, word: Seq<char>) -> int {
    if prev.len() <= word.len() {
        prev.len() as int
    } else {
        word.len() as int
    }
}

/// Among the first `n` positions of an earlier guess, how many hold `c`
/// with a green or yellow verdict.
pub open spec fn revealed(prev: Seq<char>, status: Seq<LetterStatus>, c: char, n: int) -> nat
    decreases n,
{
    if n <= 0 {
        0
    } else {
        revealed(prev, status, c, n - 1) + if n <= prev.len() && n <= status.len() && prev[n - 1]
            == c && reveals(status[n - 1]) {
            1nat
        } else {
            0nat
        }
    }
}

/// Green letters stay where they were.
pub open spec fn keeps_greens(prev: Seq<char>, status: Seq<LetterStatus>, word: Seq<char>) -> bool {
    forall|i: int|
        0 <= i < overlap(prev, word) && #[trigger] status[i] == LetterStatus::Green ==> word[i]
            == prev[i]
}

/// Every revealed letter occurs in the new word at least as often as it was
/// revealed.
pub open spec fn keeps_letters(prev: Seq<char>, status: Seq<LetterStatus>, word: Seq<char>) -> bool {
    forall|c: char| #[trigger]
        revealed(prev, status, c, overlap(prev, word)) <= occurrences(word, c, word.len() as int)
}

/// The two further demands of the strict rule: a letter with a red
/// verdict occurs exactly as often as it was revealed, and a yellow letter
/// is not put in the same place again.
pub open spec fn keeps_strictly(prev: Seq<char>, status: Seq<LetterStatus>, word: Seq<char>) -> bool {
    forall|i: int|
        0 <= i < overlap(prev, word) ==> {
            &&& #[trigger] status[i] == LetterStatus::Red ==> occurrences(
                word,
                prev[i],
                word.len() as int,
            ) == revealed(prev, status, prev[i], overlap(prev, word))
            &&& status[i] == LetterStatus::Yellow ==> word[i] != prev[i]
        }
}

/// Whether `word` uses what the earlier guess `prev` with verdicts `status`
/// revealed.
pub open spec fn keeps_hints(
    prev: Seq<char>,
    status: Seq<LetterStatus>,
    word: Seq<char>,
    strict: bool,
) -> bool {
    &&& keeps_greens(prev, status, word)
    &&& keeps_letters(prev, status, word)
    &&& strict ==> keeps_strictly(prev, status, word)
}

/// What a counter of a word's letters holds.
pub open spec fn counts_letters(counter: Map<u32, usize>, word: Seq<char>) -> bool {
    forall|c: char| #[trigger] tally(counter, c) == occurrences(word, c, word.len() as int)
}

/// A letter that was revealed at all was revealed at some position.
pub proof fn lemma_revealed_somewhere(
    prev: Seq<char>,
    status: Seq<LetterStatus>,
    c: char,
    n: int,
) -> (j: int)
    requires
        revealed(prev, status, c, n) > 0,
    ensures
        0 <= j < n,
        j < prev.len(),
        j < status.len(),
        prev[j] == c,
        reveals(status[j]),
    decreases n,
{
    if n <= prev.len() && n <= status.len() && prev[n - 1] == c && reveals(status[n - 1]) {
        n - 1
    } else {
        lemma_revealed_somewhere(prev, status, c, n - 1)
    }
}

/// No more letters are revealed than positions were looked at.
pub proof fn lemma_revealed_bound(prev: Seq<char>, status: Seq<LetterStatus>, c: char, n: int)
    ensures
        revealed(prev, status, c, n) <= if n < 0 { 0 } else { n },
    decreases n,
{
    if n > 0 {
        lemma_revealed_bound(prev, status, c, n - 1);
    }
}

/// Counts the letters of a word.
pub fn count_letters(word: &Vec<char>) -> (counter: Counter)
    ensures
        counts_letters(counter@, word@),
{
    let mut counter: Counter = HashMap::new();
    let mut i: usize = 0;
    while i < word.len()
        invariant
            i <= word.len(),
            forall|c: char| #[trigger] tally(counter@, c) == occurrences(word@, c, i as int),
        decreases word.len() - i,
    {
        let letter = word[i];
        proof {
            lemma_occurrences_bound(word@, letter, i as int);
        }
        let ghost before = counter@;
        count(&mut counter, letter);
        i += 1;
        assert forall|c: char| #[trigger]
            tally(counter@, c) == occurrences(word@, c, i as int) by {
            lemma_code_point_injective(c, letter);
            assert(tally(before, c) == occurrences(word@, c, i - 1));
        }
    }
    counter
}

/// Checks a new word against one earlier guess. `guess_counter` holds the
/// counts of the new word's letters.
pub fn check_hints(
    prev: &Vec<char>,
    status: &GuessStatus,
    word: &Vec<char>,
    guess_counter: &Counter,
    strict: bool,
) -> (kept: bool)
    requires
        prev@.len() == 5,
        counts_letters(guess_counter@, word@),
    ensures
        kept == keeps_hints(prev@, status@, word@, strict),
{
    let n: usize = if word.len() < 5 { word.len() } else { 5 };
    assert(n == overlap(prev@, word@));
    // Green letters must stay; green and yellow letters are counted.
    let mut last_guess_counter: Counter = HashMap::new();
    let mut i: usize = 0;
    while i < n
        invariant
            i <= n,
            n == overlap(prev@, word@),
            prev@.len() == 5,
            forall|j: int| 0 <= j < i && #[trigger] status@[j] == LetterStatus::Green ==> word@[j]
                == prev@[j],
            forall|c: char| #[trigger]
                tally(last_guess_counter@, c) == revealed(prev@, status@, c, i as int),
        decreases n - i,
    {
        let last_letter = prev[i];
        let ghost before = last_guess_counter@;
        proof {
            lemma_revealed_bound(prev@, status@, last_letter, i as int);
        }
        match status[i] {
            LetterStatus::Green => {
                if word[i] != last_letter {
                    assert(!keeps_greens(prev@, status@, word@)) by {
                        assert(status@[i as int] == LetterStatus::Green);
                    }
                    return false;
                }
                count(&mut last_guess_counter, last_letter);
            },
            LetterStatus::Yellow => {
                count(&mut last_guess_counter, last_letter);
            },
            _ => {},
        }
        i += 1;
        assert forall|c: char| #[trigger]
            tally(last_guess_counter@, c) == revealed(prev@, status@, c, i as int) by {
            lemma_code_point_injective(c, last_letter);
            assert(tally(before, c) == revealed(prev@, status@, c, i - 1));
        }
    }
    assert(keeps_greens(prev@, status@, word@));

    // Revealed letters must occur often enough.
    i = 0;
    while i < n
        invariant
            i <= n,
            n == overlap(prev@, word@),
            prev@.len() == 5,
            counts_letters(guess_counter@, word@),
            forall|c: char| #[trigger]
                tally(last_guess_counter@, c) == revealed(prev@, status@, c, n as int),
            forall|j: int|
                0 <= j < i && reveals(#[trigger] status@[j]) ==> revealed(
                    prev@,
                    status@,
                    prev@[j],
                    n as int,
                ) <= occurrences(word@, prev@[j], word@.len() as int),
        decreases n - i,
    {
        let last_letter = prev[i];
        match status[i] {
            LetterStatus::Green | LetterStatus::Yellow => {
                assert(tally(guess_counter@, last_letter) == occurrences(
                    word@,
                    last_letter,
                    word@.len() as int,
                ));
                assert(tally(last_guess_counter@, last_letter) == revealed(
                    prev@,
                    status@,
                    last_letter,
                    n as int,
                ));
                if lookup(guess_counter, last_letter) < lookup(&last_guess_counter, last_letter) {
                    assert(!keeps_letters(prev@, status@, word@)) by {
                        assert(revealed(prev@, status@, last_letter, overlap(prev@, word@))
                            > occurrences(word@, last_letter, word@.len() as int));
                    }
                    return false;
                }
            },
            _ => {},
        }
        i += 1;
    }
    assert(keeps_letters(prev@, status@, word@)) by {
        assert forall|c: char| #[trigger]
            revealed(prev@, status@, c, overlap(prev@, word@)) <= occurrences(
                word@,
                c,
                word@.len() as int,
            ) by {
            if revealed(prev@, status@, c, n as int) > 0 {
                let j = lemma_revealed_somewhere(prev@, status@, c, n as int);
                assert(reveals(status@[j]));
            }
        }
    }

    if strict {
        i = 0;
        while i < n
            invariant
                strict,
                i <= n,
                n == overlap(prev@, word@),
                prev@.len() == 5,
                counts_letters(guess_counter@, word@),
                forall|c: char| #[trigger]
                    tally(last_guess_counter@, c) == revealed(prev@, status@, c, n as int),
                forall|j: int|
                    0 <= j < i ==> {
                        &&& #[trigger] status@[j] == LetterStatus::Red ==> occurrences(
                            word@,
                            prev@[j],
                            word@.len() as int,
                        ) == revealed(prev@, status@, prev@[j], n as int)
                        &&& status@[j] == LetterStatus::Yellow ==> word@[j] != prev@[j]
                    },
            decreases n - i,
        {
            let last_letter = prev[i];
            assert(tally(guess_counter@, last_letter) == occurrences(
                word@,
                last_letter,
                word@.len() as int,
            ));
            assert(tally(last_guess_counter@, last_letter) == revealed(
                prev@,
                status@,
                last_letter,
                n as int,
            ));
            match status[i] {
                LetterStatus::Red => {
                    if lookup(guess_counter, last_letter) != lookup(
                        &last_guess_counter,
                        last_letter,
                    ) {
                        assert(!keeps_strictly(prev@, status@, word@)) by {
                            assert(status@[i as int] == LetterStatus::Red);
                        }
                        return false;
                    }
                },
                LetterStatus::Yellow => {
                    if word[i] == last_letter {
                        assert(!keeps_strictly(prev@, status@, word@)) by {
                            assert(status@[i as int] == LetterStatus::Yellow);
                        }
                        return false;
                    }
                },
                _ => {},
            }
            i += 1;
        }
        assert(keeps_strictly(prev@, status@, word@));
    }
    true
}

} // verus!
