//! Grading of one guess against the answer.
//!
//! A letter in its right place is green. The letters of the answer that no
//! green position uses up are shared out, left to right, among the other
//! positions of the guess that hold them: those are yellow, and what is
//! left over is red.

use vstd::prelude::*;
use std::collections::HashMap;


verus! {

/// The verdict on one letter of a guess, from least to most informative.
#[derive(Clone, Copy, Debug, PartialEq, Eq, Structural, PartialOrd, Ord, Hash)]
pub enum LetterStatus {
    Unknown,
    Red,
    Yellow,
    Green,
}

/// The verdicts on the five letters of a guess.
pub type GuessStatus = [LetterStatus; 5];

/// Per-letter counts, keyed by the letter's code point.
pub type Counter = HashMap<u32, usize>;

impl LetterStatus {
    /// Place of the status in the order `Unknown < Red < Yellow < Green`.
    pub open spec fn rank(self) -> nat {
        match self {
            LetterStatus::Unknown => 0,
            LetterStatus::Red => 1,
            LetterStatus::Yellow => 2,
            LetterStatus::Green => 3,
        }
    }

    /// The greater of two statuses.
    pub open spec fn best(self, other: LetterStatus) -> LetterStatus {
        if self.rank() >= other.rank() {
            self
        } else {
            other
        }
    }

    /// One capital letter that stands for the status.
    pub open spec fn mark(self) -> char {
        match self {
            LetterStatus::Unknown => 'X',
            LetterStatus::Red => 'R',
            LetterStatus::Yellow => 'Y',
            LetterStatus::Green => 'G',
        }
    }

    /// One capital letter that stands for the status.
    pub fn to_char(&self) -> (c: char)
        ensures
            c == self.mark(),
    {
        match self {
            Self::Unknown => 'X',
            Self::Red => 'R',
            Self::Yellow => 'Y',
            Self::Green => 'G',
        }
    }

    /// The greater of two statuses.
    pub fn max(self, other: LetterStatus) -> (m: LetterStatus)
        ensures
            m == self.best(other),
    {
        let a: u8 = match self {
            Self::Unknown => 0,
            Self::Red => 1,
            Self::Yellow => 2,
            Self::Green => 3,
        };
        let b: u8 = match other {
            Self::Unknown => 0,
            Self::Red => 1,
            Self::Yellow => 2,
            Self::Green => 3,
        };
        if a >= b {
            self
        } else {
            other
        }
    }
}

/// Whether position `i` of the guess holds the answer's letter.
pub open spec fn hit(answer: Seq<char>, guess: Seq<char>, i: int) -> bool {
    0 <= i < answer.len() && i < guess.len() && guess[i] == answer[i]
}

/// Among the first `n` positions of the answer, how many hold `c` and were
/// not guessed in place.
pub open spec fn unclaimed(answer: Seq<char>, guess: Seq<char>, c: char, n: int) -> nat
    decreases n,
{
    if n <= 0 {
        0
    } else {
        unclaimed(answer, guess, c, n - 1) + if n <= answer.len() && answer[n - 1] == c && !hit(
            answer,
            guess,
            n - 1,
        ) {
            1nat
        } else {
            0nat
        }
    }
}

/// Among the first `n` positions of the guess, how many hold `c` out of
/// place.
pub open spec fn misplaced(answer: Seq<char>, guess: Seq<char>, c: char, n: int) -> nat
    decreases n,
{
    if n <= 0 {
        0
    } else {
        misplaced(answer, guess, c, n - 1) + if n <= guess.len() && guess[n - 1] == c && !hit(
            answer,
            guess,
            n - 1,
        ) {
            1nat
        } else {
            0nat
        }
    }
}

/// Among the first `n` positions, how many hold `c` in both words.
pub open spec fn hits(answer: Seq<char>, guess: Seq<char>, c: char, n: int) -> nat
    decreases n,
{
    if n <= 0 {
        0
    } else {
        hits(answer, guess, c, n - 1) + if hit(answer, guess, n - 1) && guess[n - 1] == c {
            1nat
        } else {
            0nat
        }
    }
}

/// The verdict on position `i` of the guess.
pub open spec fn grade_at(answer: Seq<char>, guess: Seq<char>, i: int) -> LetterStatus {
    if hit(answer, guess, i) {
        LetterStatus::Green
    } else if misplaced(answer, guess, guess[i], i + 1) <= unclaimed(
        answer,
        guess,
        guess[i],
        answer.len() as int,
    ) {
        LetterStatus::Yellow
    } else {
        LetterStatus::Red
    }
}

/// The verdicts on all positions of the guess.
pub open spec fn grade(answer: Seq<char>, guess: Seq<char>) -> Seq<LetterStatus> {
    Seq::new(guess.len(), |i: int| grade_at(answer, guess, i))
}

/// What a counter holds for a letter: zero where it has no entry.
pub open spec fn tally(m: Map<u32, usize>, c: char) -> nat {
    if m.contains_key(c as u32) {
        m[c as u32] as nat
    } else {
        0
    }
}

/// Two characters with the same code point are the same character.
pub proof fn lemma_code_point_injective(a: char, b: char)
    ensures
        (a as u32 == b as u32) <==> a == b,
{
}

/// Adds one to the count of `letter` and returns the new count.
pub fn count(counter: &mut Counter, letter: char) -> (n: usize)
    requires
        tally(old(counter)@, letter) < usize::MAX,
    ensures
        n == tally(old(counter)@, letter) + 1,
        final(counter)@ == old(counter)@.insert(letter as u32, n),
{
    let key = letter as u32;
    let n = match counter.get(&key) {
        Some(k) => *k + 1,
        None => 1,
    };
    counter.insert(key, n);
    n
}

/// What a counter holds for a letter: zero where it has no entry.
pub fn lookup(counter: &Counter, letter: char) -> (n: usize)
    ensures
        n == tally(counter@, letter),
{
    let key = letter as u32;
    match counter.get(&key) {
        Some(k) => *k,
        None => 0,
    }
}

/// Looking at more positions never lowers a count.
pub proof fn lemma_occurrences_monotonic(w: Seq<char>, c: char, m: int, n: int)
    requires
        m <= n,
    ensures
        crate::words::occurrences(w, c, m) <= crate::words::occurrences(w, c, n),
    decreases n - m,
{
    if m < n {
        lemma_occurrences_monotonic(w, c, m, n - 1);
    }
}

/// A letter of the answer is either guessed in place or left unclaimed.
pub proof fn lemma_hits_and_unclaimed(answer: Seq<char>, guess: Seq<char>, c: char, n: int)
    requires
        n <= answer.len(),
    ensures
        crate::words::occurrences(answer, c, n) == hits(answer, guess, c, n) + unclaimed(
            answer,
            guess,
            c,
            n,
        ),
    decreases n,
{
    if n > 0 {
        lemma_hits_and_unclaimed(answer, guess, c, n - 1);
    }
}

/// Grades a five-letter guess against a five-letter answer.
pub fn grade_word(answer: &Vec<char>, word: &Vec<char>) -> (result: GuessStatus)
    requires
        answer@.len() == 5,
        word@.len() == 5,
    ensures
        result@ == grade(answer@, word@),
{
    // How often each letter occurs in the answer.
    let mut ans_counter: Counter = HashMap::new();
    let mut i: usize = 0;
    while i < 5
        invariant
            i <= 5,
            answer@.len() == 5,
            forall|c: char| #[trigger]
                tally(ans_counter@, c) == crate::words::occurrences(answer@, c, i as int),
        decreases 5 - i,
    {
        let letter = answer[i];
        proof {
            crate::words::lemma_occurrences_bound(answer@, letter, i as int);
        }
        let ghost before = ans_counter@;
        count(&mut ans_counter, letter);
        i += 1;
        assert forall|c: char| #[trigger]
            tally(ans_counter@, c) == crate::words::occurrences(answer@, c, i as int) by {
            lemma_code_point_injective(c, letter);
            assert(tally(before, c) == crate::words::occurrences(answer@, c, i - 1));
        }
    }

    // Letters guessed in place are green, and no longer count as letters
    // of the answer that another position may claim.
    let mut visited = [false; 5];
    i = 0;
    while i < 5
        invariant
            i <= 5,
            answer@.len() == 5,
            word@.len() == 5,
            forall|j: int| 0 <= j < i ==> visited@[j] == hit(answer@, word@, j),
            forall|j: int| i <= j < 5 ==> !visited@[j],
            forall|c: char| #[trigger]
                tally(ans_counter@, c) + hits(answer@, word@, c, i as int)
                    == crate::words::occurrences(answer@, c, 5),
        decreases 5 - i,
    {
        let letter = word[i];
        let ghost before = ans_counter@;
        if answer[i] == letter {
            visited[i] = true;
            let left = lookup(&ans_counter, letter);
            proof {
                assert(tally(before, letter) + hits(answer@, word@, letter, i as int)
                    == crate::words::occurrences(answer@, letter, 5));
                lemma_hits_and_unclaimed(answer@, word@, letter, i as int);
                lemma_occurrences_monotonic(answer@, letter, i as int + 1, 5);
            }
            ans_counter.insert(letter as u32, left - 1);
        }
        i += 1;
        assert forall|c: char| #[trigger]
            tally(ans_counter@, c) + hits(answer@, word@, c, i as int)
                == crate::words::occurrences(answer@, c, 5) by {
            lemma_code_point_injective(c, letter);
            assert(tally(before, c) + hits(answer@, word@, c, i - 1)
                == crate::words::occurrences(answer@, c, 5));
        }
    }
    proof {
        assert forall|c: char| #[trigger]
            tally(ans_counter@, c) == unclaimed(answer@, word@, c, 5) by {
            assert(tally(ans_counter@, c) + hits(answer@, word@, c, 5)
                == crate::words::occurrences(answer@, c, 5));
            lemma_hits_and_unclaimed(answer@, word@, c, 5);
        }
    }

    // The other positions, left to right, claim what is left of their letter.
    let mut result = [LetterStatus::Unknown; 5];
    let mut guess_counter: Counter = HashMap::new();
    i = 0;
    while i < 5
        invariant
            i <= 5,
            answer@.len() == 5,
            word@.len() == 5,
            forall|j: int| 0 <= j < 5 ==> visited@[j] == hit(answer@, word@, j),
            forall|c: char| #[trigger] tally(ans_counter@, c) == unclaimed(answer@, word@, c, 5),
            forall|c: char| #[trigger]
                tally(guess_counter@, c) == misplaced(answer@, word@, c, i as int),
            forall|j: int| 0 <= j < i ==> result@[j] == grade_at(answer@, word@, j),
        decreases 5 - i,
    {
        let letter = word[i];
        let ghost before = guess_counter@;
        if visited[i] {
            result[i] = LetterStatus::Green;
        } else {
            proof {
                lemma_misplaced_bound(answer@, word@, letter, i as int);
            }
            let claimed = count(&mut guess_counter, letter);
            assert(tally(before, letter) == misplaced(answer@, word@, letter, i as int));
            if claimed <= lookup(&ans_counter, letter) {
                result[i] = LetterStatus::Yellow;
            } else {
                result[i] = LetterStatus::Red;
            }
        }
        i += 1;
        assert forall|c: char| #[trigger]
            tally(guess_counter@, c) == misplaced(answer@, word@, c, i as int) by {
            lemma_code_point_injective(c, letter);
            assert(tally(before, c) == misplaced(answer@, word@, c, i - 1));
        }
    }
    assert(result@ =~= grade(answer@, word@));
    result
}

/// No more letters are out of place than positions were looked at.
pub proof fn lemma_misplaced_bound(answer: Seq<char>, guess: Seq<char>, c: char, n: int)
    ensures
        misplaced(answer, guess, c, n) <= if n < 0 { 0 } else { n },
    decreases n,
{
    if n > 0 {
        lemma_misplaced_bound(answer, guess, c, n - 1);
    }
}

/// A row of verdicts as text, one capital letter for each.
pub fn status_text(status: &[LetterStatus]) -> (text: String)
    ensures
        text@ == Seq::new(status@.len(), |i: int| status@[i].mark()),
{
    let mut text = String::new();
    let mut i: usize = 0;
    while i < status.len()
        invariant
            i <= status@.len(),
            text@ == Seq::new(i as nat, |j: int| status@[j].mark()),
        decreases status@.len() - i,
    {
        crate::words::push_char(&mut text, status[i].to_char());
        i += 1;
        assert(text@ =~= Seq::new(i as nat, |j: int| status@[j].mark()));
    }
    text
}

} // verus!
