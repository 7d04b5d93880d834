//! What holds of every game, proved from the definitions of grading,
//! hints and keyboard.

use vstd::prelude::*;
use crate::game::{
    guess_result, ignores_a_hint, key_after_word, key_state, standing, valid_state, validation,
    with_guess, Error, GameView, StatusView, MAX_GAME_ROUND,
};
use crate::grade::{
    grade, grade_at, hits, lemma_hits_and_unclaimed, misplaced, unclaimed, LetterStatus,
};
use crate::hint::{keeps_greens, keeps_hints, keeps_letters, keeps_strictly, overlap, revealed};
use crate::words::{byte_len, is_word, lemma_word_byte_len, occurrences};

verus! {

/// The smaller of two counts.
pub open spec fn least(a: nat, b: nat) -> nat {
    if a <= b {
        a
    } else {
        b
    }
}

/// Looking at more positions never lowers the count of misplaced letters.
pub proof fn lemma_misplaced_monotonic(answer: Seq<char>, guess: Seq<char>, c: char, m: int, n: int)
    requires
        m <= n,
    ensures
        misplaced(answer, guess, c, m) <= misplaced(answer, guess, c, n),
    decreases n - m,
{
    if m < n {
        lemma_misplaced_monotonic(answer, guess, c, m, n - 1);
    }
}

/// A grading reveals a letter as often as it was guessed in place, plus as
/// often as it was guessed out of place, but no more often than the answer
/// has it to spare.
pub proof fn lemma_revealed_by_grading(answer: Seq<char>, guess: Seq<char>, c: char, n: int)
    requires
        answer.len() == guess.len(),
        n <= guess.len(),
    ensures
        revealed(guess, grade(answer, guess), c, n) == hits(answer, guess, c, n) + least(
            misplaced(answer, guess, c, n),
            unclaimed(answer, guess, c, answer.len() as int),
        ),
    decreases n,
{
    if n > 0 {
        lemma_revealed_by_grading(answer, guess, c, n - 1);
        assert(grade(answer, guess)[n - 1] == grade_at(answer, guess, n - 1));
    }
}

/// The answer uses every hint that the grading of any guess gives, also
/// under the strict rule.
pub proof fn lemma_answer_keeps_hints(answer: Seq<char>, guess: Seq<char>, strict: bool)
    requires
        answer.len() == guess.len(),
    ensures
        keeps_hints(guess, grade(answer, guess), answer, strict),
{
    let status = grade(answer, guess);
    let n = answer.len() as int;
    assert(overlap(guess, answer) == n);
    assert(keeps_greens(guess, status, answer)) by {
        assert forall|i: int| 0 <= i < n && #[trigger] status[i] == LetterStatus::Green implies answer[i]
            == guess[i] by {
            assert(status[i] == grade_at(answer, guess, i));
        }
    }
    assert(keeps_letters(guess, status, answer)) by {
        assert forall|c: char| #[trigger]
            revealed(guess, status, c, n) <= occurrences(answer, c, n) by {
            lemma_revealed_by_grading(answer, guess, c, n);
            lemma_hits_and_unclaimed(answer, guess, c, n);
        }
    }
    assert(keeps_strictly(guess, status, answer)) by {
        assert forall|i: int| 0 <= i < n implies {
            &&& #[trigger] status[i] == LetterStatus::Red ==> occurrences(answer, guess[i], n)
                == revealed(guess, status, guess[i], n)
            &&& status[i] == LetterStatus::Yellow ==> answer[i] != guess[i]
        } by {
            assert(status[i] == grade_at(answer, guess, i));
            lemma_revealed_by_grading(answer, guess, guess[i], n);
            lemma_hits_and_unclaimed(answer, guess, guess[i], n);
            lemma_misplaced_monotonic(answer, guess, guess[i], i + 1, n);
        }
    }
}

/// In any valid game with a round left, guessing the answer wins, in hard
/// mode too, with the number of the guess as the round.
pub proof fn lemma_answer_wins(g: GameView, list: Seq<Seq<char>>)
    requires
        valid_state(g),
        g.words.len() < MAX_GAME_ROUND,
        list.contains(g.answer),
    ensures
        guess_result(g, g.answer, list) == Ok::<StatusView, Error>(
            StatusView::Won(g.words.len() + 1),
        ),
{
    lemma_word_byte_len(g.answer);
    assert(!ignores_a_hint(g, g.answer, false)) by {
        assert forall|k: int| 0 <= k < g.words.len() implies keeps_hints(
            #[trigger] g.words[k],
            grade(g.answer, g.words[k]),
            g.answer,
            false,
        ) by {
            assert(is_word(g.words[k]));
            lemma_answer_keeps_hints(g.answer, g.words[k], false);
        }
    }
}

/// The answer passes the strict check of a valid game whenever it is in
/// the list: a search for a hint can always end.
pub proof fn lemma_answer_is_a_hint(g: GameView, list: Seq<Seq<char>>)
    requires
        valid_state(g),
        list.contains(g.answer),
    ensures
        validation(g, true, true, g.answer, list) == Ok::<(), Error>(()),
{
    assert(!ignores_a_hint(g, g.answer, true)) by {
        assert forall|k: int| 0 <= k < g.words.len() implies keeps_hints(
            #[trigger] g.words[k],
            grade(g.answer, g.words[k]),
            g.answer,
            true,
        ) by {
            assert(is_word(g.words[k]));
            lemma_answer_keeps_hints(g.answer, g.words[k], true);
        }
    }
}

/// An accepted sixth guess ends the game: it wins if it is the answer,
/// and otherwise the game is lost and the answer is given.
pub proof fn lemma_sixth_guess_ends(g: GameView, word: Seq<char>, list: Seq<Seq<char>>)
    requires
        g.words.len() + 1 == MAX_GAME_ROUND,
        guess_result(g, word, list) is Ok,
    ensures
        guess_result(g, word, list) == Ok::<StatusView, Error>(
            if word == g.answer {
                StatusView::Won(MAX_GAME_ROUND as nat)
            } else {
                StatusView::Failed(g.answer)
            },
        ),
{
}

/// Before the sixth guess, an accepted word that is not the answer leaves
/// the game going.
pub proof fn lemma_early_guess_goes_on(g: GameView, word: Seq<char>, list: Seq<Seq<char>>)
    requires
        g.words.len() + 1 < MAX_GAME_ROUND,
        word != g.answer,
        guess_result(g, word, list) is Ok,
    ensures
        guess_result(g, word, list) == Ok::<StatusView, Error>(StatusView::Going),
{
}

/// What an accepted guess returns is where the game then stands.
pub proof fn lemma_status_follows_guess(g: GameView, word: Seq<char>, list: Seq<Seq<char>>)
    requires
        guess_result(g, word, list) is Ok,
    ensures
        guess_result(g, word, list) == Ok::<StatusView, Error>(
            standing(with_guess(g, word)),
        ),
{
    assert(g.words.push(word).last() == word);
}

/// A word that is not five bytes long is turned down for its length,
/// whatever the list holds; a word of five bytes that the list lacks is
/// turned down as unknown.
pub proof fn lemma_rejections(g: GameView, word: Seq<char>, list: Seq<Seq<char>>)
    ensures
        byte_len(word) != 5 ==> guess_result(g, word, list) == Err::<StatusView, Error>(
            Error::UnexpectedWordLength,
        ),
        byte_len(word) == 5 && !list.contains(word) ==> guess_result(g, word, list) == Err::<
            StatusView,
            Error,
        >(Error::UnknownWord),
{
}

/// In hard mode a word that changes a letter which any earlier guess
/// showed green is turned down, whenever that guess was made.
pub proof fn lemma_green_must_stay(
    g: GameView,
    k: int,
    i: int,
    word: Seq<char>,
    list: Seq<Seq<char>>,
    strict: bool,
)
    requires
        0 <= k < g.words.len(),
        0 <= i < g.words[k].len(),
        i < word.len(),
        grade_at(g.answer, g.words[k], i) == LetterStatus::Green,
        word[i] != g.words[k][i],
        list.contains(word),
    ensures
        validation(g, true, strict, word, list) == Err::<(), Error>(Error::HintUnused),
        g.difficult && byte_len(word) == 5 ==> guess_result(g, word, list) == Err::<
            StatusView,
            Error,
        >(Error::HintUnused),
{
    let status = grade(g.answer, g.words[k]);
    assert(status[i] == LetterStatus::Green);
    assert(!keeps_greens(g.words[k], status, word));
    assert(!keeps_hints(g.words[k], status, word, strict));
    assert(!keeps_hints(g.words[k], status, word, false));
    assert(ignores_a_hint(g, word, strict));
    assert(ignores_a_hint(g, word, false));
}

/// Going through more letters of a guess never lowers a key.
pub proof fn lemma_key_after_word_rises(
    start: LetterStatus,
    answer: Seq<char>,
    word: Seq<char>,
    c: char,
    n: int,
)
    ensures
        key_after_word(start, answer, word, c, n).rank() >= start.rank(),
    decreases n,
{
    if n > 0 {
        lemma_key_after_word_rises(start, answer, word, c, n - 1);
    }
}

/// One more guess never lowers a key.
pub proof fn lemma_key_never_regresses(
    answer: Seq<char>,
    words: Seq<Seq<char>>,
    word: Seq<char>,
    c: char,
)
    ensures
        key_state(answer, words.push(word), c).rank() >= key_state(answer, words, c).rank(),
{
    assert(words.push(word).drop_last() =~= words);
    assert(words.push(word).last() == word);
    lemma_key_after_word_rises(key_state(answer, words, c), answer, word, c, word.len() as int);
}

/// Over any sequence of guesses, the state of a key after the first `n`
/// of them is no greater than its state after all: a key that was green
/// stays green.
pub proof fn lemma_key_monotonic(answer: Seq<char>, words: Seq<Seq<char>>, n: int, c: char)
    requires
        0 <= n <= words.len(),
    ensures
        key_state(answer, words.take(n), c).rank() <= key_state(answer, words, c).rank(),
        key_state(answer, words.take(n), c) == LetterStatus::Green ==> key_state(answer, words, c)
            == LetterStatus::Green,
    decreases words.len() - n,
{
    if n < words.len() {
        lemma_key_monotonic(answer, words, n + 1, c);
        assert(words.take(n + 1) =~= words.take(n).push(words[n]));
        lemma_key_never_regresses(answer, words.take(n), words[n], c);
    } else {
        assert(words.take(n) =~= words);
    }
}

} // verus!
