//! Statistics kept across games: games won and lost, guesses needed, and
//! how often each word was guessed.

use vstd::prelude::*;
use crate::grade::GuessStatus;
use crate::order::{
    lemma_lex_less_transitive, lemma_word_less_total, str_less, word_less,
};

verus! {

/// One finished game: its answer and the words guessed, oldest first.
pub struct GameRecord {
    pub answer: String,
    pub guesses: Vec<String>,
}

/// A `GameRecord` as sequences of characters.
pub struct RecordView {
    pub answer: Seq<char>,
    pub guesses: Seq<Seq<char>>,
}

impl View for GameRecord {
    type V = RecordView;

    open spec fn view(&self) -> RecordView {
        RecordView {
            answer: self.answer@,
            guesses: Seq::new(self.guesses@.len(), |i: int| self.guesses@[i]@),
        }
    }
}

/// What is kept between runs: the number of games played and the games.
pub struct State {
    pub total_rounds: Option<u32>,
    pub games: Option<Vec<GameRecord>>,
}

/// The records of a list of games.
pub open spec fn records(games: Seq<GameRecord>) -> Seq<RecordView> {
    Seq::new(games.len(), |i: int| games[i]@)
}

/// What a count of words holds for a word: zero where it has no entry.
pub open spec fn uses(usage: Map<Seq<char>, nat>, word: Seq<char>) -> nat {
    if usage.contains_key(word) {
        usage[word]
    } else {
        0
    }
}

/// A count of words after one more use of `word`.
pub open spec fn used_once_more(usage: Map<Seq<char>, nat>, word: Seq<char>) -> Map<
    Seq<char>,
    nat,
> {
    usage.insert(word, uses(usage, word) + 1)
}

/// A count of words after each of the first `n` of `words` was used once
/// more.
pub open spec fn used_all(usage: Map<Seq<char>, nat>, words: Seq<Seq<char>>, n: int) -> Map<
    Seq<char>,
    nat,
>
    decreases n,
{
    if n <= 0 {
        usage
    } else {
        used_once_more(used_all(usage, words, n - 1), words[n - 1])
    }
}

/// Whether a recorded game was won: its last guess is its answer.
pub open spec fn was_won(game: RecordView) -> bool {
    game.guesses.len() > 0 && game.guesses.last() == game.answer
}

/// The statistics as numbers, a count of words and a list of records.
pub struct StatsView {
    pub wins: int,
    pub fails: int,
    pub tries: int,
    pub usage: Map<Seq<char>, nat>,
    pub games: Seq<RecordView>,
}

/// The statistics of a player who has not played.
pub open spec fn no_stats() -> StatsView {
    StatsView { wins: 0, fails: 0, tries: 0, usage: Map::empty(), games: Seq::empty() }
}

/// The statistics after one more recorded game is taken in.
pub open spec fn with_record(s: StatsView, game: RecordView) -> StatsView {
    StatsView {
        wins: if was_won(game) { s.wins + 1 } else { s.wins },
        fails: if was_won(game) { s.fails } else { s.fails + 1 },
        tries: if was_won(game) { s.tries + game.guesses.len() } else { s.tries },
        usage: used_all(s.usage, game.guesses, game.guesses.len() as int),
        games: s.games.push(game),
    }
}

/// The statistics that the first `n` recorded games add up to.
pub open spec fn tally_games(games: Seq<RecordView>, n: int) -> StatsView
    decreases n,
{
    if n <= 0 {
        no_stats()
    } else {
        with_record(tally_games(games, n - 1), games[n - 1])
    }
}

/// Number of guesses in the first `n` recorded games.
pub open spec fn total_guesses(games: Seq<RecordView>, n: int) -> nat
    decreases n,
{
    if n <= 0 {
        0
    } else {
        total_guesses(games, n - 1) + games[n - 1].guesses.len()
    }
}

/// How often `word` is among the first `n` entries of a count, weighted by
/// their counts.
pub open spec fn entry_count(entries: Seq<(String, usize)>, word: Seq<char>, n: int) -> nat
    decreases n,
{
    if n <= 0 {
        0
    } else {
        entry_count(entries, word, n - 1) + if entries[n - 1].0@ == word {
            entries[n - 1].1 as nat
        } else {
            0nat
        }
    }
}

/// The count of words that a list of entries stands for.
pub open spec fn usage_of(entries: Seq<(String, usize)>) -> Map<Seq<char>, nat> {
    Map::new(
        |w: Seq<char>| exists|i: int| 0 <= i < entries.len() && (#[trigger] entries[i]).0@ == w,
        |w: Seq<char>| entry_count(entries, w, entries.len() as int),
    )
}

/// No word has two entries, and no entry counts zero uses.
pub open spec fn entries_wf(entries: Seq<(String, usize)>) -> bool {
    &&& forall|i: int, j: int|
        0 <= i < j < entries.len() ==> (#[trigger] entries[i]).0@ != (#[trigger] entries[j]).0@
    &&& forall|i: int| 0 <= i < entries.len() ==> (#[trigger] entries[i]).1 > 0
}

/// A word without an entry among the first `n` counts zero there.
pub proof fn lemma_entry_count_absent(entries: Seq<(String, usize)>, word: Seq<char>, n: int)
    requires
        n <= entries.len(),
        forall|i: int| 0 <= i < n ==> (#[trigger] entries[i]).0@ != word,
    ensures
        entry_count(entries, word, n) == 0,
    decreases n,
{
    if n > 0 {
        lemma_entry_count_absent(entries, word, n - 1);
    }
}

/// A word with its one entry at `k` counts what that entry says.
pub proof fn lemma_entry_count_at(entries: Seq<(String, usize)>, k: int, n: int)
    requires
        entries_wf(entries),
        0 <= k < entries.len(),
        n <= entries.len(),
    ensures
        entry_count(entries, entries[k].0@, n) == if k < n {
            entries[k].1 as nat
        } else {
            0nat
        },
    decreases n,
{
    if n > 0 {
        lemma_entry_count_at(entries, k, n - 1);
        if n - 1 != k {
            assert(entries[n - 1].0@ != entries[k].0@);
        }
    }
}

/// The statistics of a player. Words are counted in a list with one entry
/// for each word.
pub struct Stats {
    wins: i32,
    fails: i32,
    tries: i32,
    word_usage: Vec<(String, usize)>,
    games: Vec<GameRecord>,
}

impl View for Stats {
    type V = StatsView;

    closed spec fn view(&self) -> StatsView {
        StatsView {
            wins: self.wins as int,
            fails: self.fails as int,
            tries: self.tries as int,
            usage: usage_of(self.word_usage@),
            games: records(self.games@),
        }
    }
}

impl Default for Stats {
    /// The statistics of a player who has not played.
    fn default() -> (stats: Self)
        ensures
            stats.wf(),
            stats@ == no_stats(),
    {
        let stats = Self { wins: 0, fails: 0, tries: 0, word_usage: Vec::new(), games: Vec::new() };
        assert(stats@.usage =~= Map::empty());
        assert(stats@.games =~= Seq::empty());
        stats
    }
}

impl Stats {
    /// Well-formedness: no count is negative, and the words counted are
    /// kept one entry each.
    pub closed spec fn wf(&self) -> bool {
        &&& self.wins >= 0
        &&& self.fails >= 0
        &&& self.tries >= 0
        &&& entries_wf(self.word_usage@)
    }

    /// In well-formed statistics no count is negative, and every word
    /// counted was used at least once.
    pub proof fn lemma_wf(&self)
        requires
            self.wf(),
        ensures
            self@.wins >= 0,
            self@.fails >= 0,
            self@.tries >= 0,
            forall|w: Seq<char>| self@.usage.contains_key(w) ==> #[trigger] self@.usage[w] > 0,
    {
        assert forall|w: Seq<char>| self@.usage.contains_key(w) implies #[trigger] self@.usage[w]
            > 0 by {
            let i = choose|i: int|
                0 <= i < self.word_usage@.len() && (#[trigger] self.word_usage@[i]).0@ == w;
            lemma_entry_count_at(self.word_usage@, i, self.word_usage@.len() as int);
        }
    }

    /// Number of games won.
    pub fn get_wins(&self) -> (wins: i32)
        ensures
            wins == self@.wins,
    {
        self.wins
    }

    /// Number of games lost.
    pub fn get_fails(&self) -> (fails: i32)
        ensures
            fails == self@.fails,
    {
        self.fails
    }

    /// Number of guesses made in the games won.
    pub fn get_tries(&self) -> (tries: i32)
        ensures
            tries == self@.tries,
    {
        self.tries
    }

    /// The words counted, each once with the number of its uses.
    pub fn get_word_usage(&self) -> (entries: &Vec<(String, usize)>)
        ensures
            usage_of(entries@) == self@.usage,
            self.wf() ==> entries_wf(entries@),
    {
        &self.word_usage
    }

    /// Builds statistics from their parts. There are none unless no count
    /// is negative, no word is counted twice and no entry counts zero
    /// uses.
    pub fn restore(
        wins: i32,
        fails: i32,
        tries: i32,
        word_usage: Vec<(String, usize)>,
        games: Vec<GameRecord>,
    ) -> (r: Option<Self>)
        ensures
            match r {
                Some(stats) => {
                    &&& stats.wf()
                    &&& stats@ == (StatsView {
                        wins: wins as int,
                        fails: fails as int,
                        tries: tries as int,
                        usage: usage_of(word_usage@),
                        games: records(games@),
                    })
                },
                None => wins < 0 || fails < 0 || tries < 0 || !entries_wf(word_usage@),
            },
    {
        if wins < 0 || fails < 0 || tries < 0 {
            return None;
        }
        let mut i: usize = 0;
        while i < word_usage.len()
            invariant
                i <= word_usage@.len(),
                forall|a: int, b: int|
                    0 <= a < b < i ==> (#[trigger] word_usage@[a]).0@ != (
                    #[trigger] word_usage@[b]).0@,
                forall|a: int| 0 <= a < i ==> (#[trigger] word_usage@[a]).1 > 0,
            decreases word_usage@.len() - i,
        {
            if word_usage[i].1 == 0 {
                return None;
            }
            let mut j: usize = 0;
            while j < i
                invariant
                    j <= i,
                    i < word_usage@.len(),
                    forall|a: int| 0 <= a < j ==> (#[trigger] word_usage@[a]).0@ != word_usage@[i as int].0@,
                decreases i - j,
            {
                if word_usage[j].0 == word_usage[i].0 {
                    return None;
                }
                j += 1;
            }
            i += 1;
        }
        Some(Self { wins, fails, tries, word_usage, games })
    }

    /// The games recorded, oldest first.
    pub fn get_games(&self) -> (games: &Vec<GameRecord>)
        ensures
            records(games@) == self@.games,
    {
        &self.games
    }

    /// The five words used most often, most used first; words used
    /// equally often stand in the order of strings. Fewer than five where
    /// fewer words were used.
    pub fn get_favorite_words(&self) -> (top: Vec<(&String, &usize)>)
        requires
            self.wf(),
        ensures
            are_favorites(favorite_views(top@), self@.usage),
    {
        let ghost e = self.word_usage@;
        let n = self.word_usage.len();
        // Places in `word_usage` of the best entries so far, best first.
        let mut best: Vec<usize> = Vec::new();
        let mut k: usize = 0;
        while k < n
            invariant
                k <= n,
                n == e.len(),
                e == self.word_usage@,
                entries_wf(e),
                best@.len() <= 5,
                forall|i: int| 0 <= i < best@.len() ==> (#[trigger] best@[i]) < k,
                forall|i: int, j: int|
                    0 <= i < j < best@.len() ==> precedes(
                        entry_view(e[(#[trigger] best@[i]) as int]),
                        entry_view(e[(#[trigger] best@[j]) as int]),
                    ),
                forall|m: int|
                    0 <= m < k ==> #[trigger] listed(best@, m) || (best@.len() == 5 && precedes(
                        entry_view(e[best@[4] as int]),
                        entry_view(e[m]),
                    )),
            decreases n - k,
        {
            let ghost old_best = best@;
            let mut p: usize = 0;
            while p < best.len() && !comes_first(&self.word_usage[k], &self.word_usage[best[p]])
                invariant
                    p <= best@.len(),
                    best@ == old_best,
                    k < n,
                    n == e.len(),
                    e == self.word_usage@,
                    forall|i: int| 0 <= i < best@.len() ==> (#[trigger] best@[i]) < k,
                    forall|i: int|
                        0 <= i < p ==> !precedes(
                            entry_view(e[k as int]),
                            entry_view(e[(#[trigger] best@[i]) as int]),
                        ),
                decreases best@.len() - p,
            {
                p += 1;
            }
            proof {
                assert forall|i: int| 0 <= i < p implies precedes(
                    entry_view(e[(#[trigger] old_best[i]) as int]),
                    entry_view(e[k as int]),
                ) by {
                    assert(e[old_best[i] as int].0@ != e[k as int].0@);
                    lemma_precedes_total(
                        entry_view(e[k as int]),
                        entry_view(e[old_best[i] as int]),
                    );
                }
                assert forall|j: int| p <= j < old_best.len() implies precedes(
                    entry_view(e[k as int]),
                    entry_view(e[(#[trigger] old_best[j]) as int]),
                ) by {
                    if p < j {
                        lemma_precedes_transitive(
                            entry_view(e[k as int]),
                            entry_view(e[old_best[p as int] as int]),
                            entry_view(e[old_best[j] as int]),
                        );
                    }
                }
            }
            if p < 5 {
                best.insert(p, k);
                let ghost grown = best@;
                proof {
                    assert forall|i: int, j: int| 0 <= i < j < grown.len() implies precedes(
                        entry_view(e[(#[trigger] grown[i]) as int]),
                        entry_view(e[(#[trigger] grown[j]) as int]),
                    ) by {
                        if j < p {
                            assert(grown[i] == old_best[i] && grown[j] == old_best[j]);
                        } else if j == p {
                            assert(grown[i] == old_best[i]);
                        } else if i < p {
                            assert(grown[i] == old_best[i] && grown[j] == old_best[j - 1]);
                            if p < j - 1 || i < p {
                                if i != j - 1 {
                                    assert(precedes(
                                        entry_view(e[old_best[i] as int]),
                                        entry_view(e[old_best[j - 1] as int]),
                                    ));
                                }
                            }
                        } else if i == p {
                            assert(grown[j] == old_best[j - 1]);
                        } else {
                            assert(grown[i] == old_best[i - 1] && grown[j] == old_best[j - 1]);
                        }
                    }
                    assert forall|m: int| 0 <= m < k + 1 implies #[trigger] listed(grown, m) || (
                    grown.len() == 6 && precedes(
                        entry_view(e[grown[5] as int]),
                        entry_view(e[m]),
                    )) by {
                        if m == k {
                            assert(grown[p as int] == m);
                        } else if listed(old_best, m) {
                            let i = choose|i: int| 0 <= i < old_best.len() && old_best[i] == m;
                            if i < p {
                                assert(grown[i] == m);
                            } else {
                                assert(grown[i + 1] == m);
                            }
                        } else {
                            assert(grown[5] == old_best[4]);
                        }
                    }
                }
                if best.len() > 5 {
                    best.pop();
                    proof {
                        let cut = best@;
                        assert forall|i: int| 0 <= i < cut.len() implies cut[i] == grown[i] by {}
                        assert forall|m: int| 0 <= m < k + 1 implies #[trigger] listed(cut, m) || (
                        cut.len() == 5 && precedes(
                            entry_view(e[cut[4] as int]),
                            entry_view(e[m]),
                        )) by {
                            if listed(grown, m) {
                                let i = choose|i: int| 0 <= i < grown.len() && grown[i] == m;
                                if i < 5 {
                                    assert(cut[i] == m);
                                } else {
                                    assert(precedes(
                                        entry_view(e[grown[4] as int]),
                                        entry_view(e[grown[5] as int]),
                                    ));
                                }
                            } else {
                                assert(precedes(
                                    entry_view(e[grown[4] as int]),
                                    entry_view(e[grown[5] as int]),
                                ));
                                lemma_precedes_transitive(
                                    entry_view(e[grown[4] as int]),
                                    entry_view(e[grown[5] as int]),
                                    entry_view(e[m]),
                                );
                            }
                        }
                    }
                }
            } else {
                proof {
                    assert forall|m: int| 0 <= m < k + 1 implies #[trigger] listed(best@, m) || (
                    best@.len() == 5 && precedes(
                        entry_view(e[best@[4] as int]),
                        entry_view(e[m]),
                    )) by {
                        if m == k {
                            assert(precedes(
                                entry_view(e[old_best[4] as int]),
                                entry_view(e[k as int]),
                            ));
                        }
                    }
                }
            }
            k += 1;
        }
        let mut top: Vec<(&String, &usize)> = Vec::new();
        let mut i: usize = 0;
        while i < best.len()
            invariant
                i <= best@.len(),
                top@.len() == i,
                e == self.word_usage@,
                forall|j: int| 0 <= j < best@.len() ==> (#[trigger] best@[j]) < e.len(),
                forall|j: int|
                    0 <= j < i ==> *(#[trigger] top@[j]).0 == e[best@[j] as int].0 && *top@[j].1
                        == e[best@[j] as int].1,
            decreases best@.len() - i,
        {
            let entry = &self.word_usage[best[i]];
            top.push((&entry.0, &entry.1));
            i += 1;
        }
        proof {
            let views = favorite_views(top@);
            let usage = self@.usage;
            assert forall|j: int| 0 <= j < views.len() implies #[trigger] views[j] == entry_view(
                e[best@[j] as int],
            ) by {
                assert(*top@[j].0 == e[best@[j] as int].0);
            }
            assert forall|j: int| 0 <= j < views.len() implies usage.contains_key(
                (#[trigger] views[j]).0,
            ) && usage[views[j].0] == views[j].1 by {
                lemma_entry_count_at(e, best@[j] as int, e.len() as int);
                assert(e[best@[j] as int].0@ == views[j].0);
            }
            assert forall|a: int, b: int| 0 <= a < b < views.len() implies precedes(
                #[trigger] views[a],
                #[trigger] views[b],
            ) by {
                assert(precedes(
                    entry_view(e[best@[a] as int]),
                    entry_view(e[best@[b] as int]),
                ));
            }
            assert forall|w: Seq<char>| usage.contains_key(w) implies #[trigger] ranks(views, w)
                || outranked(views, (w, usage[w])) by {
                let m = choose|m: int| 0 <= m < e.len() && (#[trigger] e[m]).0@ == w;
                lemma_entry_count_at(e, m, e.len() as int);
                if listed(best@, m) {
                    let j = choose|j: int| 0 <= j < best@.len() && best@[j] == m;
                    assert(views[j].0 == w);
                } else {
                    assert forall|j: int| 0 <= j < views.len() implies precedes(
                        #[trigger] views[j],
                        (w, usage[w]),
                    ) by {
                        if j < 4 {
                            assert(precedes(
                                entry_view(e[best@[j] as int]),
                                entry_view(e[best@[4] as int]),
                            ));
                            lemma_precedes_transitive(
                                entry_view(e[best@[j] as int]),
                                entry_view(e[best@[4] as int]),
                                entry_view(e[m]),
                            );
                        }
                    }
                }
            }
        }
        top
    }

    /// How often a word was used.
    pub fn times_used(&self, word: &str) -> (n: usize)
        requires
            self.wf(),
        ensures
            n == uses(self@.usage, word@),
    {
        let sought = word.to_owned();
        let mut i: usize = 0;
        while i < self.word_usage.len()
            invariant
                i <= self.word_usage@.len(),
                self.wf(),
                sought@ == word@,
                forall|j: int| 0 <= j < i ==> (#[trigger] self.word_usage@[j]).0@ != word@,
            decreases self.word_usage@.len() - i,
        {
            if self.word_usage[i].0 == sought {
                proof {
                    lemma_entry_count_at(self.word_usage@, i as int, self.word_usage@.len() as int);
                }
                return self.word_usage[i].1;
            }
            i += 1;
        }
        proof {
            lemma_entry_count_absent(self.word_usage@, word@, self.word_usage@.len() as int);
        }
        0
    }

    /// Whether a game of `n` guesses can be counted, won or lost, without
    /// any count passing what its type can hold.
    pub fn has_room(&self, n: usize) -> (ok: bool)
        requires
            self.wf(),
        ensures
            ok == has_room(self@, n as nat),
    {
        if n > i32::MAX as usize {
            return false;
        }
        if self.wins > i32::MAX - 1 - self.fails || self.tries > i32::MAX - (n as i32) {
            return false;
        }
        let mut i: usize = 0;
        while i < self.word_usage.len()
            invariant
                i <= self.word_usage@.len(),
                self.wf(),
                forall|j: int| 0 <= j < i ==> (#[trigger] self.word_usage@[j]).1 + n <= usize::MAX,
            decreases self.word_usage@.len() - i,
        {
            if self.word_usage[i].1 > usize::MAX - n {
                proof {
                    lemma_entry_count_at(self.word_usage@, i as int, self.word_usage@.len() as int);
                    let w = self.word_usage@[i as int].0@;
                    assert(self@.usage.contains_key(w));
                    assert(uses(self@.usage, w) + n > usize::MAX);
                }
                return false;
            }
            i += 1;
        }
        proof {
            assert forall|w: Seq<char>| #[trigger] uses(self@.usage, w) + n <= usize::MAX by {
                if self@.usage.contains_key(w) {
                    let k = choose|k: int|
                        0 <= k < self.word_usage@.len() && (#[trigger] self.word_usage@[k]).0@ == w;
                    lemma_entry_count_at(self.word_usage@, k, self.word_usage@.len() as int);
                }
            }
        }
        true
    }

    /// Counts one more use of a word.
    pub fn update_guess(&mut self, guess: &str)
        requires
            old(self).wf(),
            uses(old(self)@.usage, guess@) < usize::MAX,
        ensures
            final(self).wf(),
            final(self)@ == (StatsView {
                usage: used_once_more(old(self)@.usage, guess@),
                ..old(self)@
            }),
    {
        let ghost before = self.word_usage@;
        let word = guess.to_owned();
        let mut i: usize = 0;
        while i < self.word_usage.len()
            invariant
                i <= self.word_usage@.len(),
                word@ == guess@,
                self.word_usage@ == before,
                self.wins == old(self).wins,
                self.fails == old(self).fails,
                self.tries == old(self).tries,
                self.games == old(self).games,
                old(self).wf(),
                before == old(self).word_usage@,
                uses(usage_of(before), guess@) < usize::MAX,
                forall|j: int| 0 <= j < i ==> (#[trigger] before[j]).0@ != guess@,
            decreases self.word_usage@.len() - i,
        {
            if self.word_usage[i].0 == word {
                proof {
                    lemma_entry_count_at(before, i as int, before.len() as int);
                    assert(usage_of(before).contains_key(guess@));
                }
                let n = self.word_usage[i].1 + 1;
                self.word_usage.set(i, (word, n));
                proof {
                    let after = self.word_usage@;
                    assert(entries_wf(after)) by {
                        assert forall|a: int, b: int| 0 <= a < b < after.len() implies (
                        #[trigger] after[a]).0@ != (#[trigger] after[b]).0@ by {
                            assert(after[a].0@ == before[a].0@);
                            assert(after[b].0@ == before[b].0@);
                        }
                        assert forall|a: int| 0 <= a < after.len() implies (#[trigger] after[a]).1
                            > 0 by {
                            if a != i {
                                assert(after[a] == before[a]);
                            }
                        }
                    }
                    assert(usage_of(after) =~= used_once_more(usage_of(before), guess@)) by {
                        assert forall|w: Seq<char>|
                            usage_of(after).contains_key(w) <==> used_once_more(
                                usage_of(before),
                                guess@,
                            ).contains_key(w) by {
                            if usage_of(after).contains_key(w) {
                                let k = choose|k: int|
                                    0 <= k < after.len() && (#[trigger] after[k]).0@ == w;
                                assert(before[k].0@ == w);
                            }
                            if usage_of(before).contains_key(w) {
                                let k = choose|k: int|
                                    0 <= k < before.len() && (#[trigger] before[k]).0@ == w;
                                assert(after[k].0@ == w);
                            }
                            if w == guess@ {
                                assert(after[i as int].0@ == w);
                            }
                        }
                        assert forall|w: Seq<char>|
                            usage_of(after).contains_key(w) implies usage_of(after)[w]
                            == used_once_more(usage_of(before), guess@)[w] by {
                            let k = choose|k: int|
                                0 <= k < after.len() && (#[trigger] after[k]).0@ == w;
                            assert(before[k].0@ == w);
                            lemma_entry_count_at(after, k, after.len() as int);
                            lemma_entry_count_at(before, k, before.len() as int);
                            if k != i {
                                assert(after[k] == before[k]);
                                assert(before[k].0@ != before[i as int].0@);
                            }
                        }
                    }
                }
                return;
            }
            i += 1;
        }
        proof {
            lemma_entry_count_absent(before, guess@, before.len() as int);
            assert(!usage_of(before).contains_key(guess@));
        }
        self.word_usage.push((word, 1));
        proof {
            let after = self.word_usage@;
            assert(after =~= before.push((word, 1usize)));
            assert(entries_wf(after)) by {
                assert forall|a: int, b: int| 0 <= a < b < after.len() implies (
                #[trigger] after[a]).0@ != (#[trigger] after[b]).0@ by {
                    assert(after[a] == before[a]);
                    if b < before.len() {
                        assert(after[b] == before[b]);
                    }
                }
                assert forall|a: int| 0 <= a < after.len() implies (#[trigger] after[a]).1 > 0 by {
                    if a < before.len() {
                        assert(after[a] == before[a]);
                    }
                }
            }
            assert(usage_of(after) =~= used_once_more(usage_of(before), guess@)) by {
                assert forall|w: Seq<char>|
                    usage_of(after).contains_key(w) <==> used_once_more(
                        usage_of(before),
                        guess@,
                    ).contains_key(w) by {
                    if usage_of(after).contains_key(w) {
                        let k = choose|k: int|
                            0 <= k < after.len() && (#[trigger] after[k]).0@ == w;
                        if k < before.len() {
                            assert(before[k].0@ == w);
                        }
                    }
                    if usage_of(before).contains_key(w) {
                        let k = choose|k: int|
                            0 <= k < before.len() && (#[trigger] before[k]).0@ == w;
                        assert(after[k].0@ == w);
                    }
                    if w == guess@ {
                        assert(after[before.len() as int].0@ == w);
                    }
                }
                assert forall|w: Seq<char>| usage_of(after).contains_key(w) implies usage_of(
                    after,
                )[w] == used_once_more(usage_of(before), guess@)[w] by {
                    let k = choose|k: int| 0 <= k < after.len() && (#[trigger] after[k]).0@ == w;
                    lemma_entry_count_at(after, k, after.len() as int);
                    if k < before.len() {
                        assert(after[k] == before[k]);
                        lemma_entry_count_at(before, k, before.len() as int);
                    }
                }
            }
        }
    }

    /// Counts each guessed word once more and records the game.
    fn update_guesses(&mut self, guesses: &Vec<(String, GuessStatus)>, answer: &String)
        requires
            old(self).wf(),
            forall|w: Seq<char>| #[trigger] uses(old(self)@.usage, w) + guesses@.len() <= usize::MAX,
        ensures
            final(self).wf(),
            final(self)@ == (StatsView {
                usage: used_all(old(self)@.usage, guessed(guesses@), guesses@.len() as int),
                games: old(self)@.games.push(
                    RecordView { answer: answer@, guesses: guessed(guesses@) },
                ),
                ..old(self)@
            }),
    {
        let mut words: Vec<String> = Vec::new();
        let mut i: usize = 0;
        while i < guesses.len()
            invariant
                i <= guesses@.len(),
                self.wf(),
                words@.len() == i,
                forall|j: int| 0 <= j < i ==> (#[trigger] words@[j])@ == guesses@[j].0@,
                forall|w: Seq<char>| #[trigger]
                    uses(old(self)@.usage, w) + guesses@.len() <= usize::MAX,
                self@ == (StatsView {
                    usage: used_all(old(self)@.usage, guessed(guesses@), i as int),
                    ..old(self)@
                }),
            decreases guesses@.len() - i,
        {
            proof {
                lemma_used_all_bound(old(self)@.usage, guessed(guesses@), i as int, guesses@[i as int].0@);
                assert(uses(old(self)@.usage, guesses@[i as int].0@) + guesses@.len()
                    <= usize::MAX);
            }
            self.update_guess(guesses[i].0.as_str());
            words.push(guesses[i].0.clone());
            i += 1;
        }
        let ghost before = self.games@;
        let record = GameRecord { answer: answer.clone(), guesses: words };
        assert(record@.guesses =~= guessed(guesses@));
        self.games.push(record);
        assert(records(self.games@) =~= records(before).push(record@));
    }

    /// The statistics that the games of a saved state add up to. A game
    /// without a guess makes the state unusable: there is no result then.
    pub fn new(state: &State) -> (r: Option<Self>)
        requires
            loaded(*state).len() <= i32::MAX,
            total_guesses(loaded(*state), loaded(*state).len() as int) <= i32::MAX,
        ensures
            match r {
                Some(stats) => {
                    &&& stats.wf()
                    &&& stats@ == tally_games(loaded(*state), loaded(*state).len() as int)
                    &&& forall|k: int|
                        0 <= k < loaded(*state).len() ==> (#[trigger] loaded(*state)[k]).guesses.len()
                            > 0
                },
                None => exists|k: int|
                    0 <= k < loaded(*state).len() && (#[trigger] loaded(*state)[k]).guesses.len()
                        == 0,
            },
    {
        let mut stats = Self::default();
        match &state.games {
            None => {},
            Some(games) => {
                let ghost recs = records(games@);
                let mut i: usize = 0;
                while i < games.len()
                    invariant
                        i <= games@.len(),
                        recs == records(games@),
                        recs == loaded(*state),
                        recs.len() <= i32::MAX,
                        total_guesses(recs, recs.len() as int) <= i32::MAX,
                        stats.wf(),
                        stats@ == tally_games(recs, i as int),
                        stats.wins + stats.fails == i,
                        stats.tries <= total_guesses(recs, i as int),
                        forall|w: Seq<char>| #[trigger]
                            uses(stats@.usage, w) <= total_guesses(recs, i as int),
                        forall|k: int| 0 <= k < i ==> (#[trigger] recs[k]).guesses.len() > 0,
                    decreases games@.len() - i,
                {
                    let game = &games[i];
                    let ghost before = stats@;
                    assert(recs[i as int] == game@);
                    proof {
                        lemma_total_guesses_monotonic(recs, i as int + 1, recs.len() as int);
                    }
                    let n = game.guesses.len();
                    if n == 0 {
                        assert(recs[i as int].guesses.len() == 0);
                        return None;
                    }
                    assert(game@.guesses.last() == game.guesses@[n - 1]@);
                    if game.guesses[n - 1] == game.answer {
                        stats.wins += 1;
                        stats.tries += n as i32;
                    } else {
                        stats.fails += 1;
                    }
                    let mut j: usize = 0;
                    while j < n
                        invariant
                            j <= n,
                            n == game.guesses@.len(),
                            stats.wf(),
                            recs[i as int] == game@,
                            0 <= i < recs.len(),
                            total_guesses(recs, i as int + 1) <= i32::MAX,
                            forall|w: Seq<char>| #[trigger]
                                uses(before.usage, w) <= total_guesses(recs, i as int),
                            stats@ == (StatsView {
                                wins: if was_won(game@) { before.wins + 1 } else { before.wins },
                                fails: if was_won(game@) { before.fails } else { before.fails + 1 },
                                tries: if was_won(game@) { before.tries + n } else { before.tries },
                                usage: used_all(before.usage, game@.guesses, j as int),
                                games: before.games,
                            }),
                        decreases n - j,
                    {
                        proof {
                            lemma_used_all_bound(
                                before.usage,
                                game@.guesses,
                                j as int,
                                game.guesses@[j as int]@,
                            );
                            assert(uses(before.usage, game.guesses@[j as int]@) <= total_guesses(
                                recs,
                                i as int,
                            ));
                        }
                        stats.update_guess(game.guesses[j].as_str());
                        j += 1;
                    }
                    let ghost kept = stats.games@;
                    let record = GameRecord {
                        answer: game.answer.clone(),
                        guesses: clone_words(&game.guesses),
                    };
                    assert(record@.guesses =~= game@.guesses);
                    stats.games.push(record);
                    assert(records(stats.games@) =~= records(kept).push(game@));
                    i += 1;
                    assert forall|w: Seq<char>| #[trigger]
                        uses(stats@.usage, w) <= total_guesses(recs, i as int) by {
                        lemma_used_all_bound(before.usage, game@.guesses, n as int, w);
                        assert(uses(before.usage, w) <= total_guesses(recs, i - 1));
                    }
                }
            },
        }
        Some(stats)
    }

    /// Counts a game won in `round` guesses, where the guesses themselves
    /// have been counted one by one.
    pub fn win_with_guesses_updated(&mut self, round: usize)
        requires
            old(self).wf(),
            old(self)@.wins < i32::MAX,
            old(self)@.tries + round <= i32::MAX,
        ensures
            final(self).wf(),
            final(self)@ == (StatsView {
                wins: old(self)@.wins + 1,
                tries: old(self)@.tries + round,
                ..old(self)@
            }),
    {
        self.wins += 1;
        self.tries += round as i32;
    }

    /// Counts a game won with the given guesses, the last of which is the
    /// answer, and records it. Returns what is to be saved, if `save` asks
    /// for it.
    pub fn win(&mut self, save: bool, guesses: &Vec<(String, GuessStatus)>) -> (saved: Option<State>)
        requires
            old(self).wf(),
            guesses@.len() > 0,
            old(self)@.wins + old(self)@.fails < i32::MAX,
            old(self)@.tries + guesses@.len() <= i32::MAX,
            forall|w: Seq<char>| #[trigger] uses(old(self)@.usage, w) + guesses@.len() <= usize::MAX,
        ensures
            final(self).wf(),
            final(self)@ == (StatsView {
                wins: old(self)@.wins + 1,
                tries: old(self)@.tries + guesses@.len(),
                usage: used_all(old(self)@.usage, guessed(guesses@), guesses@.len() as int),
                games: old(self)@.games.push(
                    RecordView { answer: guesses@.last().0@, guesses: guessed(guesses@) },
                ),
                ..old(self)@
            }),
            saved is Some == save,
            save ==> is_snapshot(saved->0, final(self)@),
    {
        self.win_with_guesses_updated(guesses.len());
        self.update_guesses(guesses, &guesses[guesses.len() - 1].0);
        if save {
            Some(self.snapshot())
        } else {
            None
        }
    }

    /// Counts a game lost, where the guesses themselves have been counted
    /// one by one.
    pub fn fail_with_guesses_updated(&mut self)
        requires
            old(self).wf(),
            old(self)@.fails < i32::MAX,
        ensures
            final(self).wf(),
            final(self)@ == (StatsView { fails: old(self)@.fails + 1, ..old(self)@ }),
    {
        self.fails += 1;
    }

    /// Counts a game lost with the given guesses and records it. Returns
    /// what is to be saved, if `save` asks for it.
    pub fn fail(&mut self, save: bool, guesses: &Vec<(String, GuessStatus)>, answer: &String) -> (saved:
        Option<State>)
        requires
            old(self).wf(),
            old(self)@.wins + old(self)@.fails < i32::MAX,
            forall|w: Seq<char>| #[trigger] uses(old(self)@.usage, w) + guesses@.len() <= usize::MAX,
        ensures
            final(self).wf(),
            final(self)@ == (StatsView {
                fails: old(self)@.fails + 1,
                usage: used_all(old(self)@.usage, guessed(guesses@), guesses@.len() as int),
                games: old(self)@.games.push(
                    RecordView { answer: answer@, guesses: guessed(guesses@) },
                ),
                ..old(self)@
            }),
            saved is Some == save,
            save ==> is_snapshot(saved->0, final(self)@),
    {
        self.fails += 1;
        self.update_guesses(guesses, answer);
        if save {
            Some(self.snapshot())
        } else {
            None
        }
    }

    /// What is to be kept between runs: the number of games played, and
    /// the games.
    pub fn snapshot(&self) -> (state: State)
        requires
            self.wf(),
            self@.wins + self@.fails <= i32::MAX,
        ensures
            is_snapshot(state, self@),
    {
        let total = (self.wins + self.fails) as u32;
        State { total_rounds: Some(total), games: Some(clone_records(&self.games)) }
    }
}

/// A word with the number of its uses.
pub open spec fn entry_view(entry: (String, usize)) -> (Seq<char>, nat) {
    (entry.0@, entry.1 as nat)
}

/// A list of words with their uses, each as characters and a number.
pub open spec fn favorite_views(top: Seq<(&String, &usize)>) -> Seq<(Seq<char>, nat)> {
    Seq::new(top.len(), |i: int| ((*top[i].0)@, *top[i].1 as nat))
}

/// `a` ranks before `b`: it was used more often, or as often and its word
/// comes first as strings compare.
pub open spec fn precedes(a: (Seq<char>, nat), b: (Seq<char>, nat)) -> bool {
    a.1 > b.1 || (a.1 == b.1 && word_less(a.0, b.0))
}

/// The place `m` is among those listed.
pub open spec fn listed(best: Seq<usize>, m: int) -> bool {
    exists|i: int| 0 <= i < best.len() && best[i] == m
}

/// The word `w` is among the ranked.
pub open spec fn ranks(top: Seq<(Seq<char>, nat)>, w: Seq<char>) -> bool {
    exists|i: int| 0 <= i < top.len() && (#[trigger] top[i]).0 == w
}

/// Five are ranked, and each of them before `other`.
pub open spec fn outranked(top: Seq<(Seq<char>, nat)>, other: (Seq<char>, nat)) -> bool {
    &&& top.len() == 5
    &&& forall|i: int| 0 <= i < top.len() ==> precedes(#[trigger] top[i], other)
}

/// Whether `top` is the ranking of the five most used words of `usage`:
/// its entries are taken from `usage`, each ranks before the next, and a
/// word that is left out is outranked by all five.
pub open spec fn are_favorites(top: Seq<(Seq<char>, nat)>, usage: Map<Seq<char>, nat>) -> bool {
    &&& top.len() <= 5
    &&& forall|i: int|
        0 <= i < top.len() ==> usage.contains_key((#[trigger] top[i]).0) && usage[top[i].0]
            == top[i].1
    &&& forall|i: int, j: int|
        0 <= i < j < top.len() ==> precedes(#[trigger] top[i], #[trigger] top[j])
    &&& forall|w: Seq<char>|
        usage.contains_key(w) ==> #[trigger] ranks(top, w) || outranked(top, (w, usage[w]))
}

/// Ranking is transitive.
pub proof fn lemma_precedes_transitive(
    a: (Seq<char>, nat),
    b: (Seq<char>, nat),
    c: (Seq<char>, nat),
)
    requires
        precedes(a, b),
        precedes(b, c),
    ensures
        precedes(a, c),
{
    if a.1 == b.1 && b.1 == c.1 {
        lemma_lex_less_transitive(
            vstd::utf8::encode_utf8(a.0),
            vstd::utf8::encode_utf8(b.0),
            vstd::utf8::encode_utf8(c.0),
        );
    }
}

/// Of two different words one ranks before the other.
pub proof fn lemma_precedes_total(a: (Seq<char>, nat), b: (Seq<char>, nat))
    requires
        a.0 != b.0,
    ensures
        precedes(a, b) || precedes(b, a),
{
    lemma_word_less_total(a.0, b.0);
}

/// Whether entry `a` ranks before entry `b`.
pub fn comes_first(a: &(String, usize), b: &(String, usize)) -> (first: bool)
    ensures
        first == precedes(entry_view(*a), entry_view(*b)),
{
    a.1 > b.1 || (a.1 == b.1 && str_less(a.0.as_str(), b.0.as_str()))
}

/// Whether statistics can take in a game of `n` guesses, won or lost,
/// without any count passing what its type can hold.
pub open spec fn has_room(s: StatsView, n: nat) -> bool {
    &&& s.wins + s.fails < i32::MAX
    &&& s.tries + n <= i32::MAX
    &&& forall|w: Seq<char>| #[trigger] uses(s.usage, w) + n <= usize::MAX
}

/// The games that a saved state holds.
pub open spec fn loaded(state: State) -> Seq<RecordView> {
    match state.games {
        Some(games) => records(games@),
        None => Seq::empty(),
    }
}

/// More games hold no fewer guesses.
pub proof fn lemma_total_guesses_monotonic(games: Seq<RecordView>, m: int, n: int)
    requires
        m <= n,
    ensures
        total_guesses(games, m) <= total_guesses(games, n),
    decreases n - m,
{
    if m < n {
        lemma_total_guesses_monotonic(games, m, n - 1);
    }
}

/// The words of a list of graded guesses.
pub open spec fn guessed(guesses: Seq<(String, GuessStatus)>) -> Seq<Seq<char>> {
    Seq::new(guesses.len(), |i: int| guesses[i].0@)
}

/// Whether `state` holds what statistics `s` have to keep.
pub open spec fn is_snapshot(state: State, s: StatsView) -> bool {
    &&& state.total_rounds == Some((s.wins + s.fails) as u32)
    &&& state.games is Some
    &&& records(state.games->0@) == s.games
}

/// Using `n` words raises no count by more than `n`.
pub proof fn lemma_used_all_bound(
    usage: Map<Seq<char>, nat>,
    words: Seq<Seq<char>>,
    n: int,
    w: Seq<char>,
)
    requires
        0 <= n,
    ensures
        uses(used_all(usage, words, n), w) <= uses(usage, w) + n,
    decreases n,
{
    if n > 0 {
        lemma_used_all_bound(usage, words, n - 1, w);
    }
}

/// A copy of a list of words.
pub fn clone_words(words: &Vec<String>) -> (copy: Vec<String>)
    ensures
        copy@.len() == words@.len(),
        forall|i: int| 0 <= i < words@.len() ==> (#[trigger] copy@[i])@ == words@[i]@,
{
    let mut copy: Vec<String> = Vec::new();
    let mut i: usize = 0;
    while i < words.len()
        invariant
            i <= words@.len(),
            copy@.len() == i,
            forall|j: int| 0 <= j < i ==> (#[trigger] copy@[j])@ == words@[j]@,
        decreases words@.len() - i,
    {
        copy.push(words[i].clone());
        i += 1;
    }
    copy
}

/// A copy of a list of recorded games.
pub fn clone_records(games: &Vec<GameRecord>) -> (copy: Vec<GameRecord>)
    ensures
        records(copy@) == records(games@),
{
    let mut copy: Vec<GameRecord> = Vec::new();
    let mut i: usize = 0;
    while i < games.len()
        invariant
            i <= games@.len(),
            copy@.len() == i,
            forall|j: int| 0 <= j < i ==> (#[trigger] copy@[j])@ == games@[j]@,
        decreases games@.len() - i,
    {
        let record = GameRecord {
            answer: games[i].answer.clone(),
            guesses: clone_words(&games[i].guesses),
        };
        assert(record@.guesses =~= games@[i as int]@.guesses);
        copy.push(record);
        i += 1;
    }
    assert(records(copy@) =~= records(games@));
    copy
}

} // verus!
