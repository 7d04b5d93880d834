//! Lists of words put in order and shuffled.

use vstd::prelude::*;
use rand::seq::SliceRandom;
use rand::SeedableRng;
use crate::order::word_less;
use crate::words::{all_words, is_word, spellings};

verus! {

/// No word of the list comes before one that stands earlier in it.
pub open spec fn in_order(list: Seq<Seq<char>>) -> bool {
    forall|i: int, j: int|
        0 <= i <= j < list.len() ==> !word_less(#[trigger] list[j], #[trigger] list[i])
}

/// Two lists hold the same words, each as often in one as in the other.
pub open spec fn same_words(a: Seq<Seq<char>>, b: Seq<Seq<char>>) -> bool {
    a.to_multiset() == b.to_multiset()
}

/// The words of a list put in order.
pub open spec fn sorted_form(list: Seq<Seq<char>>) -> Seq<Seq<char>> {
    choose|sorted: Seq<Seq<char>>| in_order(sorted) && same_words(sorted, list)
}

/// The order in which `shuffle` of the crate `rand` leaves a list, with a
/// generator `StdRng` that was seeded with `seed`.
pub uninterp spec fn shuffled(list: Seq<Seq<char>>, seed: u64) -> Seq<Seq<char>>;

/// Sorts a list of words: `sort` of slices in the standard library, on
/// strings. Strings compare byte by byte, so the list ends in the order
/// of `word_less`, and it holds the words it held.
#[verifier::external_body]
pub(crate) fn sort_words(list: &mut Vec<String>)
    ensures
        in_order(spellings(final(list)@)),
        same_words(spellings(final(list)@), spellings(old(list)@)),
{
    list.sort()
}

/// Shuffles a list of words with a generator seeded with `seed`:
/// `StdRng::seed_from_u64`, then `SliceRandom::shuffle`. The shuffle only
/// swaps entries, so the list holds the words it held; the order depends
/// on the list and the seed alone and is named, not described.
#[verifier::external_body]
pub(crate) fn shuffle_words(list: &mut Vec<String>, seed: u64)
    ensures
        spellings(final(list)@) == shuffled(spellings(old(list)@), seed),
        same_words(spellings(final(list)@), spellings(old(list)@)),
{
    let mut rng = rand::rngs::StdRng::seed_from_u64(seed);
    list.shuffle(&mut rng)
}

/// Shuffles a list of words by a seed: the same list and seed always give
/// the same order, and the list holds the words it held.
pub fn shuffle(list: &mut Vec<String>, seed: u64)
    ensures
        spellings(final(list)@) == shuffled(spellings(old(list)@), seed),
        same_words(spellings(final(list)@), spellings(old(list)@)),
        final(list)@.len() == old(list)@.len(),
        all_words(old(list)@) ==> all_words(final(list)@),
{
    shuffle_words(list, seed);
    proof {
        lemma_same_words(list@, old(list)@);
    }
}

/// Sorts a list of words in the order of strings; the list holds the words
/// it held.
pub fn sort(list: &mut Vec<String>)
    ensures
        spellings(final(list)@) == sorted_form(spellings(old(list)@)),
        in_order(spellings(final(list)@)),
        same_words(spellings(final(list)@), spellings(old(list)@)),
        final(list)@.len() == old(list)@.len(),
        all_words(old(list)@) ==> all_words(final(list)@),
{
    sort_words(list);
    proof {
        lemma_same_words(list@, old(list)@);
        lemma_order_is_unique(spellings(list@), sorted_form(spellings(old(list)@)));
    }
}

/// There is only one way to put given words in order: two lists in order
/// that hold the same words are the same list.
pub proof fn lemma_order_is_unique(a: Seq<Seq<char>>, b: Seq<Seq<char>>)
    requires
        in_order(a),
        in_order(b),
        same_words(a, b),
    ensures
        a == b,
{
    let leq = |x: Seq<char>, y: Seq<char>| crate::order::word_leq(x, y);
    crate::order::lemma_word_leq_total_ordering();
    assert(vstd::relations::sorted_by(a, leq)) by {
        assert forall|i: int, j: int| 0 <= i < j < a.len() implies #[trigger] leq(a[i], a[j]) by {
            assert(!word_less(a[j], a[i]));
        }
    }
    assert(vstd::relations::sorted_by(b, leq)) by {
        assert forall|i: int, j: int| 0 <= i < j < b.len() implies #[trigger] leq(b[i], b[j]) by {
            assert(!word_less(b[j], b[i]));
        }
    }
    vstd::seq_lib::lemma_sorted_unique(a, b, leq);
}

/// Two lists with the same words are equally long, and hold playable
/// words if one of them does.
pub proof fn lemma_same_words(a: Seq<String>, b: Seq<String>)
    requires
        same_words(spellings(a), spellings(b)),
    ensures
        a.len() == b.len(),
        all_words(b) ==> all_words(a),
        forall|w: Seq<char>| spellings(a).contains(w) <==> spellings(b).contains(w),
{
    spellings(a).to_multiset_ensures();
    spellings(b).to_multiset_ensures();
    assert forall|w: Seq<char>| spellings(a).contains(w) <==> spellings(b).contains(w) by {
        assert(spellings(a).to_multiset().count(w) == spellings(b).to_multiset().count(w));
    }
    if all_words(b) {
        assert forall|i: int| 0 <= i < a.len() implies is_word(#[trigger] a[i]@) by {
            assert(spellings(a)[i] == a[i]@);
            assert(spellings(a).contains(a[i]@));
            assert(spellings(b).contains(a[i]@));
            crate::words::lemma_listed_word(b, a[i]@);
        }
    }
}

} // verus!
