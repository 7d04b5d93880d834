//! The order of words: byte by byte, as strings compare.

use vstd::prelude::*;
use vstd::utf8::encode_utf8;

verus! {

/// The first `k` bytes of `a` and `b` are the same.
pub open spec fn agree_before(a: Seq<u8>, b: Seq<u8>, k: int) -> bool {
    &&& 0 <= k <= a.len()
    &&& k <= b.len()
    &&& forall|j: int| 0 <= j < k ==> a[j] == b[j]
}

/// `a` comes before `b`: where they first differ `a` has the smaller
/// byte, or `a` ends there and `b` goes on.
pub open spec fn lex_less(a: Seq<u8>, b: Seq<u8>) -> bool {
    exists|k: int| #[trigger]
        agree_before(a, b, k) && k < b.len() && (k == a.len() || a[k] < b[k])
}

/// `a` comes before `b` as strings compare.
pub open spec fn word_less(a: Seq<char>, b: Seq<char>) -> bool {
    lex_less(encode_utf8(a), encode_utf8(b))
}

/// The order is transitive.
pub proof fn lemma_lex_less_transitive(a: Seq<u8>, b: Seq<u8>, c: Seq<u8>)
    requires
        lex_less(a, b),
        lex_less(b, c),
    ensures
        lex_less(a, c),
{
    let k1 = choose|k: int| #[trigger]
        agree_before(a, b, k) && k < b.len() && (k == a.len() || a[k] < b[k]);
    let k2 = choose|k: int| #[trigger]
        agree_before(b, c, k) && k < c.len() && (k == b.len() || b[k] < c[k]);
    let k = if k1 <= k2 {
        k1
    } else {
        k2
    };
    assert(agree_before(a, c, k));
}

/// Nothing comes before itself.
pub proof fn lemma_lex_less_irreflexive(a: Seq<u8>)
    ensures
        !lex_less(a, a),
{
    if lex_less(a, a) {
        let k = choose|k: int| #[trigger]
            agree_before(a, a, k) && k < a.len() && (k == a.len() || a[k] < a[k]);
        assert(false);
    }
}

/// Two byte sequences that agree in their first `k` bytes are the same, or
/// one comes before the other.
pub proof fn lemma_lex_less_total_from(a: Seq<u8>, b: Seq<u8>, k: int)
    requires
        agree_before(a, b, k),
    ensures
        a == b || lex_less(a, b) || lex_less(b, a),
    decreases a.len() - k,
{
    if k == a.len() {
        if k == b.len() {
            assert(a =~= b);
        } else {
            assert(agree_before(a, b, k));
        }
    } else if k == b.len() {
        assert(agree_before(b, a, k));
    } else if a[k] < b[k] {
        assert(agree_before(a, b, k));
    } else if b[k] < a[k] {
        assert(agree_before(b, a, k));
    } else {
        lemma_lex_less_total_from(a, b, k + 1);
    }
}

/// Of two different words one comes before the other.
pub proof fn lemma_word_less_total(a: Seq<char>, b: Seq<char>)
    requires
        a != b,
    ensures
        word_less(a, b) || word_less(b, a),
{
    vstd::utf8::encode_utf8_decode_utf8(a);
    vstd::utf8::encode_utf8_decode_utf8(b);
    assert(agree_before(encode_utf8(a), encode_utf8(b), 0));
    lemma_lex_less_total_from(encode_utf8(a), encode_utf8(b), 0);
}

/// `a` does not come after `b`.
pub open spec fn word_leq(a: Seq<char>, b: Seq<char>) -> bool {
    !word_less(b, a)
}

/// Not to come after is a total order of words.
pub proof fn lemma_word_leq_total_ordering()
    ensures
        vstd::relations::total_ordering(|a: Seq<char>, b: Seq<char>| word_leq(a, b)),
{
    let leq = |a: Seq<char>, b: Seq<char>| word_leq(a, b);
    assert forall|x: Seq<char>| #[trigger] leq(x, x) by {
        lemma_lex_less_irreflexive(encode_utf8(x));
    }
    assert forall|x: Seq<char>, y: Seq<char>| #[trigger] leq(x, y) && #[trigger] leq(y, x) implies x
        == y by {
        if x != y {
            lemma_word_less_total(x, y);
        }
    }
    assert forall|x: Seq<char>, y: Seq<char>| #[trigger] leq(x, y) || #[trigger] leq(y, x) by {
        if word_less(x, y) && word_less(y, x) {
            lemma_lex_less_transitive(encode_utf8(x), encode_utf8(y), encode_utf8(x));
            lemma_lex_less_irreflexive(encode_utf8(x));
        }
    }
    assert forall|x: Seq<char>, y: Seq<char>, z: Seq<char>| #[trigger]
        leq(x, y) && #[trigger] leq(y, z) implies leq(x, z) by {
        if word_less(z, x) {
            if x != y {
                lemma_word_less_total(x, y);
                lemma_lex_less_transitive(encode_utf8(z), encode_utf8(x), encode_utf8(y));
            }
        }
    }
}

/// Whether `a` comes before `b`, byte by byte.
pub fn bytes_less(a: &[u8], b: &[u8]) -> (less: bool)
    ensures
        less == lex_less(a@, b@),
{
    let mut k: usize = 0;
    while k < a.len() && k < b.len()
        invariant
            agree_before(a@, b@, k as int),
        decreases a@.len() - k,
    {
        if a[k] < b[k] {
            return true;
        }
        if a[k] > b[k] {
            assert(!lex_less(a@, b@)) by {
                if lex_less(a@, b@) {
                    let w = choose|w: int| #[trigger]
                        agree_before(a@, b@, w) && w < b@.len() && (w == a@.len() || a@[w]
                            < b@[w]);
                    assert(false);
                }
            }
            return false;
        }
        k += 1;
    }
    if k < b.len() {
        true
    } else {
        assert(!lex_less(a@, b@)) by {
            if lex_less(a@, b@) {
                let w = choose|w: int| #[trigger]
                    agree_before(a@, b@, w) && w < b@.len() && (w == a@.len() || a@[w] < b@[w]);
                assert(false);
            }
        }
        false
    }
}

/// Whether `a` comes before `b` as strings compare.
pub fn str_less(a: &str, b: &str) -> (less: bool)
    ensures
        less == word_less(a@, b@),
{
    bytes_less(a.as_bytes(), b.as_bytes())
}

} // verus!
