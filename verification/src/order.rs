//! The order in which rows are kept: shorter keys first, keys of one length
//! word by word.

use vstd::prelude::*;

verus! {

/// At `i` the two lists differ for the first time, and `a` has the smaller word there.
pub open spec fn differs_first(a: Seq<u64>, b: Seq<u64>, i: int) -> bool {
    &&& 0 <= i < a.len()
    &&& i < b.len()
    &&& a[i] < b[i]
    &&& forall|j: int| 0 <= j < i ==> a[j] == b[j]
}

/// `a` stands strictly before `b`.
pub open spec fn word_lt(a: Seq<u64>, b: Seq<u64>) -> bool {
    ||| a.len() < b.len()
    ||| a.len() == b.len() && exists|i: int| differs_first(a, b, i)
}

pub proof fn lemma_lt_irreflexive(a: Seq<u64>)
    ensures
        !word_lt(a, a),
{
}

pub proof fn lemma_lt_transitive(a: Seq<u64>, b: Seq<u64>, c: Seq<u64>)
    requires
        word_lt(a, b),
        word_lt(b, c),
    ensures
        word_lt(a, c),
{
    if a.len() == b.len() && b.len() == c.len() {
        let i = choose|i: int| differs_first(a, b, i);
        let j = choose|j: int| differs_first(b, c, j);
        if i <= j {
            assert(differs_first(a, c, i));
        } else {
            assert(differs_first(a, c, j));
        }
    }
}

pub proof fn lemma_lt_asymmetric(a: Seq<u64>, b: Seq<u64>)
    requires
        word_lt(a, b),
    ensures
        !word_lt(b, a),
{
    if word_lt(b, a) {
        lemma_lt_transitive(a, b, a);
        lemma_lt_irreflexive(a);
    }
}

/// Any two lists are equal or one of them stands before the other.
pub proof fn lemma_lt_total(a: Seq<u64>, b: Seq<u64>)
    ensures
        a == b || word_lt(a, b) || word_lt(b, a),
{
    if a.len() == b.len() {
        lemma_first_difference(a, b, 0);
    }
}

proof fn lemma_first_difference(a: Seq<u64>, b: Seq<u64>, from: int)
    requires
        a.len() == b.len(),
        0 <= from <= a.len(),
        forall|j: int| 0 <= j < from ==> a[j] == b[j],
    ensures
        a == b || word_lt(a, b) || word_lt(b, a),
    decreases a.len() - from,
{
    if from == a.len() {
        assert(a =~= b);
    } else if a[from] < b[from] {
        assert(differs_first(a, b, from));
    } else if b[from] < a[from] {
        assert(differs_first(b, a, from));
    } else {
        lemma_first_difference(a, b, from + 1);
    }
}

/// With equal leading parts the order is that of the rest; else it is that of
/// the leading parts.
pub proof fn lemma_lt_concat(a1: Seq<u64>, a2: Seq<u64>, b1: Seq<u64>, b2: Seq<u64>)
    requires
        a1.len() == b1.len(),
        a2.len() == b2.len(),
    ensures
        word_lt(a1 + a2, b1 + b2) <==> word_lt(a1, b1) || (a1 == b1 && word_lt(a2, b2)),
{
    let a = a1 + a2;
    let b = b1 + b2;
    let n = a1.len() as int;
    if word_lt(a, b) {
        let i = choose|i: int| differs_first(a, b, i);
        if i < n {
            assert(forall|j: int| 0 <= j < i ==> a[j] == b[j]);
            assert(forall|j: int| 0 <= j < i ==> a1[j] == a[j] && b1[j] == b[j]);
            assert(differs_first(a1, b1, i));
        } else {
            assert forall|j: int| 0 <= j < n implies a1[j] == b1[j] by {
                assert(a[j] == b[j]);
            }
            assert(a1 =~= b1);
            assert forall|j: int| 0 <= j < i - n implies a2[j] == b2[j] by {
                assert(a[n + j] == b[n + j]);
            }
            assert(differs_first(a2, b2, i - n));
        }
    }
    if word_lt(a1, b1) {
        let i = choose|i: int| differs_first(a1, b1, i);
        assert forall|j: int| 0 <= j < i implies a[j] == b[j] by {
            assert(a1[j] == b1[j]);
        }
        assert(differs_first(a, b, i));
    }
    if a1 == b1 && word_lt(a2, b2) {
        let i = choose|i: int| differs_first(a2, b2, i);
        assert forall|j: int| 0 <= j < n + i implies a[j] == b[j] by {
            if j >= n {
                assert(a2[j - n] == b2[j - n]);
            }
        }
        assert(differs_first(a, b, n + i));
    }
}

/// Lists of one word are ordered as their words are.
pub proof fn lemma_lt_single(x: u64, y: u64)
    ensures
        word_lt(seq![x], seq![y]) <==> x < y,
{
    if x < y {
        assert(differs_first(seq![x], seq![y], 0));
    }
}

}
