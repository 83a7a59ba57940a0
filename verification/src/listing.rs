//! Key sets as ascending lists.

use vstd::prelude::*;

use crate::order::{
    lemma_lt_concat, lemma_lt_irreflexive, lemma_lt_single, lemma_lt_total, lemma_lt_transitive,
    word_lt,
};
use crate::words::{lemma_words_injective, Words};

verus! {

/// Key `a` stands before key `b`.
pub open spec fn key_lt<K: Words>(a: K, b: K) -> bool {
    word_lt(a.words(), b.words())
}

/// Key `a` stands before key `b` or is the same.
pub open spec fn key_le<K: Words>(a: K, b: K) -> bool {
    !key_lt(b, a)
}

/// Each key of the list stands before those behind it.
pub open spec fn ascending<K: Words>(s: Seq<K>) -> bool {
    forall|i: int, j: int| 0 <= i < j < s.len() ==> key_lt(#[trigger] s[i], #[trigger] s[j])
}

/// The keys of a finite set in ascending order.
pub open spec fn sorted<K: Words>(set: Set<K>) -> Seq<K> {
    choose|s: Seq<K>| ascending(s) && #[trigger] s.to_set() == set
}

/// The first `n` elements, or all where there are fewer.
pub open spec fn at_most<A>(s: Seq<A>, n: nat) -> Seq<A> {
    if n < s.len() {
        s.take(n as int)
    } else {
        s
    }
}

/// The keys of the rows from `lo` to `hi`, both ends included.
pub open spec fn between<K: Words, M>(m: Map<K, M>, lo: K, hi: K) -> Set<K> {
    Set::new(|k: K| m.contains_key(k) && key_le(lo, k) && key_le(k, hi))
}

pub proof fn lemma_key_total<K: Words>(a: K, b: K)
    ensures
        a == b || key_lt(a, b) || key_lt(b, a),
{
    lemma_lt_total(a.words(), b.words());
    if a.words() == b.words() {
        lemma_words_injective(a, b);
    }
}

pub proof fn lemma_key_transitive<K: Words>(a: K, b: K, c: K)
    requires
        key_lt(a, b),
        key_lt(b, c),
    ensures
        key_lt(a, c),
{
    lemma_lt_transitive(a.words(), b.words(), c.words());
}

pub proof fn lemma_key_irreflexive<K: Words>(a: K)
    ensures
        !key_lt(a, a),
{
    lemma_lt_irreflexive(a.words());
}

pub proof fn lemma_key_asymmetric<K: Words>(a: K, b: K)
    requires
        key_lt(a, b),
    ensures
        !key_lt(b, a),
        a != b,
{
    lemma_key_irreflexive(a);
    if key_lt(b, a) {
        lemma_key_transitive(a, b, a);
    }
}

/// Before and not behind go together along a chain.
pub proof fn lemma_key_lt_le<K: Words>(a: K, b: K, c: K)
    ensures
        key_lt(a, b) && key_le(b, c) ==> key_lt(a, c),
        key_le(a, b) && key_lt(b, c) ==> key_lt(a, c),
        key_le(a, b) && key_le(b, c) ==> key_le(a, c),
{
    lemma_key_total(a, b);
    lemma_key_total(b, c);
    lemma_key_irreflexive(a);
    if key_lt(a, b) && key_lt(b, c) {
        lemma_key_transitive(a, b, c);
    }
    if key_lt(a, c) {
        lemma_key_asymmetric(a, c);
    }
    if key_lt(c, a) && key_lt(a, b) {
        lemma_key_transitive(c, a, b);
    }
    if key_lt(c, a) && key_lt(b, c) {
        lemma_key_transitive(b, c, a);
    }
}

/// Two ascending lists of the same keys are one list.
pub proof fn lemma_ascending_unique<K: Words>(a: Seq<K>, b: Seq<K>)
    requires
        ascending(a),
        ascending(b),
        a.to_set() == b.to_set(),
    ensures
        a == b,
    decreases a.len(),
{
    if a.len() == 0 {
        if b.len() > 0 {
            assert(b.to_set().contains(b[0]));
            assert(a.to_set().contains(b[0]));
        }
        assert(a =~= b);
    } else {
        assert(a.to_set().contains(a.last()));
        assert(b.to_set().contains(a.last()));
        assert(b.len() > 0);
        assert(b.to_set().contains(b.last()));
        assert(a.to_set().contains(b.last()));
        let i = choose|i: int| 0 <= i < b.len() && b[i] == a.last();
        let j = choose|j: int| 0 <= j < a.len() && a[j] == b.last();
        if i < b.len() - 1 {
            assert(key_lt(b[i], b[b.len() - 1]));
            if j < a.len() - 1 {
                assert(key_lt(a[j], a[a.len() - 1]));
                lemma_key_asymmetric(a.last(), b.last());
            } else {
                lemma_key_irreflexive(a.last());
            }
        }
        assert(a.last() == b.last());
        let a1 = a.drop_last();
        let b1 = b.drop_last();
        assert forall|k: K| a1.to_set().contains(k) <==> b1.to_set().contains(k) by {
            if a1.to_set().contains(k) {
                let p = choose|p: int| 0 <= p < a1.len() && a1[p] == k;
                assert(a[p] == k);
                assert(key_lt(a[p], a[a.len() - 1]));
                lemma_key_asymmetric(k, a.last());
                assert(a.to_set().contains(k));
                let q = choose|q: int| 0 <= q < b.len() && b[q] == k;
                assert(b1[q] == k);
            }
            if b1.to_set().contains(k) {
                let p = choose|p: int| 0 <= p < b1.len() && b1[p] == k;
                assert(b[p] == k);
                assert(key_lt(b[p], b[b.len() - 1]));
                lemma_key_asymmetric(k, b.last());
                assert(b.to_set().contains(k));
                let q = choose|q: int| 0 <= q < a.len() && a[q] == k;
                assert(a1[q] == k);
            }
        }
        assert(a1.to_set() =~= b1.to_set());
        lemma_ascending_unique(a1, b1);
        assert(a =~= a1.push(a.last()));
        assert(b =~= b1.push(b.last()));
    }
}

pub proof fn lemma_sorted_is<K: Words>(s: Seq<K>, set: Set<K>)
    requires
        ascending(s),
        s.to_set() == set,
    ensures
        sorted(set) == s,
{
    lemma_ascending_unique(sorted(set), s);
}

/// A finite set has an ascending list.
pub proof fn lemma_sorted<K: Words>(set: Set<K>)
    requires
        set.finite(),
    ensures
        ascending(sorted(set)),
        sorted(set).to_set() == set,
        sorted(set).len() == set.len(),
        forall|k: K| set.contains(k) <==> #[trigger] sorted(set).contains(k),
    decreases set.len(),
{
    if set.len() == 0 {
        let s = Seq::<K>::empty();
        assert(s.to_set() =~= set);
        lemma_sorted_is(s, set);
    } else {
        let top = lemma_greatest(set);
        let rest = set.remove(top);
        lemma_sorted(rest);
        let s = sorted(rest).push(top);
        assert forall|i: int, j: int| 0 <= i < j < s.len() implies key_lt(
            #[trigger] s[i],
            #[trigger] s[j],
        ) by {
            if j == s.len() - 1 {
                assert(sorted(rest).to_set().contains(s[i]));
                lemma_key_total(s[i], top);
            }
        }
        assert(s.to_set() =~= set) by {
            assert forall|k: K| s.to_set().contains(k) <==> set.contains(k) by {
                if set.contains(k) {
                    if k == top {
                        assert(s[s.len() - 1] == k);
                    } else {
                        assert(sorted(rest).to_set().contains(k));
                        let p = choose|p: int| 0 <= p < sorted(rest).len() && sorted(rest)[p] == k;
                        assert(s[p] == k);
                    }
                }
                if s.to_set().contains(k) {
                    let p = choose|p: int| 0 <= p < s.len() && s[p] == k;
                    if p < s.len() - 1 {
                        assert(sorted(rest).to_set().contains(k));
                    }
                }
            }
        }
        lemma_sorted_is(s, set);
    }
    assert forall|k: K| set.contains(k) <==> #[trigger] sorted(set).contains(k) by {
        assert(sorted(set).to_set().contains(k) <==> sorted(set).contains(k));
    }
}

proof fn lemma_greatest<K: Words>(set: Set<K>) -> (top: K)
    requires
        set.finite(),
        set.len() > 0,
    ensures
        set.contains(top),
        forall|k: K| #[trigger] set.contains(k) ==> key_le(k, top),
    decreases set.len(),
{
    let k = set.choose();
    let rest = set.remove(k);
    lemma_key_irreflexive(k);
    if rest.len() == 0 {
        assert forall|x: K| #[trigger] set.contains(x) implies key_le(x, k) by {
            if x != k {
                assert(rest.contains(x));
            }
        }
        k
    } else {
        let t = lemma_greatest(rest);
        let top = if key_lt(t, k) {
            k
        } else {
            t
        };
        assert forall|x: K| #[trigger] set.contains(x) implies key_le(x, top) by {
            if x != k {
                assert(rest.contains(x));
                lemma_key_lt_le(x, t, k);
                lemma_key_irreflexive(x);
                if key_lt(t, k) {
                    lemma_key_asymmetric(t, k);
                    if key_lt(k, x) {
                        lemma_key_transitive(t, k, x);
                    }
                }
            }
        }
        top
    }
}

/// An ascending list of some keys of a set that stand before all its other
/// keys begins the list of the set.
pub proof fn lemma_sorted_prefix<K: Words>(s: Seq<K>, set: Set<K>)
    requires
        set.finite(),
        ascending(s),
        forall|k: K| s.contains(k) ==> set.contains(k),
        forall|k: K, i: int|
            #![trigger set.contains(k), s[i]]
            set.contains(k) && !s.contains(k) && 0 <= i < s.len() ==> key_lt(s[i], k),
    ensures
        s.len() <= sorted(set).len(),
        sorted(set).take(s.len() as int) == s,
        (forall|k: K| set.contains(k) ==> s.contains(k)) ==> sorted(set) == s,
{
    let rest = set.difference(s.to_set());
    lemma_sorted(rest);
    let tail = sorted(rest);
    let whole = s + tail;
    assert forall|i: int, j: int| 0 <= i < j < whole.len() implies key_lt(
        #[trigger] whole[i],
        #[trigger] whole[j],
    ) by {
        if j < s.len() {
            assert(key_lt(s[i], s[j]));
        } else if i >= s.len() {
            assert(key_lt(tail[i - s.len()], tail[j - s.len()]));
        } else {
            let k = tail[j - s.len()];
            assert(tail.contains(k));
            assert(rest.contains(k));
            assert(set.contains(k));
            assert(!s.contains(k));
            assert(key_lt(s[i], k));
        }
    }
    assert forall|k: K| whole.to_set().contains(k) <==> set.contains(k) by {
        if whole.to_set().contains(k) {
            let p = choose|p: int| 0 <= p < whole.len() && whole[p] == k;
            if p < s.len() {
                assert(s[p] == k);
                assert(s.contains(k));
            } else {
                assert(tail[p - s.len()] == k);
                assert(tail.contains(k));
                assert(rest.contains(k));
            }
        }
        if set.contains(k) {
            if s.contains(k) {
                let p = choose|p: int| 0 <= p < s.len() && s[p] == k;
                assert(whole[p] == k);
            } else {
                assert(rest.contains(k));
                assert(tail.contains(k));
                let p = choose|p: int| 0 <= p < tail.len() && tail[p] == k;
                assert(whole[s.len() + p] == k);
            }
        }
    }
    assert(whole.to_set() =~= set);
    lemma_sorted_is(whole, set);
    assert(whole.take(s.len() as int) =~= s);
    if forall|k: K| set.contains(k) ==> s.contains(k) {
        assert(rest =~= Set::empty());
        assert(tail =~= Seq::empty());
        assert(whole =~= s);
    }
}

/// Pairs are ordered by their first parts, then by their second.
pub proof fn lemma_pair_lt<A: Words, B: Words>(a1: A, b1: B, a2: A, b2: B)
    ensures
        key_lt((a1, b1), (a2, b2)) <==> key_lt(a1, a2) || (a1 == a2 && key_lt(b1, b2)),
{
    a1.lemma_round_trip();
    a2.lemma_round_trip();
    b1.lemma_round_trip();
    b2.lemma_round_trip();
    lemma_lt_concat(a1.words(), b1.words(), a2.words(), b2.words());
    if a1.words() == a2.words() {
        lemma_words_injective(a1, a2);
    }
}

/// Numbers are ordered as usual.
pub proof fn lemma_u64_lt(x: u64, y: u64)
    ensures
        key_lt(x, y) <==> x < y,
{
    lemma_lt_single(x, y);
}

/// The place of a key in the list of its set.
pub open spec fn rank<K: Words>(set: Set<K>, key: K) -> int {
    choose|i: int| 0 <= i < sorted(set).len() && #[trigger] sorted(set)[i] == key
}

pub proof fn lemma_rank<K: Words>(set: Set<K>, key: K)
    requires
        set.finite(),
        set.contains(key),
    ensures
        0 <= rank(set, key) < sorted(set).len(),
        sorted(set)[rank(set, key)] == key,
{
    lemma_sorted(set);
    assert(sorted(set).contains(key));
}

/// Each place in a list has one key and each key one place.
pub proof fn lemma_rank_at<K: Words>(set: Set<K>, i: int)
    requires
        set.finite(),
        0 <= i < sorted(set).len(),
    ensures
        set.contains(sorted(set)[i]),
        rank(set, sorted(set)[i]) == i,
{
    lemma_sorted(set);
    let s = sorted(set);
    assert(s.contains(s[i]));
    lemma_rank(set, s[i]);
    let r = rank(set, s[i]);
    if r < i {
        lemma_key_asymmetric(s[r], s[i]);
    } else if i < r {
        lemma_key_asymmetric(s[i], s[r]);
    }
}

/// A key that stands before all others of a set is its first.
pub proof fn lemma_first_is<K: Words>(set: Set<K>, key: K)
    requires
        set.finite(),
        set.contains(key),
        forall|k: K| #[trigger] set.contains(k) ==> key_le(key, k),
    ensures
        sorted(set).len() > 0,
        sorted(set)[0] == key,
{
    lemma_rank(set, key);
    lemma_sorted(set);
    let s = sorted(set);
    if rank(set, key) > 0 {
        assert(key_lt(s[0], s[rank(set, key)]));
        assert(s.contains(s[0]));
    }
}

/// A key that stands behind all others of a set is its last.
pub proof fn lemma_last_is<K: Words>(set: Set<K>, key: K)
    requires
        set.finite(),
        set.contains(key),
        forall|k: K| #[trigger] set.contains(k) ==> key_le(k, key),
    ensures
        sorted(set).len() > 0,
        sorted(set)[sorted(set).len() - 1] == key,
        sorted(set).last() == key,
{
    lemma_rank(set, key);
    lemma_sorted(set);
    let s = sorted(set);
    let r = rank(set, key);
    if r < s.len() - 1 {
        assert(key_lt(s[r], s[s.len() - 1]));
        assert(s.contains(s[s.len() - 1]));
    }
}

/// The least key of a set behind another one follows it in the list.
pub proof fn lemma_next_is<K: Words>(set: Set<K>, key: K, next: K)
    requires
        set.finite(),
        set.contains(key),
        set.contains(next),
        key_lt(key, next),
        forall|k: K| #[trigger] set.contains(k) && key_lt(key, k) ==> key_le(next, k),
    ensures
        rank(set, key) + 1 < sorted(set).len(),
        sorted(set)[rank(set, key) + 1] == next,
{
    lemma_rank(set, key);
    lemma_rank(set, next);
    lemma_sorted(set);
    let s = sorted(set);
    let i = rank(set, key);
    let j = rank(set, next);
    if j <= i {
        if j < i {
            assert(key_lt(s[j], s[i]));
            lemma_key_asymmetric(next, key);
        } else {
            lemma_key_irreflexive(key);
        }
    }
    if i + 1 < j {
        assert(key_lt(s[i], s[i + 1]));
        assert(key_lt(s[i + 1], s[j]));
        assert(s.contains(s[i + 1]));
    }
}

/// A key with none behind it in its set is the last of the list.
pub proof fn lemma_no_next<K: Words>(set: Set<K>, key: K)
    requires
        set.finite(),
        set.contains(key),
        forall|k: K| #[trigger] set.contains(k) ==> key_le(k, key),
    ensures
        rank(set, key) + 1 == sorted(set).len(),
{
    lemma_last_is(set, key);
    lemma_rank_at(set, sorted(set).len() - 1);
}

/// The greatest key of a set before another one precedes it in the list.
pub proof fn lemma_previous_is<K: Words>(set: Set<K>, key: K, previous: K)
    requires
        set.finite(),
        set.contains(key),
        set.contains(previous),
        key_lt(previous, key),
        forall|k: K| #[trigger] set.contains(k) && key_lt(k, key) ==> key_le(k, previous),
    ensures
        rank(set, key) >= 1,
        sorted(set)[rank(set, key) - 1] == previous,
{
    lemma_rank(set, key);
    lemma_rank(set, previous);
    lemma_sorted(set);
    let s = sorted(set);
    let i = rank(set, key);
    let j = rank(set, previous);
    if j >= i {
        if j > i {
            assert(key_lt(s[i], s[j]));
            lemma_key_asymmetric(previous, key);
        } else {
            lemma_key_irreflexive(key);
        }
    }
    if j + 1 < i {
        assert(key_lt(s[j], s[j + 1]));
        assert(key_lt(s[j + 1], s[i]));
        assert(s.contains(s[j + 1]));
    }
}

/// A key with none before it in its set is the first of the list.
pub proof fn lemma_no_previous<K: Words>(set: Set<K>, key: K)
    requires
        set.finite(),
        set.contains(key),
        forall|k: K| #[trigger] set.contains(k) ==> key_le(key, k),
    ensures
        rank(set, key) == 0,
{
    lemma_first_is(set, key);
    lemma_rank_at(set, 0);
}

/// Pairs from the least to the greatest second part are those with the given
/// first part.
pub proof fn lemma_prefix_range<A: Words, B: Words>(first: A, lo: B, hi: B, k: (A, B))
    requires
        key_le(lo, k.1),
        key_le(k.1, hi),
    ensures
        key_le((first, lo), k) && key_le(k, (first, hi)) <==> k.0 == first,
{
    lemma_pair_lt(k.0, k.1, first, lo);
    lemma_pair_lt(first, hi, k.0, k.1);
    lemma_key_total(first, k.0);
    lemma_key_irreflexive(first);
    if key_lt(first, k.0) {
        lemma_key_asymmetric(first, k.0);
    }
}

/// Triples are ordered by their first parts, then by their second, then by
/// their third.
pub proof fn lemma_triple_lt<A: Words + Copy, B: Words + Copy, C: Words + Copy>(
    x: (A, B, C),
    y: (A, B, C),
)
    ensures
        key_lt(x, y) <==> key_lt(x.0, y.0) || (x.0 == y.0 && (key_lt(x.1, y.1) || (x.1 == y.1
            && key_lt(x.2, y.2)))),
{
    lemma_pair_lt(x.0, (x.1, x.2), y.0, (y.1, y.2));
    lemma_pair_lt(x.1, x.2, y.1, y.2);
}

/// Triples from the least to the greatest third part are those with the given
/// first and second parts.
pub proof fn lemma_triple_range<A: Words + Copy, B: Words + Copy, C: Words + Copy>(
    a: A,
    b: B,
    lo: C,
    hi: C,
    k: (A, B, C),
)
    requires
        key_le(lo, k.2),
        key_le(k.2, hi),
    ensures
        key_le((a, b, lo), k) && key_le(k, (a, b, hi)) <==> k.0 == a && k.1 == b,
{
    lemma_triple_lt(k, (a, b, lo));
    lemma_triple_lt((a, b, hi), k);
    lemma_key_total(a, k.0);
    lemma_key_total(b, k.1);
    lemma_key_irreflexive(a);
    lemma_key_irreflexive(b);
    if key_lt(a, k.0) {
        lemma_key_asymmetric(a, k.0);
    }
    if key_lt(b, k.1) {
        lemma_key_asymmetric(b, k.1);
    }
}

/// A key of a set with none before it.
pub open spec fn is_first_of<K: Words>(set: Set<K>, key: K) -> bool {
    set.contains(key) && forall|k: K| #[trigger] set.contains(k) ==> key_le(key, k)
}

/// The first key of a set, where it has one.
pub open spec fn first_of<K: Words>(set: Set<K>) -> Option<K> {
    if exists|k: K| is_first_of(set, k) {
        Some(choose|k: K| is_first_of(set, k))
    } else {
        None
    }
}

pub proof fn lemma_first_of<K: Words>(set: Set<K>, key: K)
    requires
        is_first_of(set, key),
    ensures
        first_of(set) == Some(key),
{
    let k = choose|k: K| is_first_of(set, k);
    assert(is_first_of(set, k));
    assert(set.contains(k) && set.contains(key));
    lemma_key_total(k, key);
}

/// The keys of the rows behind one, or all where none is given.
pub open spec fn behind<K: Words, M>(m: Map<K, M>, after: Option<K>) -> Set<K> {
    Set::new(
        |k: K|
            m.contains_key(k) && match after {
                Some(a) => key_lt(a, k),
                None => true,
            },
    )
}

/// The keys of the rows from `lo` to `hi`, both ends included, that are behind
/// `after`, where it is given.
pub open spec fn span<K: Words, M>(m: Map<K, M>, after: Option<K>, lo: K, hi: K) -> Set<K> {
    between(m, lo, hi).intersect(behind(m, after))
}

}
