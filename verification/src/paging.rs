//! Pages of rows that are read as records, some rows being passed over.

use vstd::prelude::*;

use crate::database::Database;
use crate::error::{unread, DbError, DbResult};
use crate::listing::{
    between, key_lt, lemma_key_asymmetric, lemma_key_irreflexive, lemma_key_lt_le, lemma_rank_at,
    lemma_sorted, lemma_sorted_is, sorted,
};
use crate::table::{Table, Value};
use crate::words::Words;

verus! {

/// The records among what rows read as.
pub open spec fn records_of<R>(outs: Seq<Option<R>>) -> Seq<R>
    decreases outs.len(),
{
    if outs.len() == 0 {
        Seq::empty()
    } else {
        match outs.last() {
            Some(r) => records_of(outs.drop_last()).push(r),
            None => records_of(outs.drop_last()),
        }
    }
}

/// Rows with these keys are read in order as `outs`, until the page is full or
/// none are left: no row is read once it is full.
pub open spec fn read_until_full<K, R>(keys: Seq<K>, outs: Seq<Option<R>>, limit: nat) -> bool {
    &&& outs.len() <= keys.len()
    &&& forall|i: int| 0 <= i < outs.len() ==> records_of(#[trigger] outs.take(i)).len() < limit
    &&& outs.len() < keys.len() ==> records_of(outs).len() >= limit
}

/// The key of the first row that was not read, from which the next page goes
/// on.
pub open spec fn continuation<K, R>(keys: Seq<K>, outs: Seq<Option<R>>) -> Option<K> {
    if outs.len() < keys.len() {
        Some(keys[outs.len() as int])
    } else {
        None
    }
}

/// What a row can be read as.
pub open spec fn row_read<K: Words, V: Value, R, F: Fn(&K, &V) -> DbResult<Option<R>>>(
    load: F,
    m: Map<K, V::Model>,
    key: K,
    out: DbResult<Option<R>>,
) -> bool {
    exists|value: V|
        #![trigger value.model()]
        value.model() == m[key] && call_ensures(load, (&key, &value), out)
}

/// A page of the rows with the given keys.
pub open spec fn is_page<K: Words, V: Value, R, F: Fn(&K, &V) -> DbResult<Option<R>>>(
    load: F,
    m: Map<K, V::Model>,
    keys: Seq<K>,
    limit: nat,
    records: Seq<R>,
    next: Option<K>,
) -> bool {
    exists|outs: Seq<Option<R>>|
        {
            &&& #[trigger] read_until_full(keys, outs, limit)
            &&& records == records_of(outs)
            &&& next == continuation(keys, outs)
            &&& forall|i: int|
                0 <= i < outs.len() ==> row_read::<K, V, R, F>(
                    load,
                    m,
                    keys[i],
                    Ok(#[trigger] outs[i]),
                )
        }
}

/// A row of those with the given keys could not be read.
pub open spec fn row_failed<K: Words, V: Value, R, F: Fn(&K, &V) -> DbResult<Option<R>>>(
    load: F,
    m: Map<K, V::Model>,
    keys: Seq<K>,
    e: DbError,
) -> bool {
    exists|i: int|
        0 <= i < keys.len() && #[trigger] row_read::<K, V, R, F>(load, m, keys[i], Err(e))
}

/// A page holds at most as many records as it may.
pub proof fn law_page_bounded<K, R>(keys: Seq<K>, outs: Seq<Option<R>>, limit: nat)
    requires
        read_until_full(keys, outs, limit),
    ensures
        records_of(outs).len() <= limit,
        outs.len() < keys.len() ==> records_of(outs).len() == limit,
        limit == 0 ==> outs.len() == 0,
{
    if outs.len() > 0 {
        let n = outs.len() - 1;
        assert(outs.take(n) =~= outs.drop_last());
        assert(records_of(outs.take(n)).len() < limit);
    }
}

/// Where a page goes on from the key that the last one stopped at, it goes on
/// with the rows that were not read, and with all of them.
pub proof fn law_pages_go_on<K: Words, M>(m: Map<K, M>, lo: K, hi: K, n: int)
    requires
        between(m, lo, hi).finite(),
        0 <= n < sorted(between(m, lo, hi)).len(),
    ensures
        ({
            let keys = sorted(between(m, lo, hi));
            sorted(between(m, keys[n], hi)) == keys.skip(n)
        }),
{
    let range = between(m, lo, hi);
    let keys = sorted(range);
    lemma_sorted(range);
    let rest = keys.skip(n);
    assert forall|k: K| #[trigger] rest.to_set().contains(k) == between(m, keys[n], hi).contains(
        k,
    ) by {
        lemma_key_lt_le(lo, keys[n], k);
        assert(keys.contains(keys[n]));
        if rest.contains(k) {
            let i = choose|i: int| 0 <= i < rest.len() && rest[i] == k;
            assert(keys[n + i] == k);
            assert(keys.contains(k));
            lemma_key_irreflexive(k);
            if i > 0 {
                lemma_key_asymmetric(keys[n], k);
            }
        }
        if between(m, keys[n], hi).contains(k) {
            assert(range.contains(k));
            assert(keys.contains(k));
            let i = choose|i: int| 0 <= i < keys.len() && keys[i] == k;
            if i < n {
                assert(key_lt(keys[i], keys[n]));
            }
            assert(rest[i - n] == k);
        }
    }
    assert(rest.to_set() =~= between(m, keys[n], hi));
    lemma_sorted_is(rest, between(m, keys[n], hi));
}

/// The same holds of pages that go backwards.
pub proof fn law_pages_go_back<K: Words, M>(m: Map<K, M>, lo: K, hi: K, n: int)
    requires
        between(m, lo, hi).finite(),
        0 <= n < sorted(between(m, lo, hi)).len(),
    ensures
        ({
            let keys = sorted(between(m, lo, hi));
            sorted(between(m, lo, keys[n])) == keys.take(n + 1)
        }),
{
    let range = between(m, lo, hi);
    let keys = sorted(range);
    lemma_sorted(range);
    let rest = keys.take(n + 1);
    assert forall|k: K| #[trigger] rest.to_set().contains(k) == between(m, lo, keys[n]).contains(
        k,
    ) by {
        lemma_key_lt_le(k, keys[n], hi);
        assert(keys.contains(keys[n]));
        if rest.contains(k) {
            let i = choose|i: int| 0 <= i < rest.len() && rest[i] == k;
            assert(keys[i] == k);
            assert(keys.contains(k));
            lemma_key_irreflexive(k);
            if i < n {
                lemma_key_asymmetric(k, keys[n]);
            }
        }
        if between(m, lo, keys[n]).contains(k) {
            assert(range.contains(k));
            assert(keys.contains(k));
            let i = choose|i: int| 0 <= i < keys.len() && keys[i] == k;
            if n < i {
                assert(key_lt(keys[n], keys[i]));
            }
            assert(rest[i] == k);
        }
    }
    assert(rest.to_set() =~= between(m, lo, keys[n]));
    lemma_sorted_is(rest, between(m, lo, keys[n]));
}

impl Database {
    /// Reads rows from `lo` to `hi` as records until there are `limit` of them.
    /// The second result is the key from which to go on.
    pub fn paginate_table<
        K: Words + Copy,
        V: Value,
        R,
        F: Fn(&K, &V) -> DbResult<Option<R>>,
    >(table: &Table<'_, K, V>, lo: K, hi: K, limit: usize, load: F) -> (res: DbResult<
        (Vec<R>, Option<K>),
    >)
        requires
            forall|k: &K, v: &V| call_requires(load, (k, v)),
        ensures
            ({
                let keys = sorted(between(table@, lo, hi));
                match res {
                    Ok((records, next)) => is_page::<K, V, R, F>(
                        load,
                        table@,
                        keys,
                        limit as nat,
                        records@,
                        next,
                    ),
                    Err(e) => e.is_fault() || row_failed::<K, V, R, F>(load, table@, keys, e),
                }
            }),
            res is Ok ==> between(table@, lo, hi).finite(),
            unread(res) ==> !table.intact() || row_failed::<K, V, R, F>(
                load,
                table@,
                sorted(between(table@, lo, hi)),
                res->Err_0,
            ),
    {
        let ghost range = between(table@, lo, hi);
        let ghost keys = sorted(range);
        let mut records: Vec<R> = Vec::new();
        let ghost mut outs: Seq<Option<R>> = Seq::empty();
        let mut next = table.walk_from(&lo, &hi)?;
        assert(records@ =~= records_of(outs));
        loop
            invariant
                forall|k: &K, v: &V| call_requires(load, (k, v)),
                range == between(table@, lo, hi),
                range.finite(),
                keys == sorted(range),
                outs.len() <= keys.len(),
                forall|i: int|
                    0 <= i < outs.len() ==> records_of(#[trigger] outs.take(i)).len() < limit,
                records@ == records_of(outs),
                forall|i: int|
                    0 <= i < outs.len() ==> row_read::<K, V, R, F>(
                        load,
                        table@,
                        keys[i],
                        Ok(#[trigger] outs[i]),
                    ),
                next is Some <==> outs.len() < keys.len(),
                next matches Some((key, value)) ==> keys[outs.len() as int] == key
                    && range.contains(key) && table@[key] == value.model(),
            decreases keys.len() - outs.len(),
        {
            match next {
                Some((key, value)) => {
                    if limit <= records.len() {
                        assert(read_until_full(keys, outs, limit as nat));
                        return Ok((records, Some(key)));
                    }
                    let following = table.walk_on(&key, &lo, &hi)?;
                    let out = load(&key, &value);
                    proof {
                        lemma_rank_at(range, outs.len() as int);
                        assert(call_ensures(load, (&key, &value), out));
                        assert(value.model() == table@[key]);
                        assert(row_read::<K, V, R, F>(
                            load,
                            table@,
                            keys[outs.len() as int],
                            out,
                        ));
                    }
                    let out = out?;
                    let ghost read = out;
                    proof {
                        let before = outs;
                        outs = outs.push(read);
                        assert(outs.drop_last() =~= before);
                        assert forall|i: int| 0 <= i < outs.len() implies records_of(
                            #[trigger] outs.take(i),
                        ).len() < limit by {
                            assert(outs.take(i) =~= before.take(i));
                            if i == before.len() {
                                assert(before.take(i) =~= before);
                            }
                        }
                    }
                    if let Some(record) = out {
                        records.push(record);
                    }
                    next = following;
                },
                None => {
                    assert(read_until_full(keys, outs, limit as nat));
                    return Ok((records, None));
                },
            }
        }
    }

    /// Reads rows from `hi` down to `lo` as records until there are `limit` of
    /// them. The second result is the key from which to go on.
    pub fn paginate_table_rev<
        K: Words + Copy,
        V: Value,
        R,
        F: Fn(&K, &V) -> DbResult<Option<R>>,
    >(table: &Table<'_, K, V>, lo: K, hi: K, limit: usize, load: F) -> (res: DbResult<
        (Vec<R>, Option<K>),
    >)
        requires
            forall|k: &K, v: &V| call_requires(load, (k, v)),
        ensures
            ({
                let keys = sorted(between(table@, lo, hi)).reverse();
                match res {
                    Ok((records, next)) => is_page::<K, V, R, F>(
                        load,
                        table@,
                        keys,
                        limit as nat,
                        records@,
                        next,
                    ),
                    Err(e) => e.is_fault() || row_failed::<K, V, R, F>(load, table@, keys, e),
                }
            }),
            res is Ok ==> between(table@, lo, hi).finite(),
            unread(res) ==> !table.intact() || row_failed::<K, V, R, F>(
                load,
                table@,
                sorted(between(table@, lo, hi)).reverse(),
                res->Err_0,
            ),
    {
        let ghost range = between(table@, lo, hi);
        let ghost keys = sorted(range).reverse();
        let mut records: Vec<R> = Vec::new();
        let ghost mut outs: Seq<Option<R>> = Seq::empty();
        let mut next = table.walk_back_from(&lo, &hi)?;
        assert(records@ =~= records_of(outs));
        loop
            invariant
                forall|k: &K, v: &V| call_requires(load, (k, v)),
                range == between(table@, lo, hi),
                range.finite(),
                keys == sorted(range).reverse(),
                outs.len() <= keys.len(),
                forall|i: int|
                    0 <= i < outs.len() ==> records_of(#[trigger] outs.take(i)).len() < limit,
                records@ == records_of(outs),
                forall|i: int|
                    0 <= i < outs.len() ==> row_read::<K, V, R, F>(
                        load,
                        table@,
                        keys[i],
                        Ok(#[trigger] outs[i]),
                    ),
                next is Some <==> outs.len() < keys.len(),
                next matches Some((key, value)) ==> keys[outs.len() as int] == key
                    && range.contains(key) && table@[key] == value.model(),
            decreases keys.len() - outs.len(),
        {
            match next {
                Some((key, value)) => {
                    if limit <= records.len() {
                        assert(read_until_full(keys, outs, limit as nat));
                        return Ok((records, Some(key)));
                    }
                    let following = table.walk_back(&key, &lo, &hi)?;
                    let out = load(&key, &value);
                    proof {
                        lemma_rank_at(range, keys.len() - 1 - outs.len());
                        assert(call_ensures(load, (&key, &value), out));
                        assert(value.model() == table@[key]);
                        assert(row_read::<K, V, R, F>(
                            load,
                            table@,
                            keys[outs.len() as int],
                            out,
                        ));
                    }
                    let out = out?;
                    let ghost read = out;
                    proof {
                        let before = outs;
                        outs = outs.push(read);
                        assert(outs.drop_last() =~= before);
                        assert forall|i: int| 0 <= i < outs.len() implies records_of(
                            #[trigger] outs.take(i),
                        ).len() < limit by {
                            assert(outs.take(i) =~= before.take(i));
                            if i == before.len() {
                                assert(before.take(i) =~= before);
                            }
                        }
                    }
                    if let Some(record) = out {
                        records.push(record);
                    }
                    next = following;
                },
                None => {
                    assert(read_until_full(keys, outs, limit as nat));
                    return Ok((records, None));
                },
            }
        }
    }
}

}
