//! Several lists of posts, each the latest first, read as one.

use vstd::multiset::Multiset;
use vstd::prelude::*;
use vstd::relations::total_ordering;

use crate::error::{DbError, DbResult};
use crate::ids::{EventOrder, ShortEventId, Timestamp};
use crate::paging::{read_until_full, records_of};

verus! {

/// No position of the list is behind one that stands before it.
pub open spec fn latest_first(s: Seq<EventOrder>) -> bool {
    forall|i: int, j: int| 0 <= i < j < s.len() ==> (#[trigger] s[j]).le(#[trigger] s[i])
}

/// The positions of all lists together.
pub open spec fn all_of(streams: Seq<Seq<EventOrder>>) -> Multiset<EventOrder>
    decreases streams.len(),
{
    if streams.len() == 0 {
        Multiset::empty()
    } else {
        all_of(streams.drop_last()).add(streams.last().to_multiset())
    }
}

/// All positions of the lists in one list, the latest first.
pub open spec fn is_merge(streams: Seq<Seq<EventOrder>>, keys: Seq<EventOrder>) -> bool {
    latest_first(keys) && keys.to_multiset() == all_of(streams)
}

/// What lists of positions stand for.
pub open spec fn lists_of(streams: Seq<Vec<EventOrder>>) -> Seq<Seq<EventOrder>> {
    streams.map_values(|s: Vec<EventOrder>| s@)
}

/// Some lists have one merge.
pub proof fn law_merge_unique(
    streams: Seq<Seq<EventOrder>>,
    a: Seq<EventOrder>,
    b: Seq<EventOrder>,
)
    requires
        is_merge(streams, a),
        is_merge(streams, b),
    ensures
        a == b,
{
    lemma_ordered_unique(a, b);
}

proof fn lemma_ordered_unique(a: Seq<EventOrder>, b: Seq<EventOrder>)
    requires
        latest_first(a),
        latest_first(b),
        a.to_multiset() == b.to_multiset(),
    ensures
        a == b,
    decreases a.len(),
{
    broadcast use vstd::seq_lib::group_to_multiset_ensures;

    assert(a.len() == a.to_multiset().len());
    assert(b.len() == b.to_multiset().len());
    if a.len() > 0 {
        assert(a.to_multiset().count(a.last()) > 0);
        assert(b.to_multiset().count(b.last()) > 0);
        assert(b.contains(a.last()));
        assert(a.contains(b.last()));
        let i = choose|i: int| 0 <= i < b.len() && b[i] == a.last();
        let j = choose|j: int| 0 <= j < a.len() && a[j] == b.last();
        assert(b.last().le(b[i]));
        assert(a.last().le(a[j]));
        assert(a.last() == b.last());
        let a1 = a.drop_last();
        let b1 = b.drop_last();
        assert(a1.push(a.last()) =~= a);
        assert(b1.push(b.last()) =~= b);
        assert(a1.to_multiset() =~= a.to_multiset().remove(a.last())) by {
            assert(a.remove(a.len() - 1) =~= a1);
        }
        assert(b1.to_multiset() =~= b.to_multiset().remove(b.last())) by {
            assert(b.remove(b.len() - 1) =~= b1);
        }
        lemma_ordered_unique(a1, b1);
    }
    assert(a =~= b);
}

spec fn joined(streams: Seq<Seq<EventOrder>>) -> Seq<EventOrder>
    decreases streams.len(),
{
    if streams.len() == 0 {
        Seq::empty()
    } else {
        joined(streams.drop_last()) + streams.last()
    }
}

proof fn lemma_joined(streams: Seq<Seq<EventOrder>>)
    ensures
        joined(streams).to_multiset() == all_of(streams),
    decreases streams.len(),
{
    broadcast use vstd::seq_lib::group_to_multiset_ensures;

    if streams.len() == 0 {
        assert(joined(streams).to_multiset() =~= Multiset::empty());
    } else {
        lemma_joined(streams.drop_last());
        vstd::seq_lib::lemma_multiset_commutative(joined(streams.drop_last()), streams.last());
    }
}

/// Some lists have a merge.
proof fn lemma_merge_exists(streams: Seq<Seq<EventOrder>>) -> (keys: Seq<EventOrder>)
    ensures
        is_merge(streams, keys),
{
    let leq = |a: EventOrder, b: EventOrder| b.le(a);
    assert(total_ordering(leq));
    let s = joined(streams);
    s.lemma_sort_by_ensures(leq);
    lemma_joined(streams);
    let keys = s.sort_by(leq);
    assert forall|i: int, j: int| 0 <= i < j < keys.len() implies (#[trigger] keys[j]).le(
        #[trigger] keys[i],
    ) by {
        assert(leq(keys[i], keys[j]));
    }
    keys
}

pub proof fn lemma_all_of_contains(streams: Seq<Seq<EventOrder>>, o: EventOrder)
    requires
        all_of(streams).count(o) > 0,
    ensures
        exists|i: int| 0 <= i < streams.len() && (#[trigger] streams[i]).contains(o),
    decreases streams.len(),
{
    broadcast use vstd::seq_lib::group_to_multiset_ensures;

    if streams.len() > 0 {
        if streams.last().to_multiset().count(o) > 0 {
            assert(streams[streams.len() - 1].contains(o));
        } else {
            lemma_all_of_contains(streams.drop_last(), o);
            let i = choose|i: int|
                0 <= i < streams.drop_last().len() && (#[trigger] streams.drop_last()[i]).contains(
                    o,
                );
            assert(streams[i].contains(o));
        }
    }
}

pub proof fn lemma_all_of_has(streams: Seq<Seq<EventOrder>>, i: int, o: EventOrder)
    requires
        0 <= i < streams.len(),
        streams[i].contains(o),
    ensures
        all_of(streams).count(o) > 0,
    decreases streams.len(),
{
    broadcast use vstd::seq_lib::group_to_multiset_ensures;

    if i < streams.len() - 1 {
        assert(streams.drop_last()[i] == streams[i]);
        lemma_all_of_has(streams.drop_last(), i, o);
    } else {
        assert(streams.last().to_multiset().count(o) > 0);
    }
}

/// One list without its first position: that one is missing of all.
proof fn lemma_all_of_without(streams: Seq<Seq<EventOrder>>, j: int)
    requires
        0 <= j < streams.len(),
        streams[j].len() > 0,
    ensures
        all_of(streams.update(j, streams[j].drop_first())).insert(streams[j][0]) == all_of(streams),
    decreases streams.len(),
{
    broadcast use vstd::seq_lib::group_to_multiset_ensures;

    let s = streams[j];
    let after = streams.update(j, s.drop_first());
    if j < streams.len() - 1 {
        assert(streams.drop_last()[j] == s);
        lemma_all_of_without(streams.drop_last(), j);
        assert(after.drop_last() =~= streams.drop_last().update(j, s.drop_first()));
        assert(after.last() == streams.last());
        assert(all_of(after).insert(s[0]) =~= all_of(streams));
    } else {
        assert(after.drop_last() =~= streams.drop_last());
        assert(after.last() == s.drop_first());
        assert(s.remove(0) =~= s.drop_first());
        assert(s.to_multiset().count(s[0]) > 0) by {
            assert(s.contains(s[0]));
        }
        assert(all_of(after).insert(s[0]) =~= all_of(streams));
    }
}

/// What is left of the lists behind the given places.
spec fn rest_of(streams: Seq<Seq<EventOrder>>, at: Seq<usize>) -> Seq<Seq<EventOrder>> {
    Seq::new(streams.len(), |i: int| streams[i].skip(at[i] as int))
}

/// The list whose next position is the latest.
fn latest_head(streams: &Vec<Vec<EventOrder>>, at: &Vec<usize>) -> (res: Option<usize>)
    requires
        at.len() == streams.len(),
        forall|i: int| 0 <= i < streams.len() ==> #[trigger] at@[i] <= streams@[i]@.len(),
    ensures
        match res {
            Some(j) => {
                &&& j < streams.len()
                &&& at@[j as int] < streams@[j as int]@.len()
                &&& forall|i: int|
                    0 <= i < streams.len() && #[trigger] at@[i] < streams@[i]@.len() ==> streams@[i]@[
                        at@[i] as int
                    ].le(streams@[j as int]@[at@[j as int] as int])
            },
            None => forall|i: int|
                0 <= i < streams.len() ==> #[trigger] at@[i] == streams@[i]@.len(),
        },
{
    let mut best: Option<usize> = None;
    let mut i: usize = 0;
    while i < streams.len()
        invariant
            i <= streams.len(),
            at.len() == streams.len(),
            forall|k: int| 0 <= k < streams.len() ==> #[trigger] at@[k] <= streams@[k]@.len(),
            match best {
                Some(j) => {
                    &&& j < i
                    &&& at@[j as int] < streams@[j as int]@.len()
                    &&& forall|k: int|
                        0 <= k < i && #[trigger] at@[k] < streams@[k]@.len() ==> streams@[k]@[
                            at@[k] as int
                        ].le(streams@[j as int]@[at@[j as int] as int])
                },
                None => forall|k: int| 0 <= k < i ==> #[trigger] at@[k] == streams@[k]@.len(),
            },
        decreases streams.len() - i,
    {
        if at[i] < streams[i].len() {
            match best {
                Some(j) => {
                    if streams[j][at[j]].before(&streams[i][at[i]]) {
                        best = Some(i);
                    }
                },
                None => {
                    best = Some(i);
                },
            }
        }
        i = i + 1;
    }
    best
}

/// What was read of the merge so far, and what is left.
spec fn merging(
    streams: Seq<Seq<EventOrder>>,
    at: Seq<usize>,
    taken: Seq<EventOrder>,
) -> bool {
    &&& latest_first(taken)
    &&& taken.to_multiset().add(all_of(rest_of(streams, at))) == all_of(streams)
    &&& taken.len() > 0 ==> forall|i: int, p: int|
        #![trigger streams[i][p]]
        0 <= i < streams.len() && at[i] <= p < streams[i].len() ==> streams[i][p].le(taken.last())
}

/// The merge goes on with what is left.
proof fn lemma_merge_goes_on(
    streams: Seq<Seq<EventOrder>>,
    at: Seq<usize>,
    taken: Seq<EventOrder>,
) -> (keys: Seq<EventOrder>)
    requires
        at.len() == streams.len(),
        forall|i: int| 0 <= i < streams.len() ==> #[trigger] at[i] <= streams[i].len(),
        merging(streams, at, taken),
    ensures
        is_merge(streams, keys),
        taken.len() <= keys.len(),
        keys.take(taken.len() as int) == taken,
        (forall|i: int| 0 <= i < streams.len() ==> #[trigger] at[i] == streams[i].len())
            ==> keys == taken,
{
    broadcast use vstd::seq_lib::group_to_multiset_ensures;

    let rest = rest_of(streams, at);
    let tail = lemma_merge_exists(rest);
    let keys = taken + tail;
    vstd::seq_lib::lemma_multiset_commutative(taken, tail);
    assert forall|i: int, j: int| 0 <= i < j < keys.len() implies (#[trigger] keys[j]).le(
        #[trigger] keys[i],
    ) by {
        if j >= taken.len() {
            let o = tail[j - taken.len()];
            if i >= taken.len() {
                assert(o.le(tail[i - taken.len()]));
            } else {
                assert(tail.contains(o));
                assert(tail.to_multiset().count(o) > 0);
                lemma_all_of_contains(rest, o);
                let s = choose|s: int| 0 <= s < rest.len() && (#[trigger] rest[s]).contains(o);
                let p = choose|p: int| 0 <= p < rest[s].len() && rest[s][p] == o;
                assert(streams[s][at[s] + p] == o);
                assert(o.le(taken.last()));
                assert(taken.last().le(taken[i])) by {
                    if i < taken.len() - 1 {
                        assert(taken[taken.len() - 1].le(taken[i]));
                    }
                }
            }
        }
    }
    assert(keys.take(taken.len() as int) =~= taken);
    if forall|i: int| 0 <= i < streams.len() ==> #[trigger] at[i] == streams[i].len() {
        if tail.len() > 0 {
            assert(tail.contains(tail[0]));
            assert(tail.to_multiset().count(tail[0]) > 0);
            lemma_all_of_contains(rest, tail[0]);
            let s = choose|s: int| 0 <= s < rest.len() && (#[trigger] rest[s]).contains(tail[0]);
            assert(at[s] == streams[s].len());
            assert(rest[s].len() == 0);
        }
        assert(keys =~= taken);
    }
    keys
}

/// One more position is taken from the list that has the latest.
proof fn lemma_merge_step(
    streams: Seq<Seq<EventOrder>>,
    at: Seq<usize>,
    taken: Seq<EventOrder>,
    j: int,
)
    requires
        at.len() == streams.len(),
        forall|i: int| 0 <= i < streams.len() ==> #[trigger] at[i] <= streams[i].len(),
        forall|i: int| 0 <= i < streams.len() ==> latest_first(#[trigger] streams[i]),
        merging(streams, at, taken),
        0 <= j < streams.len(),
        at[j] < streams[j].len(),
        streams[j].len() <= usize::MAX,
        forall|i: int|
            0 <= i < streams.len() && #[trigger] at[i] < streams[i].len()
                ==> streams[i][at[i] as int].le(streams[j][at[j] as int]),
    ensures
        merging(
            streams,
            at.update(j, (at[j] + 1) as usize),
            taken.push(streams[j][at[j] as int]),
        ),
        all_of(streams).count(streams[j][at[j] as int]) > 0,
{
    broadcast use vstd::seq_lib::group_to_multiset_ensures;

    let o = streams[j][at[j] as int];
    let at1 = at.update(j, (at[j] + 1) as usize);
    let rest = rest_of(streams, at);
    let rest1 = rest_of(streams, at1);
    assert(rest[j][0] == o);
    lemma_all_of_without(rest, j);
    assert(rest[j].drop_first() =~= streams[j].skip(at[j] + 1));
    assert(rest1 =~= rest.update(j, rest[j].drop_first()));
    let taken1 = taken.push(o);
    assert(taken1.to_multiset() =~= taken.to_multiset().insert(o));
    assert(taken1.to_multiset().add(all_of(rest1)) =~= all_of(streams));
    assert forall|a: int, b: int| 0 <= a < b < taken1.len() implies (#[trigger] taken1[b]).le(
        #[trigger] taken1[a],
    ) by {
        if b == taken.len() {
            assert(streams[j][at[j] as int].le(taken.last()));
            if a < taken.len() - 1 {
                assert(taken[taken.len() - 1].le(taken[a]));
            }
        }
    }
    assert forall|i: int, p: int|
        #![trigger streams[i][p]]
        0 <= i < streams.len() && at1[i] <= p < streams[i].len() implies streams[i][p].le(
        taken1.last(),
    ) by {
        assert(at[i] < streams[i].len());
        if p > at[i] {
            assert(latest_first(streams[i]));
            assert(streams[i][p].le(streams[i][at[i] as int]));
        }
    }
    lemma_all_of_has(streams, j, o);
}

/// Records read in the order of a merge until there are enough of them.
pub open spec fn is_merged_page<R, F: Fn(Timestamp, ShortEventId) -> DbResult<Option<R>>>(
    load: F,
    streams: Seq<Seq<EventOrder>>,
    limit: nat,
    records: Seq<R>,
) -> bool {
    exists|keys: Seq<EventOrder>, outs: Seq<Option<R>>|
        {
            &&& #[trigger] is_merge(streams, keys)
            &&& #[trigger] read_until_full(keys, outs, limit)
            &&& records == records_of(outs)
            &&& forall|i: int|
                0 <= i < outs.len() ==> call_ensures(
                    load,
                    (keys[i].timestamp, keys[i].event_id),
                    Ok(#[trigger] outs[i]),
                )
        }
}

/// A position of the lists could not be read.
pub open spec fn position_failed<R, F: Fn(Timestamp, ShortEventId) -> DbResult<Option<R>>>(
    load: F,
    streams: Seq<Seq<EventOrder>>,
    e: DbError,
) -> bool {
    exists|o: EventOrder| #[trigger]
        all_of(streams).count(o) > 0 && call_ensures(load, (o.timestamp, o.event_id), Err(e))
}

/// Reads records in the order of the merged lists until there are `limit` of
/// them; positions that read as nothing are passed over. No position is read
/// beyond those that it takes.
pub fn paginate_social_post_index_rev<R, F: Fn(Timestamp, ShortEventId) -> DbResult<Option<R>>>(
    streams: &Vec<Vec<EventOrder>>,
    limit: usize,
    load: F,
) -> (res: DbResult<Vec<R>>)
    requires
        forall|i: int| 0 <= i < streams.len() ==> latest_first((#[trigger] streams@[i])@),
        forall|ts: Timestamp, id: ShortEventId| call_requires(load, (ts, id)),
    ensures
        match res {
            Ok(records) => is_merged_page(load, lists_of(streams@), limit as nat, records@),
            Err(e) => position_failed(load, lists_of(streams@), e),
        },
{
    let ghost lists = lists_of(streams@);
    let mut at: Vec<usize> = Vec::new();
    while at.len() < streams.len()
        invariant
            at.len() <= streams.len(),
            forall|i: int| 0 <= i < at.len() ==> #[trigger] at@[i] == 0,
        decreases streams.len() - at.len(),
    {
        at.push(0);
    }
    let ghost mut taken: Seq<EventOrder> = Seq::empty();
    let ghost mut outs: Seq<Option<R>> = Seq::empty();
    let mut records: Vec<R> = Vec::new();
    proof {
        broadcast use vstd::seq_lib::group_to_multiset_ensures;

        assert(records@ =~= records_of(outs));
        assert(rest_of(lists, at@) =~= lists) by {
            assert forall|i: int| 0 <= i < lists.len() implies rest_of(lists, at@)[i]
                == #[trigger] lists[i] by {
                assert(at@[i] == 0);
                assert(lists[i].skip(0) =~= lists[i]);
            }
        }
        assert(taken.to_multiset().add(all_of(lists)) =~= all_of(lists));
    }
    while records.len() < limit
        invariant
            forall|ts: Timestamp, id: ShortEventId| call_requires(load, (ts, id)),
            lists == lists_of(streams@),
            forall|i: int| 0 <= i < lists.len() ==> latest_first(#[trigger] lists[i]),
            at.len() == streams.len(),
            forall|i: int| 0 <= i < streams.len() ==> #[trigger] at@[i] <= streams@[i]@.len(),
            merging(lists, at@, taken),
            outs.len() == taken.len(),
            records@ == records_of(outs),
            forall|i: int|
                0 <= i < outs.len() ==> records_of(#[trigger] outs.take(i)).len() < limit,
            forall|i: int|
                0 <= i < outs.len() ==> call_ensures(
                    load,
                    (taken[i].timestamp, taken[i].event_id),
                    Ok(#[trigger] outs[i]),
                ),
        ensures
            records.len() >= limit || forall|i: int|
                0 <= i < streams.len() ==> #[trigger] at@[i] == streams@[i]@.len(),
        decreases all_of(rest_of(lists, at@)).len(),
    {
        let j: usize = match latest_head(streams, &at) {
            Some(j) => j,
            None => {
                break;
            },
        };
        let o = streams[j][at[j]];
        let ghost before = outs;
        proof {
            assert forall|i: int| 0 <= i < lists.len() implies #[trigger] at@[i]
                <= lists[i].len() by {
                assert(lists[i] == streams@[i]@);
            }
            assert(lists[j as int] == streams@[j as int]@);
            assert forall|i: int|
                0 <= i < lists.len() && #[trigger] at@[i] < lists[i].len() implies lists[i][
                at@[i] as int
            ].le(lists[j as int][at@[j as int] as int]) by {
                assert(lists[i] == streams@[i]@);
            }
            assert(streams@[j as int].len() <= usize::MAX);
            lemma_merge_step(lists, at@, taken, j as int);
            let rest = rest_of(lists, at@);
            lemma_all_of_without(rest, j as int);
            let at1 = at@.update(j as int, (at@[j as int] + 1) as usize);
            assert(rest[j as int].drop_first() =~= lists[j as int].skip(at@[j as int] + 1));
            assert(rest_of(lists, at1) =~= rest.update(
                j as int,
                rest[j as int].drop_first(),
            ));
        }
        let out = load(o.timestamp, o.event_id);
        assert(call_ensures(load, (o.timestamp, o.event_id), out));
        let out = out?;
        let ghost read = out;
        proof {
            taken = taken.push(o);
            outs = outs.push(read);
            assert(outs.drop_last() =~= before);
            assert forall|i: int| 0 <= i < outs.len() implies records_of(
                #[trigger] outs.take(i),
            ).len() < limit by {
                assert(outs.take(i) =~= before.take(i));
                if i == before.len() {
                    assert(before.take(i) =~= before);
                }
            }
        }
        let next: usize = at[j] + 1;
        at.set(j, next);
        if let Some(record) = out {
            records.push(record);
        }
    }
    proof {
        assert forall|i: int| 0 <= i < lists.len() implies #[trigger] at@[i] <= lists[i].len() by {
            assert(lists[i] == streams@[i]@);
        }
        let keys = lemma_merge_goes_on(lists, at@, taken);
        assert forall|i: int| 0 <= i < outs.len() implies keys[i] == taken[i] by {
            assert(keys.take(taken.len() as int)[i] == keys[i]);
        }
        if records.len() < limit {
            assert forall|i: int| 0 <= i < lists.len() implies #[trigger] at@[i]
                == lists[i].len() by {
                assert(lists[i] == streams@[i]@);
            }
        }
        assert(read_until_full(keys, outs, limit as nat));
        assert(is_merge(lists, keys));
    }
    Ok(records)
}

}
