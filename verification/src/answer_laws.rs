//! Pages of answers in a row.

use vstd::prelude::*;

use crate::ids::{EventOrder, ShortEventId, Timestamp};
use crate::listing::{key_lt, lemma_sorted, sorted};
use crate::merging::{all_of, is_merge, law_merge_unique};
use crate::paging::{law_page_bounded, read_until_full, records_of};
use crate::payload::SocialPost;
use crate::social::{post_read, reads_as, EventPaginationCursor, SocialPostRecord};
use crate::tables::DbState;
use crate::timeline::{
    all_versions, answer_lists, answer_set, answers_finite, answers_page, is_answer_page,
};

verus! {

/// A reader makes one thing of a payload.
pub open spec fn reads_one_way<C, F: Fn(&Vec<u8>) -> Option<C>>(read: F) -> bool {
    forall|bytes: Option<Seq<u8>>, a: Option<C>, b: Option<C>| #[trigger]
        reads_as(read, bytes, a) && #[trigger] reads_as(read, bytes, b) ==> a == b
}

/// No event answers two of the posts.
pub open spec fn answers_apart<M>(
    m: Map<(ShortEventId, Timestamp, ShortEventId), M>,
    versions: Seq<ShortEventId>,
) -> bool {
    forall|i: int, j: int, o: EventOrder|
        0 <= i < j < versions.len() && #[trigger] answer_set(m, versions[i], None).contains(o)
            ==> !(#[trigger] answer_set(m, versions[j], None).contains(o))
}

/// Two pages of answers in a row are one longer page: no answer is repeated
/// and none is left out, also among those of one time. A page that is not
/// full has nothing behind it, and one that may hold nothing holds nothing.
///
/// Where an event answers two versions of the post, which no payload brings
/// about, the second page would leave out its second mention.
pub proof fn law_answer_pages_join<M, F: Fn(&Vec<u8>) -> Option<SocialPost>>(
    db: DbState,
    m: Map<(ShortEventId, Timestamp, ShortEventId), M>,
    read_post: F,
    id: ShortEventId,
    cursor: Option<EventPaginationCursor>,
    n: nat,
    first: Seq<SocialPostRecord<SocialPost>>,
    middle: Option<EventPaginationCursor>,
    n2: nat,
    second: Seq<SocialPostRecord<SocialPost>>,
    end: Option<EventPaginationCursor>,
    whole: Seq<SocialPostRecord<SocialPost>>,
    whole_end: Option<EventPaginationCursor>,
)
    requires
        reads_one_way(read_post),
        all_versions(db, id) matches Ok(versions) ==> answers_apart(m, versions),
        answers_page(db, m, read_post, id, cursor, n, first, middle),
        middle is Some,
        answers_page(db, m, read_post, id, middle, n2, second, end),
        answers_page(db, m, read_post, id, cursor, n + n2, whole, whole_end),
    ensures
        first + second == whole,
        whole_end == (if second.len() > 0 {
            end
        } else {
            middle
        }),
        first.len() <= n,
        second.len() <= n2,
        first.len() < n ==> second.len() == 0 && end is None,
        n2 == 0 ==> second.len() == 0 && end is None,
{
    let versions = all_versions(db, id)->Ok_0;
    let lists = answer_lists(m, versions, cursor);
    let (keys, outs) = lemma_page(db, read_post, lists, n, first);
    let (keys2, outs2) = lemma_page(db, read_post, answer_lists(m, versions, middle), n2, second);
    let (keys3, outs3) = lemma_page(db, read_post, lists, n + n2, whole);
    law_merge_unique(lists, keys, keys3);
    law_page_bounded(keys, outs, n);
    law_page_bounded(keys2, outs2, n2);
    let at = lemma_last_record(outs);
    lemma_read_at(db, read_post, keys, outs);
    assert(middle == Some(
        EventPaginationCursor { ts: keys[at].timestamp, event_id: keys[at].event_id },
    ));
    lemma_keys_after(m, versions, cursor, keys, at, keys2);
    assert forall|i: int| 0 <= i < outs2.len() && at + 1 + i < outs.len() implies outs2[i]
        == outs[at + 1 + i] by {
        lemma_one_reading(db, read_post, keys2[i], outs2[i], outs[at + 1 + i]);
    }
    assert forall|i: int| 0 <= i < outs3.len() && i < outs.len() implies outs3[i] == outs[i] by {
        lemma_one_reading(db, read_post, keys[i], outs3[i], outs[i]);
    }
    assert forall|i: int| 0 <= i < outs3.len() && 0 <= i - at - 1 < outs2.len() implies outs3[i]
        == outs2[i - at - 1] by {
        lemma_one_reading(db, read_post, keys[i], outs3[i], outs2[i - at - 1]);
    }
    if first.len() < n {
        assert(outs.len() == keys.len());
        lemma_no_records(outs2);
    }
    let head = outs.take(at + 1);
    let joined = head + outs2;
    assert(records_of(head) == first);
    lemma_records_concat(head, outs2);
    if n2 == 0 {
        lemma_one_page(keys, outs, outs3, n);
        assert(second =~= Seq::empty());
        assert(first + second =~= first);
    } else {
        assert forall|i: int| 0 <= i < joined.len() implies records_of(
            #[trigger] joined.take(i),
        ).len() < n + n2 by {
            if i <= at {
                assert(joined.take(i) =~= outs.take(i));
            } else {
                assert(joined.take(i) =~= head + outs2.take(i - at - 1));
                lemma_records_concat(head, outs2.take(i - at - 1));
                assert(records_of(outs2.take(i - at - 1)).len() < n2);
            }
        }
        assert(read_until_full(keys, joined, n + n2));
        assert forall|i: int| 0 <= i < joined.len() && i < outs3.len() implies joined[i]
            == outs3[i] by {}
        lemma_one_page(keys, joined, outs3, n + n2);
    }
    if second.len() > 0 {
        assert(whole.last() == second.last());
    } else {
        assert(whole =~= first);
    }
}

proof fn lemma_page<F: Fn(&Vec<u8>) -> Option<SocialPost>>(
    db: DbState,
    read_post: F,
    lists: Seq<Seq<EventOrder>>,
    limit: nat,
    records: Seq<SocialPostRecord<SocialPost>>,
) -> (res: (Seq<EventOrder>, Seq<Option<SocialPostRecord<SocialPost>>>))
    requires
        is_answer_page(db, read_post, lists, limit, records),
    ensures
        is_merge(lists, res.0),
        read_until_full(res.0, res.1, limit),
        records == records_of(res.1),
        readings(db, read_post, res.0, res.1),
{
    choose|keys: Seq<EventOrder>, outs: Seq<Option<SocialPostRecord<SocialPost>>>|
        {
            &&& #[trigger] is_merge(lists, keys)
            &&& #[trigger] read_until_full(keys, outs, limit)
            &&& records == records_of(outs)
            &&& forall|i: int|
                0 <= i < outs.len() ==> post_read(
                    db,
                    read_post,
                    keys[i].event_id,
                    keys[i].timestamp,
                    Ok(#[trigger] outs[i]),
                )
        }
}

/// The posts at these places read as `outs`.
spec fn readings<F: Fn(&Vec<u8>) -> Option<SocialPost>>(
    db: DbState,
    read_post: F,
    keys: Seq<EventOrder>,
    outs: Seq<Option<SocialPostRecord<SocialPost>>>,
) -> bool {
    forall|i: int|
        0 <= i < outs.len() ==> post_read(
            db,
            read_post,
            keys[i].event_id,
            keys[i].timestamp,
            Ok(#[trigger] outs[i]),
        )
}

/// A record stands at the place that it was read at.
proof fn lemma_read_at<F: Fn(&Vec<u8>) -> Option<SocialPost>>(
    db: DbState,
    read_post: F,
    keys: Seq<EventOrder>,
    outs: Seq<Option<SocialPostRecord<SocialPost>>>,
)
    requires
        readings(db, read_post, keys, outs),
    ensures
        forall|i: int|
            0 <= i < outs.len() ==> ((#[trigger] outs[i]) matches Some(r) ==> r.ts
                == keys[i].timestamp && r.event_id == keys[i].event_id),
{
    assert forall|i: int| 0 <= i < outs.len() implies ((#[trigger] outs[i]) matches Some(r)
        ==> r.ts == keys[i].timestamp && r.event_id == keys[i].event_id) by {
        assert(post_read(db, read_post, keys[i].event_id, keys[i].timestamp, Ok(outs[i])));
    }
}

proof fn lemma_one_reading<F: Fn(&Vec<u8>) -> Option<SocialPost>>(
    db: DbState,
    read_post: F,
    key: EventOrder,
    a: Option<SocialPostRecord<SocialPost>>,
    b: Option<SocialPostRecord<SocialPost>>,
)
    requires
        reads_one_way(read_post),
        post_read(db, read_post, key.event_id, key.timestamp, Ok(a)),
        post_read(db, read_post, key.event_id, key.timestamp, Ok(b)),
    ensures
        a == b,
{
}

/// Where the last record was read.
proof fn lemma_last_record<R>(outs: Seq<Option<R>>) -> (at: int)
    requires
        records_of(outs).len() > 0,
    ensures
        0 <= at < outs.len(),
        outs[at] is Some,
        records_of(outs).last() == outs[at]->0,
        forall|i: int| at < i < outs.len() ==> (#[trigger] outs[i]) is None,
        records_of(outs.take(at + 1)) == records_of(outs),
    decreases outs.len(),
{
    let n = outs.len() - 1;
    if outs[n] is Some {
        assert(outs.take(n + 1) =~= outs);
        n
    } else {
        let at = lemma_last_record(outs.drop_last());
        assert(outs.drop_last().take(at + 1) =~= outs.take(at + 1));
        assert forall|i: int| at < i < outs.len() implies (#[trigger] outs[i]) is None by {
            if i < n {
                assert(outs.drop_last()[i] is None);
            }
        }
        at
    }
}

proof fn lemma_no_records<R>(outs: Seq<Option<R>>)
    requires
        forall|i: int| 0 <= i < outs.len() ==> (#[trigger] outs[i]) is None,
    ensures
        records_of(outs) == Seq::<R>::empty(),
    decreases outs.len(),
{
    if outs.len() > 0 {
        assert forall|i: int| 0 <= i < outs.drop_last().len() implies (
        #[trigger] outs.drop_last()[i]) is None by {
            assert(outs[i] is None);
        }
        lemma_no_records(outs.drop_last());
    }
}

proof fn lemma_records_concat<R>(a: Seq<Option<R>>, b: Seq<Option<R>>)
    ensures
        records_of(a + b) == records_of(a) + records_of(b),
    decreases b.len(),
{
    if b.len() == 0 {
        assert(a + b =~= a);
        assert(records_of(a) + records_of(b) =~= records_of(a));
    } else {
        lemma_records_concat(a, b.drop_last());
        assert((a + b).drop_last() =~= a + b.drop_last());
        assert((a + b).last() == b.last());
        assert(records_of(a + b) =~= records_of(a) + records_of(b));
    }
}

/// Where rows read as the same, they make the same page.
proof fn lemma_one_page<K, R>(keys: Seq<K>, a: Seq<Option<R>>, b: Seq<Option<R>>, limit: nat)
    requires
        read_until_full(keys, a, limit),
        read_until_full(keys, b, limit),
        forall|i: int| 0 <= i < a.len() && i < b.len() ==> a[i] == b[i],
    ensures
        a == b,
{
    if a.len() < b.len() {
        assert(b.take(a.len() as int) =~= a);
    } else if b.len() < a.len() {
        assert(a.take(b.len() as int) =~= b);
    }
    assert(a =~= b);
}

/// How often a position is in the lists: once where a version has it.
proof fn lemma_counts<M>(
    m: Map<(ShortEventId, Timestamp, ShortEventId), M>,
    versions: Seq<ShortEventId>,
    cursor: Option<EventPaginationCursor>,
    o: EventOrder,
)
    requires
        answers_finite(m, versions),
        answers_apart(m, versions),
    ensures
        all_of(answer_lists(m, versions, cursor)).count(o) == (if exists|i: int|
            0 <= i < versions.len() && answer_set(m, #[trigger] versions[i], cursor).contains(o) {
            1nat
        } else {
            0nat
        }),
    decreases versions.len(),
{
    broadcast use vstd::seq_lib::group_to_multiset_ensures;

    let lists = answer_lists(m, versions, cursor);
    if versions.len() > 0 {
        let n = versions.len() - 1;
        let before = versions.drop_last();
        assert forall|i: int| 0 <= i < before.len() implies answer_set(
            m,
            #[trigger] before[i],
            None,
        ).finite() by {
            assert(answer_set(m, versions[i], None).finite());
        }
        assert forall|i: int, j: int, o: EventOrder|
            0 <= i < j < before.len() && #[trigger] answer_set(m, before[i], None).contains(
                o,
            ) implies !(#[trigger] answer_set(m, before[j], None).contains(o)) by {
            assert(answer_set(m, versions[i], None).contains(o));
        }
        lemma_counts(m, before, cursor, o);
        assert(lists.drop_last() =~= answer_lists(m, before, cursor));
        let set = answer_set(m, versions[n], cursor);
        let all = answer_set(m, versions[n], None);
        assert(all.finite());
        vstd::set_lib::lemma_set_subset_finite(all, set);
        lemma_sorted(set);
        let s = sorted(set);
        let r = s.reverse();
        assert(lists.last() == r);
        assert(r.no_duplicates()) by {
            assert forall|i: int, j: int| 0 <= i < r.len() && 0 <= j < r.len() && i
                != j implies r[i] != r[j] by {
                let (a, b) = (r.len() - 1 - i, r.len() - 1 - j);
                crate::listing::lemma_key_irreflexive(s[a]);
                if a < b {
                    assert(key_lt(s[a], s[b]));
                } else {
                    assert(key_lt(s[b], s[a]));
                }
            }
        }
        r.lemma_multiset_has_no_duplicates();
        assert(r.contains(o) <==> set.contains(o)) by {
            if r.contains(o) {
                let i = choose|i: int| 0 <= i < r.len() && r[i] == o;
                assert(s[r.len() - 1 - i] == o);
                assert(s.contains(o));
            }
            if set.contains(o) {
                assert(s.contains(o));
                let i = choose|i: int| 0 <= i < s.len() && s[i] == o;
                assert(r[s.len() - 1 - i] == o);
            }
        }
        assert(r.to_multiset().count(o) > 0 <==> set.contains(o));
        assert(r.to_multiset().count(o) <= 1);
        if set.contains(o) {
            assert(answer_set(m, versions[n], cursor).contains(o));
            assert(all.contains(o));
            assert forall|i: int| 0 <= i < before.len() implies !answer_set(
                m,
                #[trigger] before[i],
                cursor,
            ).contains(o) by {
                if answer_set(m, before[i], cursor).contains(o) {
                    assert(answer_set(m, versions[i], None).contains(o));
                    assert(answer_set(m, versions[n], None).contains(o));
                }
            }
        } else if exists|i: int|
            0 <= i < versions.len() && answer_set(m, #[trigger] versions[i], cursor).contains(o) {
            let i = choose|i: int|
                0 <= i < versions.len() && answer_set(m, #[trigger] versions[i], cursor).contains(
                    o,
                );
            assert(answer_set(m, before[i], cursor).contains(o));
        } else {
            assert forall|i: int| 0 <= i < before.len() implies !answer_set(
                m,
                #[trigger] before[i],
                cursor,
            ).contains(o) by {
                assert(before[i] == versions[i]);
            }
        }
    }
}

/// What comes behind a place of the merged answers are those behind it.
proof fn lemma_keys_after<M>(
    m: Map<(ShortEventId, Timestamp, ShortEventId), M>,
    versions: Seq<ShortEventId>,
    cursor: Option<EventPaginationCursor>,
    keys: Seq<EventOrder>,
    at: int,
    rest: Seq<EventOrder>,
)
    requires
        answers_finite(m, versions),
        answers_apart(m, versions),
        is_merge(answer_lists(m, versions, cursor), keys),
        0 <= at < keys.len(),
        is_merge(
            answer_lists(
                m,
                versions,
                Some(EventPaginationCursor { ts: keys[at].timestamp, event_id: keys[at].event_id }),
            ),
            rest,
        ),
    ensures
        rest == keys.skip(at + 1),
{
    broadcast use vstd::seq_lib::group_to_multiset_ensures;

    let place = keys[at];
    let middle = Some(EventPaginationCursor { ts: place.timestamp, event_id: place.event_id });
    let lists = answer_lists(m, versions, cursor);
    let lists2 = answer_lists(m, versions, middle);
    let tail = keys.skip(at + 1);
    let start = keys.take(at + 1);
    assert(start + tail =~= keys);
    vstd::seq_lib::lemma_multiset_commutative(start, tail);
    lemma_counts(m, versions, cursor, place);
    assert(keys.contains(place));
    let p = choose|p: int|
        0 <= p < versions.len() && answer_set(m, #[trigger] versions[p], cursor).contains(place);
    assert forall|o: EventOrder| tail.to_multiset().count(o) == all_of(lists2).count(o) by {
        lemma_counts(m, versions, cursor, o);
        lemma_counts(m, versions, middle, o);
        assert(keys.to_multiset().count(o) == start.to_multiset().count(o)
            + tail.to_multiset().count(o));
        if o.lt(place) {
            // Nothing up to the place stands behind it.
            if start.contains(o) {
                let i = choose|i: int| 0 <= i < start.len() && start[i] == o;
                assert(start[i] == keys[i]);
                if i < at {
                    assert(keys[at].le(keys[i]));
                }
            }
            assert(start.to_multiset().count(o) == 0);
            if exists|i: int|
                0 <= i < versions.len() && answer_set(m, #[trigger] versions[i], cursor).contains(
                    o,
                ) {
                let i = choose|i: int|
                    0 <= i < versions.len() && answer_set(
                        m,
                        #[trigger] versions[i],
                        cursor,
                    ).contains(o);
                assert(answer_set(m, versions[i], middle).contains(o));
            }
            if exists|i: int|
                0 <= i < versions.len() && answer_set(m, #[trigger] versions[i], middle).contains(
                    o,
                ) {
                let i = choose|i: int|
                    0 <= i < versions.len() && answer_set(
                        m,
                        #[trigger] versions[i],
                        middle,
                    ).contains(o);
                assert(answer_set(m, versions[i], cursor).contains(o));
            }
        } else {
            assert forall|i: int| 0 <= i < versions.len() implies !answer_set(
                m,
                #[trigger] versions[i],
                middle,
            ).contains(o) by {}
            if tail.contains(o) {
                let i = choose|i: int| 0 <= i < tail.len() && tail[i] == o;
                assert(tail[i] == keys[at + 1 + i]);
                assert(keys[at + 1 + i].le(keys[at]));
                assert(o == place);
                assert(start[at] == place);
                assert(start.contains(place));
                assert(start.to_multiset().count(place) > 0);
                assert(tail.to_multiset().count(place) > 0);
            }
            assert(tail.to_multiset().count(o) == 0);
        }
    }
    assert(tail.to_multiset() =~= all_of(lists2));
    assert forall|i: int, j: int| 0 <= i < j < tail.len() implies (#[trigger] tail[j]).le(
        #[trigger] tail[i],
    ) by {
        assert(keys[at + 1 + j].le(keys[at + 1 + i]));
    }
    law_merge_unique(lists2, rest, tail);
}

}
