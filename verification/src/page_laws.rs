//! What a page of posts holds, and where the next one starts.

use vstd::prelude::*;

use crate::error::DbError;
use crate::event::EventContentState;
use crate::event_laws::payload_state;
use crate::graph::{content_result, EventContentResult};
use crate::ids::{EventOrder, ShortEventId, Timestamp};
use crate::lineage::{edits_from, next_version};
use crate::listing::{
    ascending, between, is_first_of, key_le, key_lt, lemma_key_asymmetric, lemma_key_irreflexive,
    lemma_sorted, sorted,
};
use crate::merging::{is_merge, latest_first, lemma_all_of_contains, lemma_all_of_has};
use crate::paging::{law_page_bounded, read_until_full, records_of};
use crate::payload::SocialPost;
use crate::post_laws::{lemma_edits_finite, lemma_versions_known, speaks, versions_back};
use crate::retention_laws::lemma_no_first;
use crate::social::{
    availability_of, latest_version, payload_of, post_read, post_shown_alone, post_state, reads_as,
    record_of, shown_post, EventContentAvailability, EventPaginationCursor,
    ReceivedAtPaginationCursor, ShoutboxPostRecord, SocialPostRecord, SocialPostState,
};
use crate::tables::DbState;
use crate::timeline::{
    answer_lists, answer_set, answers_page, keys_by_reception, keys_by_time,
    last_place, lemma_place_bounds, post_shown, reception_page, received_after, requested_read,
    requests_answered, shout_page, time_page,
};

verus! {

/// The row at `i` reads as the record at `j`: it is that record, and there are
/// as many before it.
pub open spec fn record_of_row<R>(outs: Seq<Option<R>>, i: int, j: int) -> bool {
    &&& outs[i] == Some(records_of(outs)[j])
    &&& records_of(outs.take(i)).len() == j
}

/// Some row reads as the record at `j`.
pub open spec fn has_row<R>(outs: Seq<Option<R>>, j: int) -> bool {
    exists|i: int| 0 <= i < outs.len() && #[trigger] record_of_row(outs, i, j)
}

/// A page holds what its rows read as, in their order, and nothing of the rows
/// that read as nothing: the place of each record is the number of records
/// before it.
pub proof fn law_records_in_order<R>(outs: Seq<Option<R>>)
    ensures
        forall|i: int|
            0 <= i < outs.len() && outs[i] is Some ==> records_of(#[trigger] outs.take(i)).len()
                < records_of(outs).len() && record_of_row(
                outs,
                i,
                records_of(outs.take(i)).len() as int,
            ),
        forall|j: int| 0 <= j < records_of(outs).len() ==> #[trigger] has_row(outs, j),
    decreases outs.len(),
{
    if outs.len() > 0 {
        let earlier = outs.drop_last();
        law_records_in_order(earlier);
        let all = records_of(outs);
        let found = records_of(earlier);
        assert forall|i: int| 0 <= i < outs.len() && outs[i] is Some implies records_of(
            #[trigger] outs.take(i),
        ).len() < all.len() && record_of_row(outs, i, records_of(outs.take(i)).len() as int) by {
            if i < earlier.len() {
                assert(outs.take(i) =~= earlier.take(i));
                assert(outs[i] == earlier[i]);
            } else {
                assert(outs.take(i) =~= earlier);
            }
        }
        assert forall|j: int| 0 <= j < all.len() implies #[trigger] has_row(outs, j) by {
            if j < found.len() {
                assert(has_row(earlier, j));
                let i = choose|i: int|
                    0 <= i < earlier.len() && #[trigger] record_of_row(earlier, i, j);
                assert(outs.take(i) =~= earlier.take(i));
                assert(record_of_row(outs, i, j));
            } else {
                let i = outs.len() - 1;
                assert(outs.take(i) =~= earlier);
                assert(record_of_row(outs, i, j));
            }
        }
    }
}

/// A listed post is seen just where its event is stored, nothing replaced it,
/// its payload was processed and is stored, that reads as a post, and the filter
/// takes it. It is seen with its own author, body and target, and the time under
/// which it is listed.
pub proof fn law_listed_post_seen<
    F: Fn(&Vec<u8>) -> Option<SocialPost>,
    Q: Fn(&SocialPostRecord<SocialPost>) -> bool,
>(
    db: DbState,
    read_post: F,
    filter: Q,
    id: ShortEventId,
    ts: Timestamp,
    out: Option<SocialPostRecord<SocialPost>>,
)
    requires
        db.social_posts_replaced_by.dom().finite(),
        post_shown(db, read_post, filter, id, ts, Ok(out)),
    ensures
        ({
            let event = db.events[id].event;
            let hash = event.content_hash;
            let replaced = exists|newer: ShortEventId| #[trigger]
                db.social_posts_replaced_by.contains_key((event.author, id, newer));
            let there = db.events.contains_key(id) && !db.events_content_state.contains_key(id)
                && db.content_store.contains_key(hash);
            match out {
                Some(record) => {
                    &&& there
                    &&& !replaced
                    &&& record.event_id == id
                    &&& record.ts == ts
                    &&& record.author == event.author
                    &&& record.reply_to == record.content.reply_to
                    &&& exists|b: Vec<u8>|
                        b@ == db.content_store[hash] && #[trigger] call_ensures(
                            read_post,
                            (&b,),
                            Some(record.content),
                        )
                    &&& call_ensures(filter, (&record,), true)
                },
                None => {
                    ||| !there
                    ||| replaced
                    ||| exists|b: Vec<u8>|
                        b@ == db.content_store[hash] && #[trigger] call_ensures(
                            read_post,
                            (&b,),
                            None::<SocialPost>,
                        )
                    ||| exists|record: SocialPostRecord<SocialPost>|
                        record.event_id == id && #[trigger] call_ensures(
                            filter,
                            (&record,),
                            false,
                        )
                },
            }
        }),
{
    let event = db.events[id].event;
    let m = db.social_posts_replaced_by;
    let set = edits_from(m, event.author, id);
    lemma_edits_finite(m, event.author, id);
    if next_version(m, event.author, id) is None {
        lemma_no_first(set);
        assert forall|newer: ShortEventId|
            !#[trigger] m.contains_key((event.author, id, newer)) by {
            assert(!set.contains(newer));
        }
    } else {
        let newer = choose|x: ShortEventId| is_first_of(set, x);
        assert(exists|x: ShortEventId| is_first_of(set, x));
        assert(set.contains(newer));
        assert(m.contains_key((event.author, id, newer)));
    }
    if db.events.contains_key(id) && next_version(m, event.author, id) is None {
        let read = choose|read: Result<Option<SocialPostRecord<SocialPost>>, DbError>|
            {
                &&& #[trigger] post_read(db, read_post, id, ts, read)
                &&& match read {
                    Ok(Some(record)) => exists|keep: bool|
                        #[trigger] call_ensures(filter, (&record,), keep) && Ok::<_, DbError>(out)
                            == (if keep {
                            read
                        } else {
                            Ok(None)
                        }),
                    _ => Ok::<_, DbError>(out) == read,
                }
            };
        assert(post_read(db, read_post, id, ts, read));
        let post = choose|post: Option<SocialPost>|
            reads_as(read_post, payload_of(db, id), post) && read == #[trigger] record_of(
                db,
                id,
                ts,
                post,
            );
        assert(reads_as(read_post, payload_of(db, id), post));
        if payload_of(db, id) is Some {
            let b = choose|b: Vec<u8>|
                #![trigger b@]
                b@ == payload_of(db, id)->0 && call_ensures(read_post, (&b,), post);
            assert(call_ensures(read_post, (&b,), post));
        }
    }
}

/// The rows of a list between two places are all of those there, in order; one
/// that is not limited leaves none out.
pub proof fn law_rows_between(
    db: DbState,
    from: EventPaginationCursor,
    to: EventPaginationCursor,
    first: ReceivedAtPaginationCursor,
    last: ReceivedAtPaginationCursor,
)
    requires
        db.social_posts_by_time.dom().finite(),
        db.social_posts_by_received_at.dom().finite(),
    ensures
        ({
            let keys = keys_by_time(db, from, to);
            &&& ascending(keys)
            &&& forall|k: (Timestamp, ShortEventId)| #[trigger]
                keys.contains(k) <==> db.social_posts_by_time.contains_key(k) && key_le(
                    (from.ts, from.event_id),
                    k,
                ) && key_le(k, (to.ts, to.event_id))
        }),
        ({
            let keys = keys_by_reception(db.social_posts_by_received_at, first, last);
            &&& ascending(keys)
            &&& forall|k: (Timestamp, u64)| #[trigger]
                keys.contains(k) <==> db.social_posts_by_received_at.contains_key(k) && key_le(
                    (first.ts, first.seq),
                    k,
                ) && key_le(k, (last.ts, last.seq))
        }),
{
    let by_time = between(db.social_posts_by_time, from.key(), to.key());
    vstd::set_lib::lemma_set_subset_finite(db.social_posts_by_time.dom(), by_time);
    lemma_sorted(by_time);
    let received = between(db.social_posts_by_received_at, first.key(), last.key());
    vstd::set_lib::lemma_set_subset_finite(db.social_posts_by_received_at.dom(), received);
    lemma_sorted(received);
}

/// A page by time reads rows in the order given until it is full or none are
/// left, passes over those that are not seen, and names the first row that it
/// did not read as the start of the next page: none is read twice or left out.
pub proof fn law_time_page<
    F: Fn(&Vec<u8>) -> Option<SocialPost>,
    Q: Fn(&SocialPostRecord<SocialPost>) -> bool,
>(
    db: DbState,
    read_post: F,
    filter: Q,
    keys: Seq<(Timestamp, ShortEventId)>,
    limit: nat,
    records: Seq<SocialPostRecord<SocialPost>>,
    cursor: Option<EventPaginationCursor>,
)
    requires
        time_page(db, read_post, filter, keys, limit, records, cursor),
    ensures
        records.len() <= limit,
        exists|outs: Seq<Option<SocialPostRecord<SocialPost>>>|
            {
                let n = outs.len();
                &&& records == #[trigger] records_of(outs)
                &&& n <= keys.len()
                &&& forall|i: int|
                    0 <= i < n ==> post_shown(
                        db,
                        read_post,
                        filter,
                        keys[i].1,
                        keys[i].0,
                        Ok(#[trigger] outs[i]),
                    )
                &&& cursor is None ==> n == keys.len()
                &&& cursor matches Some(c) ==> n < keys.len() && c.ts == keys[n as int].0
                    && c.event_id == keys[n as int].1 && records.len() == limit
            },
{
    let n = choose|n: nat|
        #[trigger] crate::timeline::is_post_page(
            db,
            read_post,
            filter,
            keys,
            limit,
            records,
            n,
        ) && cursor == crate::timeline::time_cursor(crate::timeline::place_at(keys, n));
    assert(crate::timeline::is_post_page(db, read_post, filter, keys, limit, records, n));
    let outs = choose|outs: Seq<Option<SocialPostRecord<SocialPost>>>|
        {
            &&& outs.len() == n
            &&& #[trigger] read_until_full(keys, outs, limit)
            &&& records == records_of(outs)
            &&& forall|i: int|
                0 <= i < outs.len() ==> post_shown(
                    db,
                    read_post,
                    filter,
                    keys[i].1,
                    keys[i].0,
                    Ok(#[trigger] outs[i]),
                )
        };
    assert(read_until_full(keys, outs, limit));
    law_page_bounded(keys, outs, limit);
    assert(records == records_of(outs));
}

/// The same holds of a page by reception, whose posts are those that the rows
/// name, seen with the time of their reception.
pub proof fn law_reception_page<
    F: Fn(&Vec<u8>) -> Option<SocialPost>,
    Q: Fn(&SocialPostRecord<SocialPost>) -> bool,
>(
    db: DbState,
    read_post: F,
    filter: Q,
    keys: Seq<(Timestamp, u64)>,
    limit: nat,
    records: Seq<SocialPostRecord<SocialPost>>,
    cursor: Option<ReceivedAtPaginationCursor>,
)
    requires
        reception_page(db, read_post, filter, keys, limit, records, cursor),
    ensures
        records.len() <= limit,
        exists|outs: Seq<Option<SocialPostRecord<SocialPost>>>|
            {
                let n = outs.len();
                &&& records == #[trigger] records_of(outs)
                &&& n <= keys.len()
                &&& forall|i: int|
                    0 <= i < n ==> post_shown(
                        db,
                        read_post,
                        filter,
                        db.social_posts_by_received_at[keys[i]],
                        keys[i].0,
                        Ok(#[trigger] outs[i]),
                    )
                &&& cursor is None ==> n == keys.len()
                &&& cursor matches Some(c) ==> n < keys.len() && c.ts == keys[n as int].0 && c.seq
                    == keys[n as int].1 && records.len() == limit
            },
{
    let posts = crate::timeline::posts_received(db.social_posts_by_received_at, keys);
    let n = choose|n: nat|
        #[trigger] crate::timeline::is_post_page(
            db,
            read_post,
            filter,
            posts,
            limit,
            records,
            n,
        ) && cursor == crate::timeline::reception_cursor(crate::timeline::place_at(keys, n));
    assert(crate::timeline::is_post_page(db, read_post, filter, posts, limit, records, n));
    let outs = choose|outs: Seq<Option<SocialPostRecord<SocialPost>>>|
        {
            &&& outs.len() == n
            &&& #[trigger] read_until_full(posts, outs, limit)
            &&& records == records_of(outs)
            &&& forall|i: int|
                0 <= i < outs.len() ==> post_shown(
                    db,
                    read_post,
                    filter,
                    posts[i].1,
                    posts[i].0,
                    Ok(#[trigger] outs[i]),
                )
        };
    assert(read_until_full(posts, outs, limit));
    law_page_bounded(posts, outs, limit);
    assert(records == records_of(outs));
    assert forall|i: int| 0 <= i < outs.len() implies post_shown(
        db,
        read_post,
        filter,
        db.social_posts_by_received_at[keys[i]],
        keys[i].0,
        Ok(#[trigger] outs[i]),
    ) by {
        assert(posts[i] == (keys[i].0, db.social_posts_by_received_at[keys[i]]));
    }
}

/// The same holds of a page of shoutbox posts. One is seen just where its
/// payload was processed, is stored, and can be read, with the time of its
/// reception and its own author.
pub proof fn law_shout_page<C, F: Fn(&Vec<u8>) -> Option<C>>(
    db: DbState,
    read: F,
    keys: Seq<(Timestamp, u64)>,
    limit: nat,
    records: Seq<ShoutboxPostRecord<C>>,
    cursor: Option<ReceivedAtPaginationCursor>,
)
    requires
        shout_page(db, read, keys, limit, records, cursor),
    ensures
        records.len() <= limit,
        exists|outs: Seq<Option<ShoutboxPostRecord<C>>>|
            {
                let n = outs.len();
                &&& records == #[trigger] records_of(outs)
                &&& n <= keys.len()
                &&& forall|i: int|
                    0 <= i < n ==> shout_seen(
                        db,
                        read,
                        db.shoutbox_posts_by_received_at[keys[i]],
                        keys[i].0,
                        #[trigger] outs[i],
                    )
                &&& cursor is None ==> n == keys.len()
                &&& cursor matches Some(c) ==> n < keys.len() && c.ts == keys[n as int].0 && c.seq
                    == keys[n as int].1 && records.len() == limit
            },
{
    let outs = choose|outs: Seq<Option<ShoutboxPostRecord<C>>>|
        {
            &&& #[trigger] read_until_full(keys, outs, limit)
            &&& records == records_of(outs)
            &&& cursor == crate::timeline::reception_cursor(
                crate::paging::continuation(keys, outs),
            )
            &&& forall|i: int|
                0 <= i < outs.len() ==> crate::timeline::shout_shown(
                    db,
                    read,
                    db.shoutbox_posts_by_received_at[keys[i]],
                    keys[i].0,
                    #[trigger] outs[i],
                )
        };
    assert(read_until_full(keys, outs, limit));
    law_page_bounded(keys, outs, limit);
    assert(records == records_of(outs));
    assert forall|i: int| 0 <= i < outs.len() implies shout_seen(
        db,
        read,
        db.shoutbox_posts_by_received_at[keys[i]],
        keys[i].0,
        #[trigger] outs[i],
    ) by {
        let id = db.shoutbox_posts_by_received_at[keys[i]];
        assert(crate::timeline::shout_shown(db, read, id, keys[i].0, outs[i]));
        let content = match outs[i] {
            Some(record) => Some(record.content),
            None => None,
        };
        assert(reads_as(read, payload_of(db, id), content));
        if payload_of(db, id) is Some {
            let b = choose|b: Vec<u8>|
                #![trigger b@]
                b@ == payload_of(db, id)->0 && call_ensures(read, (&b,), content);
            assert(call_ensures(read, (&b,), content));
        }
    }
}

/// What a shoutbox post is seen as.
pub open spec fn shout_seen<C, F: Fn(&Vec<u8>) -> Option<C>>(
    db: DbState,
    read: F,
    id: ShortEventId,
    received_ts: Timestamp,
    out: Option<ShoutboxPostRecord<C>>,
) -> bool {
    let hash = db.events[id].event.content_hash;
    let there = db.events.contains_key(id) && !db.events_content_state.contains_key(id)
        && db.content_store.contains_key(hash);
    match out {
        Some(record) => {
            &&& there
            &&& record.event_id == id
            &&& record.received_ts == received_ts
            &&& record.author == db.events[id].event.author
            &&& exists|b: Vec<u8>|
                b@ == db.content_store[hash] && #[trigger] call_ensures(
                    read,
                    (&b,),
                    Some(record.content),
                )
        },
        None => !there || exists|b: Vec<u8>|
            b@ == db.content_store[hash] && #[trigger] call_ensures(read, (&b,), None::<C>),
    }
}

/// The place of what was received last is that of a row, and no row is behind
/// it; there is none only where there are no rows. What was received behind a
/// place are the rows behind it, and without a place all of them.
pub proof fn law_last_received(
    m: Map<(Timestamp, u64), ShortEventId>,
    c: ReceivedAtPaginationCursor,
    k: (Timestamp, u64),
)
    requires
        m.dom().finite(),
    ensures
        match last_place(
            keys_by_reception(
                m,
                ReceivedAtPaginationCursor::spec_zero(),
                ReceivedAtPaginationCursor::spec_max(),
            ),
        ) {
            Some(last) => {
                &&& m.contains_key((last.ts, last.seq))
                &&& forall|x: (Timestamp, u64)| #[trigger]
                    m.contains_key(x) ==> key_le(x, (last.ts, last.seq))
            },
            None => forall|x: (Timestamp, u64)| !#[trigger] m.contains_key(x),
        },
        received_after(m, Some(c)).contains(k) <==> m.contains_key(k) && key_lt((c.ts, c.seq), k),
        received_after(m, None).contains(k) <==> m.contains_key(k),
{
    let (lo, hi) = (
        ReceivedAtPaginationCursor::spec_zero(),
        ReceivedAtPaginationCursor::spec_max(),
    );
    let set = between(m, lo.key(), hi.key());
    vstd::set_lib::lemma_set_subset_finite(m.dom(), set);
    lemma_sorted(set);
    let keys = sorted(set);
    assert forall|x: (Timestamp, u64)| #[trigger] m.contains_key(x) implies keys.contains(x) by {
        lemma_place_bounds(x);
        assert(set.contains(x));
    }
    if keys.len() > 0 {
        assert(keys.contains(keys[keys.len() - 1]));
        assert forall|x: (Timestamp, u64)| #[trigger] m.contains_key(x) implies key_le(
            x,
            keys.last(),
        ) by {
            let p = choose|p: int| 0 <= p < keys.len() && keys[p] == x;
            lemma_key_irreflexive(x);
            if p < keys.len() - 1 {
                assert(key_lt(keys[p], keys[keys.len() - 1]));
                lemma_key_asymmetric(x, keys.last());
            }
        }
    }
}

/// A page of answers to a post holds the answers to it and to every post that
/// it replaced, the latest first, from before the place given: each answer is
/// one to one of them, and none of those up to the last that was read is left
/// out. The next page starts behind the last record.
pub proof fn law_answers_listed<M, F: Fn(&Vec<u8>) -> Option<SocialPost>>(
    db: DbState,
    m: Map<(ShortEventId, Timestamp, ShortEventId), M>,
    read_post: F,
    id: ShortEventId,
    cursor: Option<EventPaginationCursor>,
    limit: nat,
    records: Seq<SocialPostRecord<SocialPost>>,
    next: Option<EventPaginationCursor>,
    versions: Seq<ShortEventId>,
)
    requires
        db.events.contains_key(id),
        versions_back(db.social_posts_replaces, db.events[id].event.author, id, versions),
        answers_page(db, m, read_post, id, cursor, limit, records, next),
    ensures
        records.len() <= limit,
        next is Some <==> records.len() > 0,
        next matches Some(c) ==> c.ts == records.last().ts && c.event_id == records.last().event_id,
        exists|answers: Seq<EventOrder>, outs: Seq<Option<SocialPostRecord<SocialPost>>>|
            {
                &&& #[trigger] latest_first(answers)
                &&& forall|i: int, j: int|
                    0 <= i < j < answers.len() ==> !(#[trigger] answers[i]).lt(
                        #[trigger] answers[j],
                    )
                &&& records == #[trigger] records_of(outs)
                &&& forall|o: EventOrder| #[trigger]
                    answers.contains(o) <==> is_answer(m, versions, cursor, o)
                &&& outs.len() <= answers.len()
                &&& outs.len() < answers.len() ==> records.len() == limit
                &&& forall|i: int|
                    0 <= i < outs.len() ==> post_read(
                        db,
                        read_post,
                        answers[i].event_id,
                        answers[i].timestamp,
                        Ok(#[trigger] outs[i]),
                    )
            },
{
    lemma_versions_known(db.social_posts_replaces, db.events[id].event.author, id, versions);
    let lists = answer_lists(m, versions, cursor);
    let (answers, outs) = choose|
        keys: Seq<EventOrder>,
        outs: Seq<Option<SocialPostRecord<SocialPost>>>,
    |
        {
            &&& #[trigger] is_merge(lists, keys)
            &&& #[trigger] read_until_full(keys, outs, limit)
            &&& records == records_of(outs)
            &&& forall|i: int|
                0 <= i < outs.len() ==> post_read(
                    db,
                    read_post,
                    keys[i].event_id,
                    keys[i].timestamp,
                    Ok(#[trigger] outs[i]),
                )
        };
    assert(is_merge(lists, answers) && read_until_full(answers, outs, limit));
    law_page_bounded(answers, outs, limit);
    assert forall|o: EventOrder| #[trigger] answers.contains(o) <==> is_answer(
        m,
        versions,
        cursor,
        o,
    ) by {
        answers.to_multiset_ensures();
        if answers.contains(o) {
            assert(answers.to_multiset().count(o) > 0);
            lemma_all_of_contains(lists, o);
            let i = choose|i: int| 0 <= i < lists.len() && (#[trigger] lists[i]).contains(o);
            let v = versions[i];
            let set = answer_set(m, v, cursor);
            lemma_answers_before_finite(m, v, cursor);
            lemma_sorted(set);
            let s = sorted(set);
            let p = choose|p: int| 0 <= p < s.reverse().len() && s.reverse()[p] == o;
            assert(s[s.len() - 1 - p] == o);
            assert(s.contains(o));
            assert(m.contains_key((v, o.timestamp, o.event_id)));
            assert(versions.contains(v));
        }
        if is_answer(m, versions, cursor, o) {
            let v = choose|v: ShortEventId|
                versions.contains(v) && #[trigger] m.contains_key((v, o.timestamp, o.event_id));
            let i = choose|i: int| 0 <= i < versions.len() && versions[i] == v;
            let set = answer_set(m, v, cursor);
            assert(answer_set(m, versions[i], None).finite());
            lemma_answers_before_finite(m, v, cursor);
            lemma_sorted(set);
            let s = sorted(set);
            assert(set.contains(o));
            assert(s.contains(o));
            let p = choose|p: int| 0 <= p < s.len() && s[p] == o;
            assert(s.reverse()[s.len() - 1 - p] == o);
            assert(lists[i].contains(o));
            lemma_all_of_has(lists, i, o);
        }
    }
    assert(latest_first(answers));
    assert(records == records_of(outs));
}

/// The event at the place answers one of the versions, before the place given.
pub open spec fn is_answer<M>(
    m: Map<(ShortEventId, Timestamp, ShortEventId), M>,
    versions: Seq<ShortEventId>,
    cursor: Option<EventPaginationCursor>,
    o: EventOrder,
) -> bool {
    &&& exists|v: ShortEventId|
        versions.contains(v) && #[trigger] m.contains_key((v, o.timestamp, o.event_id))
    &&& cursor matches Some(c) ==> o.lt(EventOrder { timestamp: c.ts, event_id: c.event_id })
}

proof fn lemma_answers_before_finite<M>(
    m: Map<(ShortEventId, Timestamp, ShortEventId), M>,
    version: ShortEventId,
    cursor: Option<EventPaginationCursor>,
)
    requires
        answer_set(m, version, None).finite(),
    ensures
        answer_set(m, version, cursor).finite(),
{
    vstd::set_lib::lemma_set_subset_finite(
        answer_set(m, version, None),
        answer_set(m, version, cursor),
    );
}

/// Requests are answered in their order, each with the latest version of the
/// post asked for and the time at which that was written; those that cannot be
/// read are left out, and no other.
pub proof fn law_requests_in_order<F: Fn(&Vec<u8>) -> Option<SocialPost>>(
    db: DbState,
    read_post: F,
    ids: Seq<ShortEventId>,
    answers: Seq<(ShortEventId, SocialPostRecord<SocialPost>)>,
)
    requires
        requests_answered(db, read_post, ids, answers),
    ensures
        exists|outs: Seq<Option<(ShortEventId, SocialPostRecord<SocialPost>)>>|
            {
                &&& outs.len() == ids.len()
                &&& answers == #[trigger] records_of(outs)
                &&& forall|i: int|
                    0 <= i < outs.len() ==> match #[trigger] outs[i] {
                        Some((request, record)) => {
                            &&& request == ids[i]
                            &&& latest_version(db, ids[i]) == Ok::<_, DbError>(record.event_id)
                            &&& record.ts == db.events[record.event_id].event.timestamp
                            &&& record.author == db.events[record.event_id].event.author
                            &&& payload_of(db, record.event_id) is Some
                        },
                        None => requested_read(db, read_post, ids[i], Ok(None)),
                    }
            },
{
    let outs = choose|outs: Seq<Option<(ShortEventId, SocialPostRecord<SocialPost>)>>|
        {
            &&& outs.len() == ids.len()
            &&& answers == #[trigger] records_of(outs)
            &&& forall|i: int|
                0 <= i < ids.len() ==> crate::timeline::request_answer(
                    db,
                    read_post,
                    ids[i],
                    #[trigger] outs[i],
                )
        };
    assert(answers == records_of(outs));
    assert forall|i: int| 0 <= i < outs.len() implies match #[trigger] outs[i] {
        Some((request, record)) => {
            &&& request == ids[i]
            &&& latest_version(db, ids[i]) == Ok::<_, DbError>(record.event_id)
            &&& record.ts == db.events[record.event_id].event.timestamp
            &&& record.author == db.events[record.event_id].event.author
            &&& payload_of(db, record.event_id) is Some
        },
        None => requested_read(db, read_post, ids[i], Ok(None)),
    } by {
        assert(crate::timeline::request_answer(db, read_post, ids[i], outs[i]));
        if let Some((request, record)) = outs[i] {
            let latest = latest_version(db, ids[i])->Ok_0;
            assert(post_read(
                db,
                read_post,
                latest,
                db.events[latest].event.timestamp,
                Ok(Some(record)),
            ));
        }
    }
}

/// Whether the payload of an event can be had is told by its state: it can
/// where it was processed; where it was given up, the reason is told if it was
/// given up for its size.
pub proof fn law_availability_told(db: DbState, id: ShortEventId)
    ensures
        ({
            let told = availability_of(db, id);
            &&& told is Available <==> !db.events_content_state.contains_key(id)
            &&& told is Missing <==> (payload_state(db, id) matches Some(s) && s is Missing)
            &&& told is Deleted <==> (payload_state(db, id) matches Some(s) && s is Deleted)
            &&& told is Invalid <==> payload_state(db, id) == Some(EventContentState::Invalid)
            &&& told matches EventContentAvailability::Pruned { quota_reason } ==> quota_reason
                == (if db.events_quota_pruned.contains_key(id) {
                Some(db.events_quota_pruned[id].reason)
            } else {
                None
            })
        }),
{
}

/// The payload of an event is handed out where its bytes are stored and it was
/// neither deleted nor given up nor found invalid; the event that deleted it is
/// told.
pub proof fn law_content_handed_out(
    state: Option<EventContentState>,
    bytes: Option<Seq<u8>>,
    res: EventContentResult,
)
    requires
        content_result(state, bytes, res),
    ensures
        ({
            let gone = state matches Some(s) && (s is Deleted || s is Pruned || s is Invalid);
            &&& res is Present <==> !gone && bytes is Some
            &&& res matches EventContentResult::Present(b) ==> bytes == Some(b@)
            &&& res is Missing <==> !gone && bytes is None
            &&& res is Pruned <==> state == Some(EventContentState::Pruned)
            &&& res is Invalid <==> state == Some(EventContentState::Invalid)
            &&& res matches EventContentResult::Deleted { deleted_by } ==> state == Some(
                EventContentState::Deleted { deleted_by },
            )
        }),
{
}

/// A post that is shown by itself was processed and is stored, reads as what is
/// shown, and does not only delete; it is shown with the time at which it was
/// written.
pub proof fn law_post_shown_alone<F: Fn(&Vec<u8>) -> Option<SocialPost>>(
    db: DbState,
    read_post: F,
    id: ShortEventId,
    out: Option<SocialPostRecord<SocialPost>>,
)
    requires
        post_shown_alone(db, read_post, id, Ok(out)),
    ensures
        ({
            let event = db.events[id].event;
            let hash = event.content_hash;
            let there = db.events.contains_key(id) && !db.events_content_state.contains_key(id)
                && db.content_store.contains_key(hash);
            match out {
                Some(record) => {
                    &&& there
                    &&& record.event_id == id
                    &&& record.ts == event.timestamp
                    &&& record.author == event.author
                    &&& record.reply_to == record.content.reply_to
                    &&& event.deletes_parent_aux ==> speaks(record.content)
                    &&& exists|b: Vec<u8>|
                        b@ == db.content_store[hash] && #[trigger] call_ensures(
                            read_post,
                            (&b,),
                            Some(record.content),
                        )
                },
                None => !there || exists|b: Vec<u8>, post: Option<SocialPost>|
                    b@ == db.content_store[hash] && #[trigger] call_ensures(
                        read_post,
                        (&b,),
                        post,
                    ) && (post matches Some(post) ==> event.deletes_parent_aux && !speaks(post)),
            }
        }),
{
    let post = choose|post: Option<SocialPost>|
        reads_as(read_post, payload_of(db, id), post) && Ok::<_, DbError>(out)
            == #[trigger] shown_post(db, id, post);
    assert(reads_as(read_post, payload_of(db, id), post));
    if payload_of(db, id) is Some {
        let b = choose|b: Vec<u8>|
            #![trigger b@]
            b@ == payload_of(db, id)->0 && call_ensures(read_post, (&b,), post);
        assert(call_ensures(read_post, (&b,), post));
    }
}

/// What is told of the state of a post is told of its latest version: which one
/// it is, whose, when it was written, whether its payload can be had, and the
/// post itself as far as it can be shown. Of an event that is not stored nothing
/// is told.
pub proof fn law_state_of_latest<F: Fn(&Vec<u8>) -> Option<SocialPost>>(
    db: DbState,
    read_post: F,
    id: ShortEventId,
    out: Option<SocialPostState>,
    versions: Seq<ShortEventId>,
)
    requires
        post_state(db, read_post, id, Ok(out)),
        db.events.contains_key(id) ==> versions_back(
            db.social_posts_replaced_by,
            db.events[id].event.author,
            id,
            versions,
        ),
    ensures
        out is Some <==> db.events.contains_key(id),
        out matches Some(state) ==> {
            let latest = versions.last();
            &&& state.event_id == latest
            &&& state.author == db.events[latest].event.author
            &&& state.timestamp == db.events[latest].event.timestamp
            &&& state.availability is Available <==> !db.events_content_state.contains_key(latest)
            &&& post_shown_alone(db, read_post, latest, Ok(state.post))
        },
{
    if db.events.contains_key(id) {
        lemma_versions_known(db.social_posts_replaced_by, db.events[id].event.author, id, versions);
    }
}

}
