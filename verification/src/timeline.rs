//! Posts in lists: by time, by reception, as answers to another post.

use vstd::prelude::*;

use crate::database::Database;
use crate::error::{unread, DbError, DbResult};
use crate::ids::{
    lemma_short_id_bounds, lemma_timestamp_bounds, EventOrder, ShortEventId, Timestamp,
};
use crate::lineage::{next_version, versions_of};
use crate::listing::{
    ascending, behind, between, key_le, key_lt, lemma_key_asymmetric, lemma_key_irreflexive,
    lemma_key_total, lemma_pair_lt, lemma_sorted, lemma_sorted_is, lemma_triple_lt, sorted, span,
};
use crate::merging::{
    all_of, is_merge, is_merged_page, latest_first, lists_of, paginate_social_post_index_rev,
    position_failed,
};
use crate::paging::{continuation, is_page, read_until_full, records_of, row_failed, row_read};
use crate::order::lemma_lt_single;
use crate::payload::SocialPost;
use crate::process_content::is_failure;
use crate::social::{
    latest_version, payload_of, post_read, reads_all, reads_as, record_of, EventPaginationCursor,
    ReceivedAtPaginationCursor, ShoutboxPostRecord, SocialPostRecord,
};
use crate::table::{keys_of, Table, Value};
use crate::tables::{DbState, Tables};
use crate::words::Words;

verus! {

/// A filter takes any record.
pub open spec fn filters_all<Q: Fn(&SocialPostRecord<SocialPost>) -> bool>(filter: Q) -> bool {
    forall|r: &SocialPostRecord<SocialPost>| call_requires(filter, (r,))
}

/// What a listed post shows as: nothing where its event is not stored, where a
/// later post replaced it, where its payload cannot be had or is no post, or
/// where the filter rejects it; its record otherwise.
pub open spec fn post_shown<
    F: Fn(&Vec<u8>) -> Option<SocialPost>,
    Q: Fn(&SocialPostRecord<SocialPost>) -> bool,
>(
    db: DbState,
    read_post: F,
    filter: Q,
    id: ShortEventId,
    ts: Timestamp,
    res: DbResult<Option<SocialPostRecord<SocialPost>>>,
) -> bool {
    if !db.events.contains_key(id) || next_version(
        db.social_posts_replaced_by,
        db.events[id].event.author,
        id,
    ) is Some {
        res matches Ok(None)
    } else {
        exists|read: DbResult<Option<SocialPostRecord<SocialPost>>>|
            {
                &&& #[trigger] post_read(db, read_post, id, ts, read)
                &&& match read {
                    Ok(Some(record)) => exists|keep: bool|
                        #[trigger] call_ensures(filter, (&record,), keep) && res == (if keep {
                            read
                        } else {
                            Ok(None)
                        }),
                    _ => res == read,
                }
            }
    }
}

/// The first posts of a list, as they show, until there are `limit` of them;
/// so many places were looked at.
pub open spec fn is_post_page<
    F: Fn(&Vec<u8>) -> Option<SocialPost>,
    Q: Fn(&SocialPostRecord<SocialPost>) -> bool,
>(
    db: DbState,
    read_post: F,
    filter: Q,
    posts: Seq<(Timestamp, ShortEventId)>,
    limit: nat,
    records: Seq<SocialPostRecord<SocialPost>>,
    looked_at: nat,
) -> bool {
    exists|outs: Seq<Option<SocialPostRecord<SocialPost>>>|
        {
            &&& outs.len() == looked_at
            &&& #[trigger] read_until_full(posts, outs, limit)
            &&& records == records_of(outs)
            &&& forall|i: int|
                0 <= i < outs.len() ==> post_shown(
                    db,
                    read_post,
                    filter,
                    posts[i].1,
                    posts[i].0,
                    Ok(#[trigger] outs[i]),
                )
        }
}

/// A post of a list could not be shown.
pub open spec fn post_failed<
    F: Fn(&Vec<u8>) -> Option<SocialPost>,
    Q: Fn(&SocialPostRecord<SocialPost>) -> bool,
>(
    db: DbState,
    read_post: F,
    filter: Q,
    posts: Seq<(Timestamp, ShortEventId)>,
    e: DbError,
) -> bool {
    e.is_fault() || exists|i: int|
        0 <= i < posts.len() && #[trigger] post_shown(
            db,
            read_post,
            filter,
            posts[i].1,
            posts[i].0,
            Err(e),
        )
}

/// The place from which a list goes on.
pub open spec fn place_at<K>(keys: Seq<K>, n: nat) -> Option<K> {
    if n < keys.len() {
        Some(keys[n as int])
    } else {
        None
    }
}

/// Places by time as cursors.
pub open spec fn time_cursor(key: Option<(Timestamp, ShortEventId)>) -> Option<
    EventPaginationCursor,
> {
    match key {
        Some((ts, event_id)) => Some(EventPaginationCursor { ts, event_id }),
        None => None,
    }
}

/// Places by reception as cursors.
pub open spec fn reception_cursor(key: Option<(Timestamp, u64)>) -> Option<
    ReceivedAtPaginationCursor,
> {
    match key {
        Some((ts, seq)) => Some(ReceivedAtPaginationCursor { ts, seq }),
        None => None,
    }
}

/// The keys of posts by time, from one place to another.
pub open spec fn keys_by_time(
    db: DbState,
    from: EventPaginationCursor,
    to: EventPaginationCursor,
) -> Seq<(Timestamp, ShortEventId)> {
    sorted(between(db.social_posts_by_time, from.key(), to.key()))
}

/// The keys of posts by reception, from one place to another.
pub open spec fn keys_by_reception(
    m: Map<(Timestamp, u64), ShortEventId>,
    from: ReceivedAtPaginationCursor,
    to: ReceivedAtPaginationCursor,
) -> Seq<(Timestamp, u64)> {
    sorted(between(m, from.key(), to.key()))
}

/// The posts behind keys by reception, with the times of their reception.
pub open spec fn posts_received(
    m: Map<(Timestamp, u64), ShortEventId>,
    keys: Seq<(Timestamp, u64)>,
) -> Seq<(Timestamp, ShortEventId)> {
    keys.map_values(|k: (Timestamp, u64)| (k.0, m[k]))
}

/// A page of posts by time, read in the order of the keys.
pub open spec fn time_page<
    F: Fn(&Vec<u8>) -> Option<SocialPost>,
    Q: Fn(&SocialPostRecord<SocialPost>) -> bool,
>(
    db: DbState,
    read_post: F,
    filter: Q,
    keys: Seq<(Timestamp, ShortEventId)>,
    limit: nat,
    records: Seq<SocialPostRecord<SocialPost>>,
    cursor: Option<EventPaginationCursor>,
) -> bool {
    exists|n: nat|
        #[trigger] is_post_page(db, read_post, filter, keys, limit, records, n) && cursor
            == time_cursor(place_at(keys, n))
}

/// A page of posts by reception, read in the order of the keys.
pub open spec fn reception_page<
    F: Fn(&Vec<u8>) -> Option<SocialPost>,
    Q: Fn(&SocialPostRecord<SocialPost>) -> bool,
>(
    db: DbState,
    read_post: F,
    filter: Q,
    keys: Seq<(Timestamp, u64)>,
    limit: nat,
    records: Seq<SocialPostRecord<SocialPost>>,
    cursor: Option<ReceivedAtPaginationCursor>,
) -> bool {
    exists|n: nat|
        #[trigger] is_post_page(
            db,
            read_post,
            filter,
            posts_received(db.social_posts_by_received_at, keys),
            limit,
            records,
            n,
        ) && cursor == reception_cursor(place_at(keys, n))
}

/// The answers to a version of a post, before a place if one is given.
pub open spec fn answer_set<M>(
    m: Map<(ShortEventId, Timestamp, ShortEventId), M>,
    version: ShortEventId,
    cursor: Option<EventPaginationCursor>,
) -> Set<EventOrder> {
    Set::new(
        |o: EventOrder|
            m.contains_key((version, o.timestamp, o.event_id)) && match cursor {
                Some(c) => o.lt(EventOrder { timestamp: c.ts, event_id: c.event_id }),
                None => true,
            },
    )
}

/// The answers to each version of a post, the latest first.
pub open spec fn answer_lists<M>(
    m: Map<(ShortEventId, Timestamp, ShortEventId), M>,
    versions: Seq<ShortEventId>,
    cursor: Option<EventPaginationCursor>,
) -> Seq<Seq<EventOrder>> {
    versions.map_values(|v: ShortEventId| sorted(answer_set(m, v, cursor)).reverse())
}

/// Each version of a post has finitely many answers.
pub open spec fn answers_finite<M>(
    m: Map<(ShortEventId, Timestamp, ShortEventId), M>,
    versions: Seq<ShortEventId>,
) -> bool {
    forall|i: int| 0 <= i < versions.len() ==> answer_set(m, #[trigger] versions[i], None).finite()
}

/// The versions of a post that is stored, or the post itself.
pub open spec fn all_versions(db: DbState, id: ShortEventId) -> DbResult<Seq<ShortEventId>> {
    if db.events.contains_key(id) {
        match versions_of(db.social_posts_replaces, db.events[id].event.author, id) {
            Some(versions) => Ok(versions),
            None => Err(DbError::CyclicEdits { event_id: id }),
        }
    } else {
        Ok(seq![id])
    }
}

/// The latest answers of some lists, passing over those that cannot be read,
/// until there are `limit` of them.
pub open spec fn is_answer_page<F: Fn(&Vec<u8>) -> Option<SocialPost>>(
    db: DbState,
    read_post: F,
    lists: Seq<Seq<EventOrder>>,
    limit: nat,
    records: Seq<SocialPostRecord<SocialPost>>,
) -> bool {
    exists|keys: Seq<EventOrder>, outs: Seq<Option<SocialPostRecord<SocialPost>>>|
        {
            &&& #[trigger] is_merge(lists, keys)
            &&& #[trigger] read_until_full(keys, outs, limit)
            &&& records == records_of(outs)
            &&& forall|i: int|
                0 <= i < outs.len() ==> post_read(
                    db,
                    read_post,
                    keys[i].event_id,
                    keys[i].timestamp,
                    Ok(#[trigger] outs[i]),
                )
        }
}

/// The place of the last record, behind which the next page starts.
pub open spec fn place_of_last(records: Seq<SocialPostRecord<SocialPost>>) -> Option<
    EventPaginationCursor,
> {
    if records.len() > 0 {
        Some(
            EventPaginationCursor { ts: records.last().ts, event_id: records.last().event_id },
        )
    } else {
        None
    }
}

/// A page of answers to a post and to those that it replaced.
pub open spec fn answers_page<M, F: Fn(&Vec<u8>) -> Option<SocialPost>>(
    db: DbState,
    m: Map<(ShortEventId, Timestamp, ShortEventId), M>,
    read_post: F,
    id: ShortEventId,
    cursor: Option<EventPaginationCursor>,
    limit: nat,
    records: Seq<SocialPostRecord<SocialPost>>,
    next: Option<EventPaginationCursor>,
) -> bool {
    &&& all_versions(db, id) matches Ok(versions) && answers_finite(m, versions) && is_answer_page(
        db,
        read_post,
        answer_lists(m, versions, cursor),
        limit,
        records,
    )
    &&& next == place_of_last(records)
}

/// Answers to a post could not be listed.
pub open spec fn answers_failed<M, F: Fn(&Vec<u8>) -> Option<SocialPost>>(
    db: DbState,
    m: Map<(ShortEventId, Timestamp, ShortEventId), M>,
    read_post: F,
    id: ShortEventId,
    cursor: Option<EventPaginationCursor>,
    e: DbError,
) -> bool {
    match all_versions(db, id) {
        Err(cyclic) => e == cyclic,
        Ok(versions) => exists|o: EventOrder|
            all_of(answer_lists(m, versions, cursor)).count(o) > 0 && #[trigger] post_read(
                db,
                read_post,
                o.event_id,
                o.timestamp,
                Err(e),
            ),
    }
}

/// What a shoutbox post shows as.
pub open spec fn shout_shown<C, F: Fn(&Vec<u8>) -> Option<C>>(
    db: DbState,
    read: F,
    id: ShortEventId,
    received_ts: Timestamp,
    out: Option<ShoutboxPostRecord<C>>,
) -> bool {
    match out {
        Some(record) => {
            &&& record.received_ts == received_ts
            &&& record.event_id == id
            &&& record.author == db.events[id].event.author
            &&& reads_as(read, payload_of(db, id), Some(record.content))
        },
        None => reads_as::<C, F>(read, payload_of(db, id), None),
    }
}

/// A page of shoutbox posts, read in the order of the keys.
pub open spec fn shout_page<C, F: Fn(&Vec<u8>) -> Option<C>>(
    db: DbState,
    read: F,
    keys: Seq<(Timestamp, u64)>,
    limit: nat,
    records: Seq<ShoutboxPostRecord<C>>,
    cursor: Option<ReceivedAtPaginationCursor>,
) -> bool {
    exists|outs: Seq<Option<ShoutboxPostRecord<C>>>|
        {
            &&& #[trigger] read_until_full(keys, outs, limit)
            &&& records == records_of(outs)
            &&& cursor == reception_cursor(continuation(keys, outs))
            &&& forall|i: int|
                0 <= i < outs.len() ==> shout_shown(
                    db,
                    read,
                    db.shoutbox_posts_by_received_at[keys[i]],
                    keys[i].0,
                    #[trigger] outs[i],
                )
        }
}

/// The last place of some, if there are any.
pub open spec fn last_place(keys: Seq<(Timestamp, u64)>) -> Option<ReceivedAtPaginationCursor> {
    if keys.len() > 0 {
        reception_cursor(Some(keys.last()))
    } else {
        None
    }
}

/// The keys of the rows behind a place, or of all where none is given.
pub open spec fn received_after<M>(
    m: Map<(Timestamp, u64), M>,
    cursor: Option<ReceivedAtPaginationCursor>,
) -> Set<(Timestamp, u64)> {
    behind(
        m,
        match cursor {
            Some(c) => Some(c.key()),
            None => None,
        },
    )
}

/// What a requested post reads as: its latest version, with the time at which
/// it was written.
pub open spec fn requested_read<F: Fn(&Vec<u8>) -> Option<SocialPost>>(
    db: DbState,
    read_post: F,
    id: ShortEventId,
    res: DbResult<Option<SocialPostRecord<SocialPost>>>,
) -> bool {
    match latest_version(db, id) {
        Err(e) => res == Err::<Option<SocialPostRecord<SocialPost>>, DbError>(e),
        Ok(latest) => post_read(
            db,
            read_post,
            latest,
            db.events[latest].event.timestamp,
            res,
        ),
    }
}

/// The answer to a request: the request with what the post reads as.
pub open spec fn request_answer<F: Fn(&Vec<u8>) -> Option<SocialPost>>(
    db: DbState,
    read_post: F,
    id: ShortEventId,
    out: Option<(ShortEventId, SocialPostRecord<SocialPost>)>,
) -> bool {
    match out {
        Some((request, record)) => request == id && requested_read(
            db,
            read_post,
            id,
            Ok(Some(record)),
        ),
        None => requested_read(db, read_post, id, Ok(None)),
    }
}

/// The requested posts that can be read, each with the request, in the order
/// of the requests.
pub open spec fn requests_answered<F: Fn(&Vec<u8>) -> Option<SocialPost>>(
    db: DbState,
    read_post: F,
    ids: Seq<ShortEventId>,
    answers: Seq<(ShortEventId, SocialPostRecord<SocialPost>)>,
) -> bool {
    exists|outs: Seq<Option<(ShortEventId, SocialPostRecord<SocialPost>)>>|
        {
            &&& outs.len() == ids.len()
            &&& answers == #[trigger] records_of(outs)
            &&& forall|i: int|
                0 <= i < ids.len() ==> request_answer(db, read_post, ids[i], #[trigger] outs[i])
        }
}

type Shown = DbResult<Option<SocialPostRecord<SocialPost>>>;

/// Rows that are read as the posts of a list show.
spec fn loads_posts<
    K: Words,
    V: Value,
    L: Fn(&K, &V) -> Shown,
    F: Fn(&Vec<u8>) -> Option<SocialPost>,
    Q: Fn(&SocialPostRecord<SocialPost>) -> bool,
>(
    load: L,
    m: Map<K, V::Model>,
    keys: Seq<K>,
    db: DbState,
    read_post: F,
    filter: Q,
    posts: Seq<(Timestamp, ShortEventId)>,
) -> bool {
    &&& posts.len() == keys.len()
    &&& forall|i: int, out: Shown|
        0 <= i < keys.len() && #[trigger] row_read::<K, V, SocialPostRecord<SocialPost>, L>(
            load,
            m,
            keys[i],
            out,
        ) ==> (out matches Err(e) && e.is_fault()) || post_shown(
            db,
            read_post,
            filter,
            posts[i].1,
            posts[i].0,
            out,
        )
}

proof fn lemma_post_page<
    K: Words,
    V: Value,
    L: Fn(&K, &V) -> Shown,
    F: Fn(&Vec<u8>) -> Option<SocialPost>,
    Q: Fn(&SocialPostRecord<SocialPost>) -> bool,
>(
    load: L,
    m: Map<K, V::Model>,
    keys: Seq<K>,
    db: DbState,
    read_post: F,
    filter: Q,
    posts: Seq<(Timestamp, ShortEventId)>,
    limit: nat,
    records: Seq<SocialPostRecord<SocialPost>>,
    next: Option<K>,
)
    requires
        loads_posts::<K, V, L, F, Q>(load, m, keys, db, read_post, filter, posts),
        is_page::<K, V, SocialPostRecord<SocialPost>, L>(load, m, keys, limit, records, next),
    ensures
        exists|n: nat|
            #[trigger] is_post_page(db, read_post, filter, posts, limit, records, n) && next
                == place_at(keys, n),
{
    let outs = choose|outs: Seq<Option<SocialPostRecord<SocialPost>>>|
        {
            &&& #[trigger] read_until_full(keys, outs, limit)
            &&& records == records_of(outs)
            &&& next == continuation(keys, outs)
            &&& forall|i: int|
                0 <= i < outs.len() ==> row_read::<K, V, SocialPostRecord<SocialPost>, L>(
                    load,
                    m,
                    keys[i],
                    Ok(#[trigger] outs[i]),
                )
        };
    assert(read_until_full(posts, outs, limit));
    assert forall|i: int| 0 <= i < outs.len() implies post_shown(
        db,
        read_post,
        filter,
        posts[i].1,
        posts[i].0,
        Ok(#[trigger] outs[i]),
    ) by {
        assert(row_read::<K, V, SocialPostRecord<SocialPost>, L>(load, m, keys[i], Ok(outs[i])));
    }
    assert(is_post_page(db, read_post, filter, posts, limit, records, outs.len()));
}

proof fn lemma_post_failed<
    K: Words,
    V: Value,
    L: Fn(&K, &V) -> Shown,
    F: Fn(&Vec<u8>) -> Option<SocialPost>,
    Q: Fn(&SocialPostRecord<SocialPost>) -> bool,
>(
    load: L,
    m: Map<K, V::Model>,
    keys: Seq<K>,
    db: DbState,
    read_post: F,
    filter: Q,
    posts: Seq<(Timestamp, ShortEventId)>,
    e: DbError,
)
    requires
        loads_posts::<K, V, L, F, Q>(load, m, keys, db, read_post, filter, posts),
        row_failed::<K, V, SocialPostRecord<SocialPost>, L>(load, m, keys, e),
    ensures
        post_failed(db, read_post, filter, posts, e),
{
    let i = choose|i: int|
        0 <= i < keys.len() && #[trigger] row_read::<K, V, SocialPostRecord<SocialPost>, L>(
            load,
            m,
            keys[i],
            Err(e),
        );
    if !e.is_fault() {
        assert(post_shown(db, read_post, filter, posts[i].1, posts[i].0, Err(e)));
    }
}

impl Database {
    fn listed_post_tx<
        F: Fn(&Vec<u8>) -> Option<SocialPost>,
        Q: Fn(&SocialPostRecord<SocialPost>) -> bool,
    >(event_id: ShortEventId, ts: Timestamp, read_post: &F, filter: &Q, db: &Tables<'_>) -> (res:
        DbResult<Option<SocialPostRecord<SocialPost>>>)
        requires
            reads_all(*read_post),
            filters_all(*filter),
        ensures
            (res matches Err(e) && e.is_fault()) || post_shown(
                db@,
                *read_post,
                *filter,
                event_id,
                ts,
                res,
            ),
            unread(res) ==> !db.intact(),
    {
        let event = match db.events.get(&event_id)? {
            Some(event) => event,
            None => return Ok(None),
        };
        if Self::is_social_post_replaced_tx(
            event.event.author,
            event_id,
            &db.social_posts_replaced_by,
        )? {
            return Ok(None);
        }
        let read = Self::social_post_record_by_id_tx(event_id, ts, read_post, db);
        let ghost outcome = read;
        match read {
            Ok(Some(record)) => {
                let keep = filter(&record);
                assert(call_ensures(*filter, (&record,), keep));
                assert(post_read(db@, *read_post, event_id, ts, outcome));
                if keep {
                    Ok(Some(record))
                } else {
                    Ok(None)
                }
            },
            Ok(None) => {
                assert(post_read(db@, *read_post, event_id, ts, outcome));
                Ok(None)
            },
            Err(e) => {
                assert(e.is_fault() || post_read(db@, *read_post, event_id, ts, outcome));
                Err(e)
            },
        }
    }

    /// A page of posts by the time at which they were written, from the place
    /// given or the first one on. The second result is where the next page
    /// starts.
    pub fn paginate_social_posts<
        F: Fn(&Vec<u8>) -> Option<SocialPost>,
        Q: Fn(&SocialPostRecord<SocialPost>) -> bool,
    >(
        cursor: Option<EventPaginationCursor>,
        limit: usize,
        filter: &Q,
        read_post: &F,
        db: &Tables<'_>,
    ) -> (res: DbResult<(Vec<SocialPostRecord<SocialPost>>, Option<EventPaginationCursor>)>)
        requires
            reads_all(*read_post),
            filters_all(*filter),
        ensures
            ({
                let from = match cursor {
                    Some(c) => c,
                    None => EventPaginationCursor::spec_zero(),
                };
                let keys = keys_by_time(db@, from, EventPaginationCursor::spec_max());
                match res {
                    Ok((records, next)) => time_page(
                        db@,
                        *read_post,
                        *filter,
                        keys,
                        limit as nat,
                        records@,
                        next,
                    ),
                    Err(e) => post_failed(db@, *read_post, *filter, keys, e),
                }
            }),
            res is Ok ==> between(
                db@.social_posts_by_time,
                (match cursor {
                    Some(c) => c,
                    None => EventPaginationCursor::spec_zero(),
                }).key(),
                EventPaginationCursor::spec_max().key(),
            ).finite(),
            unread(res) ==> !db.intact(),
    {
        let from = match cursor {
            Some(c) => c,
            None => EventPaginationCursor::zero(),
        };
        let to = EventPaginationCursor::max();
        let load = |key: &(Timestamp, ShortEventId), value: &()| -> (out: Shown)
            ensures
                (out matches Err(e) && e.is_fault()) || post_shown(
                    db@,
                    *read_post,
                    *filter,
                    key.1,
                    key.0,
                    out,
                ),
                unread(out) ==> !db.intact(),
            { Self::listed_post_tx(key.1, key.0, read_post, filter, db) };
        let ghost keys = keys_by_time(db@, from, to);
        let ghost posts = keys;
        assert(loads_posts::<_, (), _, F, Q>(
            load,
            db@.social_posts_by_time,
            keys,
            db@,
            *read_post,
            *filter,
            posts,
        ));
        match Self::paginate_table(
            &db.social_posts_by_time,
            (from.ts, from.event_id),
            (to.ts, to.event_id),
            limit,
            load,
        ) {
            Ok((records, next)) => {
                let cursor = match next {
                    Some((ts, event_id)) => Some(EventPaginationCursor { ts, event_id }),
                    None => None,
                };
                proof {
                    lemma_post_page::<_, (), _, F, Q>(
                        load,
                        db@.social_posts_by_time,
                        keys,
                        db@,
                        *read_post,
                        *filter,
                        posts,
                        limit as nat,
                        records@,
                        next,
                    );
                }
                Ok((records, cursor))
            },
            Err(e) => {
                proof {
                    if !e.is_fault() {
                        lemma_post_failed::<_, (), _, F, Q>(
                            load,
                            db@.social_posts_by_time,
                            keys,
                            db@,
                            *read_post,
                            *filter,
                            posts,
                            e,
                        );
                    }
                }
                Err(e)
            },
        }
    }

    /// A page of posts by the time at which they were written, from the place
    /// given or the last one back. The second result is where the next page
    /// starts.
    pub fn paginate_social_posts_rev<
        F: Fn(&Vec<u8>) -> Option<SocialPost>,
        Q: Fn(&SocialPostRecord<SocialPost>) -> bool,
    >(
        cursor: Option<EventPaginationCursor>,
        limit: usize,
        filter: &Q,
        read_post: &F,
        db: &Tables<'_>,
    ) -> (res: DbResult<(Vec<SocialPostRecord<SocialPost>>, Option<EventPaginationCursor>)>)
        requires
            reads_all(*read_post),
            filters_all(*filter),
        ensures
            ({
                let to = match cursor {
                    Some(c) => c,
                    None => EventPaginationCursor::spec_max(),
                };
                let keys = keys_by_time(db@, EventPaginationCursor::spec_zero(), to).reverse();
                match res {
                    Ok((records, next)) => time_page(
                        db@,
                        *read_post,
                        *filter,
                        keys,
                        limit as nat,
                        records@,
                        next,
                    ),
                    Err(e) => post_failed(db@, *read_post, *filter, keys, e),
                }
            }),
            res is Ok ==> between(
                db@.social_posts_by_time,
                EventPaginationCursor::spec_zero().key(),
                (match cursor {
                    Some(c) => c,
                    None => EventPaginationCursor::spec_max(),
                }).key(),
            ).finite(),
            unread(res) ==> !db.intact(),
    {
        let from = EventPaginationCursor::zero();
        let to = match cursor {
            Some(c) => c,
            None => EventPaginationCursor::max(),
        };
        let load = |key: &(Timestamp, ShortEventId), value: &()| -> (out: Shown)
            ensures
                (out matches Err(e) && e.is_fault()) || post_shown(
                    db@,
                    *read_post,
                    *filter,
                    key.1,
                    key.0,
                    out,
                ),
                unread(out) ==> !db.intact(),
            { Self::listed_post_tx(key.1, key.0, read_post, filter, db) };
        let ghost keys = keys_by_time(db@, from, to).reverse();
        let ghost posts = keys;
        assert(loads_posts::<_, (), _, F, Q>(
            load,
            db@.social_posts_by_time,
            keys,
            db@,
            *read_post,
            *filter,
            posts,
        ));
        match Self::paginate_table_rev(
            &db.social_posts_by_time,
            (from.ts, from.event_id),
            (to.ts, to.event_id),
            limit,
            load,
        ) {
            Ok((records, next)) => {
                let cursor = match next {
                    Some((ts, event_id)) => Some(EventPaginationCursor { ts, event_id }),
                    None => None,
                };
                proof {
                    lemma_post_page::<_, (), _, F, Q>(
                        load,
                        db@.social_posts_by_time,
                        keys,
                        db@,
                        *read_post,
                        *filter,
                        posts,
                        limit as nat,
                        records@,
                        next,
                    );
                }
                Ok((records, cursor))
            },
            Err(e) => {
                proof {
                    if !e.is_fault() {
                        lemma_post_failed::<_, (), _, F, Q>(
                            load,
                            db@.social_posts_by_time,
                            keys,
                            db@,
                            *read_post,
                            *filter,
                            posts,
                            e,
                        );
                    }
                }
                Err(e)
            },
        }
    }

    /// A page of posts by reception, from the place given or the first one on.
    /// The second result is where the next page starts.
    pub fn paginate_social_posts_by_received_at<
        F: Fn(&Vec<u8>) -> Option<SocialPost>,
        Q: Fn(&SocialPostRecord<SocialPost>) -> bool,
    >(
        cursor: Option<ReceivedAtPaginationCursor>,
        limit: usize,
        filter: &Q,
        read_post: &F,
        db: &Tables<'_>,
    ) -> (res: DbResult<(Vec<SocialPostRecord<SocialPost>>, Option<ReceivedAtPaginationCursor>)>)
        requires
            reads_all(*read_post),
            filters_all(*filter),
        ensures
            ({
                let from = match cursor {
                    Some(c) => c,
                    None => ReceivedAtPaginationCursor::spec_zero(),
                };
                let keys = keys_by_reception(db@.social_posts_by_received_at, from, ReceivedAtPaginationCursor::spec_max());
                match res {
                    Ok((records, next)) => reception_page(
                        db@,
                        *read_post,
                        *filter,
                        keys,
                        limit as nat,
                        records@,
                        next,
                    ),
                    Err(e) => post_failed(db@, *read_post, *filter, posts_received(db@.social_posts_by_received_at, keys), e),
                }
            }),
            res is Ok ==> between(
                db@.social_posts_by_received_at,
                (match cursor {
                    Some(c) => c,
                    None => ReceivedAtPaginationCursor::spec_zero(),
                }).key(),
                ReceivedAtPaginationCursor::spec_max().key(),
            ).finite(),
            unread(res) ==> !db.intact(),
    {
        let from = match cursor {
            Some(c) => c,
            None => ReceivedAtPaginationCursor::zero(),
        };
        let to = ReceivedAtPaginationCursor::max();
        let load = |key: &(Timestamp, u64), value: &ShortEventId| -> (out: Shown)
            ensures
                (out matches Err(e) && e.is_fault()) || post_shown(
                    db@,
                    *read_post,
                    *filter,
                    *value,
                    key.0,
                    out,
                ),
                unread(out) ==> !db.intact(),
            { Self::listed_post_tx(*value, key.0, read_post, filter, db) };
        let ghost keys = keys_by_reception(db@.social_posts_by_received_at, from, to);
        let ghost posts = posts_received(db@.social_posts_by_received_at, keys);
        assert(loads_posts::<_, ShortEventId, _, F, Q>(
            load,
            db@.social_posts_by_received_at,
            keys,
            db@,
            *read_post,
            *filter,
            posts,
        ));
        match Self::paginate_table(
            &db.social_posts_by_received_at,
            (from.ts, from.seq),
            (to.ts, to.seq),
            limit,
            load,
        ) {
            Ok((records, next)) => {
                let cursor = match next {
                    Some((ts, seq)) => Some(ReceivedAtPaginationCursor { ts, seq }),
                    None => None,
                };
                proof {
                    lemma_post_page::<_, ShortEventId, _, F, Q>(
                        load,
                        db@.social_posts_by_received_at,
                        keys,
                        db@,
                        *read_post,
                        *filter,
                        posts,
                        limit as nat,
                        records@,
                        next,
                    );
                }
                Ok((records, cursor))
            },
            Err(e) => {
                proof {
                    if !e.is_fault() {
                        lemma_post_failed::<_, ShortEventId, _, F, Q>(
                            load,
                            db@.social_posts_by_received_at,
                            keys,
                            db@,
                            *read_post,
                            *filter,
                            posts,
                            e,
                        );
                    }
                }
                Err(e)
            },
        }
    }

    /// A page of posts by reception, from the place given or the last one back.
    /// The second result is where the next page starts.
    pub fn paginate_social_posts_by_received_at_rev<
        F: Fn(&Vec<u8>) -> Option<SocialPost>,
        Q: Fn(&SocialPostRecord<SocialPost>) -> bool,
    >(
        cursor: Option<ReceivedAtPaginationCursor>,
        limit: usize,
        filter: &Q,
        read_post: &F,
        db: &Tables<'_>,
    ) -> (res: DbResult<(Vec<SocialPostRecord<SocialPost>>, Option<ReceivedAtPaginationCursor>)>)
        requires
            reads_all(*read_post),
            filters_all(*filter),
        ensures
            ({
                let to = match cursor {
                    Some(c) => c,
                    None => ReceivedAtPaginationCursor::spec_max(),
                };
                let keys = keys_by_reception(db@.social_posts_by_received_at, ReceivedAtPaginationCursor::spec_zero(), to).reverse();
                match res {
                    Ok((records, next)) => reception_page(
                        db@,
                        *read_post,
                        *filter,
                        keys,
                        limit as nat,
                        records@,
                        next,
                    ),
                    Err(e) => post_failed(db@, *read_post, *filter, posts_received(db@.social_posts_by_received_at, keys), e),
                }
            }),
            res is Ok ==> between(
                db@.social_posts_by_received_at,
                ReceivedAtPaginationCursor::spec_zero().key(),
                (match cursor {
                    Some(c) => c,
                    None => ReceivedAtPaginationCursor::spec_max(),
                }).key(),
            ).finite(),
            unread(res) ==> !db.intact(),
    {
        let from = ReceivedAtPaginationCursor::zero();
        let to = match cursor {
            Some(c) => c,
            None => ReceivedAtPaginationCursor::max(),
        };
        let load = |key: &(Timestamp, u64), value: &ShortEventId| -> (out: Shown)
            ensures
                (out matches Err(e) && e.is_fault()) || post_shown(
                    db@,
                    *read_post,
                    *filter,
                    *value,
                    key.0,
                    out,
                ),
                unread(out) ==> !db.intact(),
            { Self::listed_post_tx(*value, key.0, read_post, filter, db) };
        let ghost keys = keys_by_reception(db@.social_posts_by_received_at, from, to).reverse();
        let ghost posts = posts_received(db@.social_posts_by_received_at, keys);
        assert(loads_posts::<_, ShortEventId, _, F, Q>(
            load,
            db@.social_posts_by_received_at,
            keys,
            db@,
            *read_post,
            *filter,
            posts,
        ));
        match Self::paginate_table_rev(
            &db.social_posts_by_received_at,
            (from.ts, from.seq),
            (to.ts, to.seq),
            limit,
            load,
        ) {
            Ok((records, next)) => {
                let cursor = match next {
                    Some((ts, seq)) => Some(ReceivedAtPaginationCursor { ts, seq }),
                    None => None,
                };
                proof {
                    lemma_post_page::<_, ShortEventId, _, F, Q>(
                        load,
                        db@.social_posts_by_received_at,
                        keys,
                        db@,
                        *read_post,
                        *filter,
                        posts,
                        limit as nat,
                        records@,
                        next,
                    );
                }
                Ok((records, cursor))
            },
            Err(e) => {
                proof {
                    if !e.is_fault() {
                        lemma_post_failed::<_, ShortEventId, _, F, Q>(
                            load,
                            db@.social_posts_by_received_at,
                            keys,
                            db@,
                            *read_post,
                            *filter,
                            posts,
                            e,
                        );
                    }
                }
                Err(e)
            },
        }
    }

    /// The place of the post received last.
    pub fn get_latest_social_post_received_at_cursor(db: &Tables<'_>) -> (res: DbResult<
        Option<ReceivedAtPaginationCursor>,
    >)
        ensures
            match res {
                Ok(cursor) => cursor == last_place(
                    keys_by_reception(
                        db@.social_posts_by_received_at,
                        ReceivedAtPaginationCursor::spec_zero(),
                        ReceivedAtPaginationCursor::spec_max(),
                    ),
                ),
                Err(e) => e.is_fault(),
            },
            res is Ok ==> between(
                db@.social_posts_by_received_at,
                ReceivedAtPaginationCursor::spec_zero().key(),
                ReceivedAtPaginationCursor::spec_max().key(),
            ).finite(),
            unread(res) ==> !db.intact(),
    {
        Self::last_received_tx(&db.social_posts_by_received_at)
    }

    /// The place of the shoutbox post received last.
    pub fn get_latest_shoutbox_received_at_cursor(db: &Tables<'_>) -> (res: DbResult<
        Option<ReceivedAtPaginationCursor>,
    >)
        ensures
            match res {
                Ok(cursor) => cursor == last_place(
                    keys_by_reception(
                        db@.shoutbox_posts_by_received_at,
                        ReceivedAtPaginationCursor::spec_zero(),
                        ReceivedAtPaginationCursor::spec_max(),
                    ),
                ),
                Err(e) => e.is_fault(),
            },
            res is Ok ==> between(
                db@.shoutbox_posts_by_received_at,
                ReceivedAtPaginationCursor::spec_zero().key(),
                ReceivedAtPaginationCursor::spec_max().key(),
            ).finite(),
            unread(res) ==> !db.intact(),
    {
        Self::last_received_tx(&db.shoutbox_posts_by_received_at)
    }

    fn last_received_tx(table: &Table<'_, (Timestamp, u64), ShortEventId>) -> (res: DbResult<
        Option<ReceivedAtPaginationCursor>,
    >)
        ensures
            match res {
                Ok(cursor) => cursor == last_place(
                    keys_by_reception(
                        table@,
                        ReceivedAtPaginationCursor::spec_zero(),
                        ReceivedAtPaginationCursor::spec_max(),
                    ),
                ),
                Err(e) => e.is_fault(),
            },
            res is Ok ==> between(
                table@,
                ReceivedAtPaginationCursor::spec_zero().key(),
                ReceivedAtPaginationCursor::spec_max().key(),
            ).finite(),
            unread(res) ==> !table.intact(),
    {
        let from = ReceivedAtPaginationCursor::zero();
        let to = ReceivedAtPaginationCursor::max();
        match table.walk_back_from(&(from.ts, from.seq), &(to.ts, to.seq))? {
            Some((key, _)) => Ok(Some(ReceivedAtPaginationCursor { ts: key.0, seq: key.1 })),
            None => Ok(None),
        }
    }

    fn answers_tx<V: Value>(
        version: ShortEventId,
        cursor: Option<EventPaginationCursor>,
        table: &Table<'_, (ShortEventId, Timestamp, ShortEventId), V>,
    ) -> (res: DbResult<Vec<EventOrder>>)
        ensures
            match res {
                Ok(answers) => {
                    &&& answers@ == sorted(answer_set(table@, version, cursor)).reverse()
                    &&& latest_first(answers@)
                    &&& answer_set(table@, version, None).finite()
                },
                Err(e) => e.is_fault(),
            },
            unread(res) ==> !table.intact(),
    {
        let lo = (version, Timestamp::zero(), ShortEventId::zero());
        let hi = (version, Timestamp::max(), ShortEventId::max());
        let found = table.collect(&lo, &hi)?;
        let ghost set = answer_set(table@, version, cursor);
        let ghost range = between(table@, lo, hi);
        let mut kept: Vec<EventOrder> = Vec::new();
        let mut i: usize = 0;
        proof {
            lemma_answers_finite(table@, version);
            lemma_sorted(range);
            assert forall|k: (ShortEventId, Timestamp, ShortEventId)|
                range.contains(k) <==> #[trigger] table@.contains_key(k) && k.0 == version by {
                lemma_answer_range(version, k);
            }
        }
        while i < found.len()
            invariant
                i <= found.len(),
                keys_of(found@) == sorted(range),
                ascending(sorted(range)),
                set == answer_set(table@, version, cursor),
                forall|k: (ShortEventId, Timestamp, ShortEventId)|
                    range.contains(k) <==> #[trigger] table@.contains_key(k) && k.0 == version,
                forall|k: (ShortEventId, Timestamp, ShortEventId)|
                    range.contains(k) <==> #[trigger] sorted(range).contains(k),
                ascending(kept@),
                forall|j: int| 0 <= j < kept@.len() ==> set.contains(#[trigger] kept@[j]),
                forall|j: int|
                    0 <= j < i && set.contains(order_in(#[trigger] found@[j].0)) ==> kept@.contains(
                        order_in(found@[j].0),
                    ),
                forall|j: int|
                    #![trigger kept@[j]]
                    0 <= j < kept@.len() ==> exists|p: int|
                        0 <= p < i && order_in(#[trigger] found@[p].0) == kept@[j],
            decreases found.len() - i,
        {
            let key = found[i].0;
            let order = EventOrder { timestamp: key.1, event_id: key.2 };
            let wanted = match cursor {
                Some(c) => order.before(&EventOrder { timestamp: c.ts, event_id: c.event_id }),
                None => true,
            };
            let ghost before = kept@;
            proof {
                assert(keys_of(found@)[i as int] == key);
                assert(sorted(range).contains(key));
                assert(table@.contains_key(key));
                assert(key == (version, order.timestamp, order.event_id));
                assert(set.contains(order) == wanted);
            }
            if wanted {
                kept.push(order);
                proof {
                    assert forall|a: int, b: int| 0 <= a < b < kept@.len() implies key_lt(
                        #[trigger] kept@[a],
                        #[trigger] kept@[b],
                    ) by {
                        if b == before.len() {
                            assert(before[a] == kept@[a]);
                            let p = choose|p: int|
                                0 <= p < i && order_in(#[trigger] found@[p].0) == before[a];
                            assert(keys_of(found@)[p] == found@[p].0);
                            assert(key_lt(sorted(range)[p], sorted(range)[i as int]));
                            assert(sorted(range).contains(found@[p].0));
                            assert(table@.contains_key(found@[p].0));
                            lemma_answer_order(version, found@[p].0, key);
                        } else {
                            assert(before[a] == kept@[a] && before[b] == kept@[b]);
                        }
                    }
                    assert forall|j: int|
                        0 <= j < i + 1 && set.contains(
                            order_in(#[trigger] found@[j].0),
                        ) implies kept@.contains(order_in(found@[j].0)) by {
                        if j < i {
                            let q = choose|q: int|
                                0 <= q < before.len() && before[q] == order_in(found@[j].0);
                            assert(before.contains(order_in(found@[j].0)));
                            assert(kept@[q] == before[q]);
                        } else {
                            assert(kept@[before.len() as int] == order);
                        }
                    }
                    assert forall|j: int|
                        #![trigger kept@[j]]
                        0 <= j < kept@.len() implies exists|p: int|
                        0 <= p < i + 1 && order_in(#[trigger] found@[p].0) == kept@[j] by {
                        if j < before.len() {
                            assert(before[j] == kept@[j]);
                            let p = choose|p: int|
                                0 <= p < i && order_in(#[trigger] found@[p].0) == before[j];
                            assert(order_in(found@[p].0) == kept@[j]);
                        } else {
                            assert(order_in(found@[i as int].0) == kept@[j]);
                        }
                    }
                }
            }
            i = i + 1;
        }
        proof {
            assert forall|o: EventOrder| kept@.to_set().contains(o) <==> set.contains(o) by {
                if kept@.to_set().contains(o) {
                    let j = choose|j: int| 0 <= j < kept@.len() && kept@[j] == o;
                    assert(set.contains(kept@[j]));
                }
                if set.contains(o) {
                    let k = (version, o.timestamp, o.event_id);
                    assert(table@.contains_key(k));
                    assert(sorted(range).contains(k));
                    let p = choose|p: int| 0 <= p < sorted(range).len() && sorted(range)[p] == k;
                    assert(keys_of(found@)[p] == found@[p].0);
                    assert(order_in(found@[p].0) == o);
                    assert(kept@.contains(o));
                }
            }
            assert(kept@.to_set() =~= set);
            lemma_sorted_is(kept@, set);
        }
        let mut answers: Vec<EventOrder> = Vec::new();
        let mut left: usize = kept.len();
        while left > 0
            invariant
                left <= kept.len(),
                answers@ == kept@.skip(left as int).reverse(),
            decreases left,
        {
            left = left - 1;
            answers.push(kept[left]);
            assert(answers@ =~= kept@.skip(left as int).reverse());
        }
        proof {
            assert(kept@.skip(0) =~= kept@);
            assert forall|a: int, b: int| 0 <= a < b < answers@.len() implies (
            #[trigger] answers@[b]).le(#[trigger] answers@[a]) by {
                let n = kept@.len();
                assert(key_lt(kept@[n - 1 - b], kept@[n - 1 - a]));
                lemma_order_key(kept@[n - 1 - b], kept@[n - 1 - a]);
            }
        }
        Ok(answers)
    }

    fn all_versions_tx(event_id: ShortEventId, db: &Tables<'_>) -> (res: DbResult<
        Vec<ShortEventId>,
    >)
        ensures
            match res {
                Ok(versions) => all_versions(db@, event_id) == Ok::<_, DbError>(versions@),
                Err(e) => e.is_fault() || all_versions(db@, event_id) == Err::<
                    Seq<ShortEventId>,
                    _,
                >(e),
            },
            unread(res) ==> !db.intact(),
    {
        match db.events.get(&event_id)? {
            Some(event) => Self::social_post_versions_tx(
                event.event.author,
                event_id,
                &db.social_posts_replaces,
            ),
            None => {
                let versions: Vec<ShortEventId> = vec![event_id];
                assert(versions@ =~= seq![event_id]);
                Ok(versions)
            },
        }
    }

    fn paginate_answers_tx<V: Value, F: Fn(&Vec<u8>) -> Option<SocialPost>>(
        post_event_id: ShortEventId,
        cursor: Option<EventPaginationCursor>,
        limit: usize,
        table: &Table<'_, (ShortEventId, Timestamp, ShortEventId), V>,
        read_post: &F,
        db: &Tables<'_>,
    ) -> (res: DbResult<(Vec<SocialPostRecord<SocialPost>>, Option<EventPaginationCursor>)>)
        requires
            reads_all(*read_post),
        ensures
            match res {
                Ok((records, next)) => answers_page(
                    db@,
                    table@,
                    *read_post,
                    post_event_id,
                    cursor,
                    limit as nat,
                    records@,
                    next,
                ),
                Err(e) => e.is_fault() || answers_failed(
                    db@,
                    table@,
                    *read_post,
                    post_event_id,
                    cursor,
                    e,
                ),
            },
            unread(res) ==> !(table.intact() && db.intact()),
    {
        let versions = Self::all_versions_tx(post_event_id, db)?;
        let ghost lists = answer_lists(table@, versions@, cursor);
        let mut streams: Vec<Vec<EventOrder>> = Vec::new();
        let mut i: usize = 0;
        while i < versions.len()
            invariant
                i <= versions.len(),
                streams.len() == i,
                forall|j: int|
                    0 <= j < i ==> (#[trigger] streams@[j])@ == sorted(
                        answer_set(table@, versions@[j], cursor),
                    ).reverse() && latest_first(streams@[j]@) && answer_set(
                        table@,
                        versions@[j],
                        None,
                    ).finite(),
            decreases versions.len() - i,
        {
            let answers = Self::answers_tx(versions[i], cursor, table)?;
            let ghost before = streams@;
            streams.push(answers);
            assert forall|j: int| 0 <= j < i + 1 implies (#[trigger] streams@[j])@ == sorted(
                answer_set(table@, versions@[j], cursor),
            ).reverse() && latest_first(streams@[j]@) && answer_set(
                table@,
                versions@[j],
                None,
            ).finite() by {
                if j < i {
                    assert(streams@[j] == before[j]);
                }
            }
            i = i + 1;
        }
        assert(lists_of(streams@) =~= lists);
        assert forall|j: int| 0 <= j < versions@.len() implies answer_set(
            table@,
            #[trigger] versions@[j],
            None,
        ).finite() by {
            assert(latest_first(streams@[j]@));
        }
        let load = |ts: Timestamp, event_id: ShortEventId| -> (out: Shown)
            ensures
                (out matches Err(e) && e.is_fault()) || post_read(
                    db@,
                    *read_post,
                    event_id,
                    ts,
                    out,
                ),
                unread(out) ==> !db.intact(),
            { Self::social_post_record_by_id_tx(event_id, ts, read_post, db) };
        match paginate_social_post_index_rev(&streams, limit, load) {
            Ok(records) => {
                proof {
                    assert(is_merged_page(load, lists, limit as nat, records@));
                    let (keys, outs) = choose|
                        keys: Seq<EventOrder>,
                        outs: Seq<Option<SocialPostRecord<SocialPost>>>,
                    |
                        {
                            &&& #[trigger] is_merge(lists, keys)
                            &&& #[trigger] read_until_full(keys, outs, limit as nat)
                            &&& records@ == records_of(outs)
                            &&& forall|i: int|
                                0 <= i < outs.len() ==> call_ensures(
                                    load,
                                    (keys[i].timestamp, keys[i].event_id),
                                    Ok(#[trigger] outs[i]),
                                )
                        };
                    assert(is_merge(lists, keys));
                    assert(read_until_full(keys, outs, limit as nat));
                    assert(is_answer_page(db@, *read_post, lists, limit as nat, records@));
                }
                let next = if records.len() > 0 {
                    let last = &records[records.len() - 1];
                    Some(EventPaginationCursor { ts: last.ts, event_id: last.event_id })
                } else {
                    None
                };
                Ok((records, next))
            },
            Err(e) => {
                proof {
                    assert(position_failed(load, lists, e));
                    let o = choose|o: EventOrder| #[trigger]
                        all_of(lists).count(o) > 0 && call_ensures(
                            load,
                            (o.timestamp, o.event_id),
                            Err(e),
                        );
                    assert(e.is_fault() || post_read(
                        db@,
                        *read_post,
                        o.event_id,
                        o.timestamp,
                        Err(e),
                    ));
                }
                Err(e)
            },
        }
    }

    /// A page of comments on a post and on those that it replaced, the latest
    /// first, from behind the place given. The second result is where the
    /// page ends.
    pub fn paginate_social_post_comments_rev<F: Fn(&Vec<u8>) -> Option<SocialPost>>(
        post_event_id: ShortEventId,
        cursor: Option<EventPaginationCursor>,
        limit: usize,
        read_post: &F,
        db: &Tables<'_>,
    ) -> (res: DbResult<(Vec<SocialPostRecord<SocialPost>>, Option<EventPaginationCursor>)>)
        requires
            reads_all(*read_post),
        ensures
            match res {
                Ok((records, next)) => answers_page(
                    db@,
                    db@.social_posts_replies,
                    *read_post,
                    post_event_id,
                    cursor,
                    limit as nat,
                    records@,
                    next,
                ),
                Err(e) => e.is_fault() || answers_failed(
                    db@,
                    db@.social_posts_replies,
                    *read_post,
                    post_event_id,
                    cursor,
                    e,
                ),
            },
            unread(res) ==> !db.intact(),
    {
        Self::paginate_answers_tx(
            post_event_id,
            cursor,
            limit,
            &db.social_posts_replies,
            read_post,
            db,
        )
    }

    /// A page of reactions to a post and to those that it replaced, the latest
    /// first, from behind the place given. The second result is where the
    /// page ends.
    pub fn paginate_social_post_reactions_rev<F: Fn(&Vec<u8>) -> Option<SocialPost>>(
        post_event_id: ShortEventId,
        cursor: Option<EventPaginationCursor>,
        limit: usize,
        read_post: &F,
        db: &Tables<'_>,
    ) -> (res: DbResult<(Vec<SocialPostRecord<SocialPost>>, Option<EventPaginationCursor>)>)
        requires
            reads_all(*read_post),
        ensures
            match res {
                Ok((records, next)) => answers_page(
                    db@,
                    db@.social_posts_reactions,
                    *read_post,
                    post_event_id,
                    cursor,
                    limit as nat,
                    records@,
                    next,
                ),
                Err(e) => e.is_fault() || answers_failed(
                    db@,
                    db@.social_posts_reactions,
                    *read_post,
                    post_event_id,
                    cursor,
                    e,
                ),
            },
            unread(res) ==> !db.intact(),
    {
        Self::paginate_answers_tx(
            post_event_id,
            cursor,
            limit,
            &db.social_posts_reactions,
            read_post,
            db,
        )
    }

    /// The latest versions of the requested posts that can be read; see
    /// [`requests_answered`].
    pub fn get_posts_by_id<F: Fn(&Vec<u8>) -> Option<SocialPost>>(
        post_ids: &Vec<ShortEventId>,
        read_post: &F,
        db: &Tables<'_>,
    ) -> (res: DbResult<Vec<(ShortEventId, SocialPostRecord<SocialPost>)>>)
        requires
            reads_all(*read_post),
        ensures
            match res {
                Ok(answers) => requests_answered(db@, *read_post, post_ids@, answers@),
                Err(e) => e.is_fault() || exists|i: int|
                    0 <= i < post_ids@.len() && #[trigger] requested_read(
                        db@,
                        *read_post,
                        post_ids@[i],
                        Err(e),
                    ),
            },
            unread(res) ==> !db.intact(),
    {
        let mut answers: Vec<(ShortEventId, SocialPostRecord<SocialPost>)> = Vec::new();
        let ghost mut outs: Seq<Option<(ShortEventId, SocialPostRecord<SocialPost>)>> =
            Seq::empty();
        let mut i: usize = 0;
        assert(answers@ =~= records_of(outs));
        while i < post_ids.len()
            invariant
                reads_all(*read_post),
                i <= post_ids.len(),
                outs.len() == i,
                answers@ == records_of(outs),
                forall|j: int|
                    0 <= j < i ==> request_answer(
                        db@,
                        *read_post,
                        post_ids@[j],
                        #[trigger] outs[j],
                    ),
            decreases post_ids.len() - i,
        {
            let id = post_ids[i];
            let latest = match Self::latest_version_tx(id, db) {
                Ok(latest) => latest,
                Err(e) => {
                    assert(e.is_fault() || requested_read(db@, *read_post, post_ids@[i as int], Err(e)));
                    return Err(e);
                },
            };
            let ts = match db.events.get(&latest)? {
                Some(event) => event.event.timestamp,
                None => Timestamp::zero(),
            };
            let read = Self::social_post_record_by_id_tx(latest, ts, read_post, db);
            let ghost outcome = read;
            proof {
                if !(outcome matches Err(e) && e.is_fault()) {
                    lemma_time_of_unread(db@, *read_post, latest, ts, outcome);
                    assert(requested_read(db@, *read_post, post_ids@[i as int], outcome));
                }
            }
            let out = match read {
                Ok(out) => out,
                Err(e) => {
                    assert(e.is_fault() || requested_read(db@, *read_post, post_ids@[i as int], Err(e)));
                    return Err(e);
                },
            };
            let ghost reading = out;
            let ghost answer = match reading {
                Some(record) => Some((id, record)),
                None => None,
            };
            proof {
                let before = outs;
                outs = outs.push(answer);
                assert(outs.drop_last() =~= before);
                assert(request_answer(db@, *read_post, post_ids@[i as int], answer));
            }
            if let Some(record) = out {
                answers.push((id, record));
            }
            i = i + 1;
        }
        Ok(answers)
    }

    /// Reads whether a post of someone else mentions the local user.
    pub fn read_self_mention_tx(event_id: ShortEventId, db: &Tables<'_>) -> (res: DbResult<bool>)
        ensures
            match res {
                Ok(found) => found == db@.social_posts_self_mention.contains_key(event_id),
                Err(e) => e.is_fault(),
            },
            unread(res) ==> !db.intact(),
    {
        db.social_posts_self_mention.contains(&event_id)
    }

    /// What a reading of one mention is taken for: none where it failed.
    pub fn mention_read(read: DbResult<bool>) -> (found: bool)
        ensures
            found == (read == Ok::<bool, DbError>(true)),
    {
        match read {
            Ok(found) => found,
            Err(_) => false,
        }
    }

    /// Whether a post of someone else mentions the local user. Where that
    /// cannot be read, it counts as one that does not, and the failure is kept as
    /// passed over; [`Database::mention_read`] says what comes of each reading.
    pub fn is_self_mention(event_id: ShortEventId, db: &mut Tables<'_>) -> (found: bool)
        ensures
            match final(db).passed_over {
                None => found == old(db)@.social_posts_self_mention.contains_key(event_id),
                Some(_) => !found,
            },
            is_failure(final(db).passed_over, old(db).intact()),
            final(db)@ == old(db)@,
            final(db).intact() == old(db).intact(),
    {
        match Self::read_self_mention_tx(event_id, db) {
            Ok(found) => {
                db.passed_over = None;
                Self::mention_read(Ok(found))
            },
            Err(e) => {
                db.passed_over = Some(e);
                false
            },
        }
    }

    /// What a reading of all mentions is taken for: none where it failed.
    pub fn mentions_read(read: DbResult<Vec<ShortEventId>>) -> (ids: Vec<ShortEventId>)
        ensures
            match read {
                Ok(found) => ids == found,
                Err(_) => ids@ == Seq::<ShortEventId>::empty(),
            },
    {
        match read {
            Ok(found) => found,
            Err(_) => Vec::new(),
        }
    }

    /// The posts of others that mention the local user, in order, each once.
    /// Where they cannot be read, there are none, and the failure is kept as
    /// passed over; [`Database::mentions_read`] says what comes of each reading.
    pub fn get_self_mentions(db: &mut Tables<'_>) -> (ids: Vec<ShortEventId>)
        ensures
            match final(db).passed_over {
                None => ids@ == sorted(old(db)@.social_posts_self_mention.dom())
                    && old(db)@.social_posts_self_mention.dom().finite(),
                Some(_) => ids@ == Seq::<ShortEventId>::empty(),
            },
            is_failure(final(db).passed_over, old(db).intact()),
            final(db)@ == old(db)@,
            final(db).intact() == old(db).intact(),
    {
        match Self::read_self_mentions_tx(db) {
            Ok(ids) => {
                db.passed_over = None;
                Self::mentions_read(Ok(ids))
            },
            Err(e) => {
                db.passed_over = Some(e);
                Vec::new()
            },
        }
    }

    /// Reads the posts of others that mention the local user, in order, each
    /// once.
    pub fn read_self_mentions_tx(db: &Tables<'_>) -> (res: DbResult<Vec<ShortEventId>>)
        ensures
            match res {
                Ok(ids) => ids@ == sorted(db@.social_posts_self_mention.dom()),
                Err(e) => e.is_fault(),
            },
            res is Ok ==> db@.social_posts_self_mention.dom().finite(),
            unread(res) ==> !db.intact(),
    {
        let found = db.social_posts_self_mention.collect(
            &ShortEventId::zero(),
            &ShortEventId::max(),
        )?;
        let mut ids: Vec<ShortEventId> = Vec::new();
        let mut i: usize = 0;
        while i < found.len()
            invariant
                i <= found.len(),
                ids.len() == i,
                forall|j: int| 0 <= j < i ==> ids@[j] == (#[trigger] found@[j]).0,
            decreases found.len() - i,
        {
            ids.push(found[i].0);
            i = i + 1;
        }
        proof {
            let m = db@.social_posts_self_mention;
            assert forall|k: ShortEventId| between(
                m,
                ShortEventId::spec_zero(),
                ShortEventId::spec_max(),
            ).contains(k) <==> m.dom().contains(k) by {
                lemma_short_id_bounds(k);
            }
            assert(between(m, ShortEventId::spec_zero(), ShortEventId::spec_max()) =~= m.dom());
            assert(ids@ =~= keys_of(found@));
        }
        Ok(ids)
    }

    fn shout_tx<C, F: Fn(&Vec<u8>) -> Option<C>>(
        event_id: ShortEventId,
        received_ts: Timestamp,
        read: &F,
        db: &Tables<'_>,
    ) -> (res: DbResult<Option<ShoutboxPostRecord<C>>>)
        requires
            reads_all(*read),
        ensures
            match res {
                Ok(out) => shout_shown(db@, *read, event_id, received_ts, out),
                Err(e) => e.is_fault(),
            },
            unread(res) ==> !db.intact(),
    {
        match Self::read_payload_tx(event_id, read, db)? {
            Some((content, event)) => Ok(
                Some(
                    ShoutboxPostRecord {
                        received_ts,
                        event_id,
                        author: event.event.author,
                        content,
                    },
                ),
            ),
            None => Ok(None),
        }
    }

    /// A page of shoutbox posts by reception, from the place given or the last
    /// one back. The second result is where the next page starts.
    pub fn paginate_shoutbox_posts_by_received_at_rev<C, F: Fn(&Vec<u8>) -> Option<C>>(
        cursor: Option<ReceivedAtPaginationCursor>,
        limit: usize,
        read: &F,
        db: &Tables<'_>,
    ) -> (res: DbResult<(Vec<ShoutboxPostRecord<C>>, Option<ReceivedAtPaginationCursor>)>)
        requires
            reads_all(*read),
        ensures
            ({
                let to = match cursor {
                    Some(c) => c,
                    None => ReceivedAtPaginationCursor::spec_max(),
                };
                let keys = keys_by_reception(
                    db@.shoutbox_posts_by_received_at,
                    ReceivedAtPaginationCursor::spec_zero(),
                    to,
                ).reverse();
                match res {
                    Ok((records, next)) => shout_page(
                        db@,
                        *read,
                        keys,
                        limit as nat,
                        records@,
                        next,
                    ),
                    Err(e) => e.is_fault(),
                }
            }),
            res is Ok ==> between(
                db@.shoutbox_posts_by_received_at,
                ReceivedAtPaginationCursor::spec_zero().key(),
                (match cursor {
                    Some(c) => c,
                    None => ReceivedAtPaginationCursor::spec_max(),
                }).key(),
            ).finite(),
            unread(res) ==> !db.intact(),
    {
        let from = ReceivedAtPaginationCursor::zero();
        let to = match cursor {
            Some(c) => c,
            None => ReceivedAtPaginationCursor::max(),
        };
        let load = |key: &(Timestamp, u64), value: &ShortEventId| -> (out: DbResult<
            Option<ShoutboxPostRecord<C>>,
        >)
            ensures
                match out {
                    Ok(out) => shout_shown(db@, *read, *value, key.0, out),
                    Err(e) => e.is_fault(),
                },
                unread(out) ==> !db.intact(),
            { Self::shout_tx(*value, key.0, read, db) };
        let ghost m = db@.shoutbox_posts_by_received_at;
        let ghost keys = keys_by_reception(m, from, to).reverse();
        match Self::paginate_table_rev(
            &db.shoutbox_posts_by_received_at,
            (from.ts, from.seq),
            (to.ts, to.seq),
            limit,
            load,
        ) {
            Ok((records, next)) => {
                let cursor = match next {
                    Some((ts, seq)) => Some(ReceivedAtPaginationCursor { ts, seq }),
                    None => None,
                };
                proof {
                    let outs = choose|outs: Seq<Option<ShoutboxPostRecord<C>>>|
                        {
                            &&& #[trigger] read_until_full(keys, outs, limit as nat)
                            &&& records@ == records_of(outs)
                            &&& next == continuation(keys, outs)
                            &&& forall|i: int|
                                0 <= i < outs.len() ==> row_read::<
                                    (Timestamp, u64),
                                    ShortEventId,
                                    ShoutboxPostRecord<C>,
                                    _,
                                >(load, m, keys[i], Ok(#[trigger] outs[i]))
                        };
                    assert(read_until_full(keys, outs, limit as nat));
                    assert forall|i: int| 0 <= i < outs.len() implies shout_shown(
                        db@,
                        *read,
                        m[keys[i]],
                        keys[i].0,
                        #[trigger] outs[i],
                    ) by {
                        assert(row_read::<
                            (Timestamp, u64),
                            ShortEventId,
                            ShoutboxPostRecord<C>,
                            _,
                        >(load, m, keys[i], Ok(outs[i])));
                    }
                    assert(shout_page(db@, *read, keys, limit as nat, records@, cursor));
                }
                Ok((records, cursor))
            },
            Err(e) => Err(e),
        }
    }

    /// How many shoutbox posts were received behind a place, or at all. No
    /// more than `limit` are counted, but one is where there is one.
    pub fn count_shoutbox_posts_since(
        cursor: Option<ReceivedAtPaginationCursor>,
        limit: usize,
        db: &Tables<'_>,
    ) -> (res: DbResult<usize>)
        ensures
            match res {
                Ok(n) => {
                    let all = received_after(db@.shoutbox_posts_by_received_at, cursor);
                    let most: nat = if limit > 0 {
                        limit as nat
                    } else {
                        1
                    };
                    &&& all.finite()
                    &&& n == if all.len() < most {
                        all.len()
                    } else {
                        most
                    }
                },
                Err(e) => e.is_fault(),
            },
            unread(res) ==> !db.intact(),
    {
        let (from, to) = (ReceivedAtPaginationCursor::zero(), ReceivedAtPaginationCursor::max());
        let (lo, hi) = ((from.ts, from.seq), (to.ts, to.seq));
        let after = match cursor {
            Some(c) => Some((c.ts, c.seq)),
            None => None,
        };
        let most: usize = if limit > 0 {
            limit
        } else {
            1
        };
        proof {
            assert forall|k: (Timestamp, u64)| key_le(lo, k) && key_le(k, hi) by {
                lemma_place_bounds(k);
            }
        }
        let rows = db.shoutbox_posts_by_received_at.page_after(after, &lo, &hi, most)?;
        proof {
            let m = db@.shoutbox_posts_by_received_at;
            let all = received_after(m, cursor);
            assert(span(m, after, lo, hi) =~= all);
            lemma_sorted(all);
            assert(keys_of(rows@).len() == rows@.len());
        }
        Ok(rows.len())
    }
}

/// Every place is between the first and the last.
pub proof fn lemma_place_bounds(k: (Timestamp, u64))
    ensures
        key_le(ReceivedAtPaginationCursor::spec_zero().key(), k),
        key_le(k, ReceivedAtPaginationCursor::spec_max().key()),
{
    let (lo, hi) = (ReceivedAtPaginationCursor::spec_zero(), ReceivedAtPaginationCursor::spec_max());
    lemma_pair_lt(k.0, k.1, lo.ts, lo.seq);
    lemma_pair_lt(hi.ts, hi.seq, k.0, k.1);
    lemma_timestamp_bounds(k.0);
    lemma_lt_single(k.1, lo.seq);
    lemma_lt_single(hi.seq, k.1);
}

/// The place of an answer.
spec fn order_in(k: (ShortEventId, Timestamp, ShortEventId)) -> EventOrder {
    EventOrder { timestamp: k.1, event_id: k.2 }
}

proof fn lemma_answer_range(version: ShortEventId, k: (ShortEventId, Timestamp, ShortEventId))
    ensures
        key_le((version, Timestamp::spec_zero(), ShortEventId::spec_zero()), k) && key_le(
            k,
            (version, Timestamp::spec_max(), ShortEventId::spec_max()),
        ) <==> k.0 == version,
{
    let lo = (version, Timestamp::spec_zero(), ShortEventId::spec_zero());
    let hi = (version, Timestamp::spec_max(), ShortEventId::spec_max());
    lemma_triple_lt(k, lo);
    lemma_triple_lt(hi, k);
    lemma_timestamp_bounds(k.1);
    lemma_short_id_bounds(k.2);
    lemma_key_irreflexive(version);
    lemma_key_total(version, k.0);
    if key_lt(version, k.0) {
        lemma_key_asymmetric(version, k.0);
    }
}

/// A version with finitely many rows has finitely many answers.
proof fn lemma_answers_finite<M>(
    m: Map<(ShortEventId, Timestamp, ShortEventId), M>,
    version: ShortEventId,
)
    requires
        between(
            m,
            (version, Timestamp::spec_zero(), ShortEventId::spec_zero()),
            (version, Timestamp::spec_max(), ShortEventId::spec_max()),
        ).finite(),
    ensures
        answer_set(m, version, None).finite(),
{
    let range = between(
        m,
        (version, Timestamp::spec_zero(), ShortEventId::spec_zero()),
        (version, Timestamp::spec_max(), ShortEventId::spec_max()),
    );
    let f = |k: (ShortEventId, Timestamp, ShortEventId)| order_in(k);
    range.lemma_map_finite(f);
    assert forall|o: EventOrder| answer_set(m, version, None).contains(o) implies range.map(
        f,
    ).contains(o) by {
        let k = (version, o.timestamp, o.event_id);
        lemma_answer_range(version, k);
        assert(range.contains(k));
        assert(f(k) == o);
    }
    vstd::set_lib::lemma_set_subset_finite(range.map(f), answer_set(m, version, None));
}

proof fn lemma_answer_order(
    version: ShortEventId,
    a: (ShortEventId, Timestamp, ShortEventId),
    b: (ShortEventId, Timestamp, ShortEventId),
)
    requires
        a.0 == version,
        b.0 == version,
        key_lt(a, b),
    ensures
        key_lt(order_in(a), order_in(b)),
{
    lemma_triple_lt(a, b);
    lemma_key_irreflexive(version);
    lemma_pair_lt(a.1, a.2, b.1, b.2);
}

proof fn lemma_order_key(x: EventOrder, y: EventOrder)
    ensures
        key_lt(x, y) <==> x.lt(y),
{
    crate::ids::lemma_order_key(x, y);
}

/// Where nothing can be read, it does not matter at which time.
proof fn lemma_time_of_unread<F: Fn(&Vec<u8>) -> Option<SocialPost>>(
    db: DbState,
    read_post: F,
    id: ShortEventId,
    ts: Timestamp,
    res: DbResult<Option<SocialPostRecord<SocialPost>>>,
)
    requires
        post_read(db, read_post, id, ts, res),
        db.events.contains_key(id) ==> ts == db.events[id].event.timestamp,
    ensures
        post_read(db, read_post, id, db.events[id].event.timestamp, res),
{
    let post = choose|post: Option<SocialPost>|
        reads_as(read_post, payload_of(db, id), post) && res == #[trigger] record_of(
            db,
            id,
            ts,
            post,
        );
    assert(res == record_of(db, id, db.events[id].event.timestamp, post));
}

}
