//! Who follows whom.

use vstd::prelude::*;

use crate::database::Database;
use crate::error::{did, unread, DbResult};
use crate::ids::{lemma_order_key, EventOrder, RostraId, ShortEventId, Timestamp};
use crate::listing::{key_le, key_lt, lemma_key_irreflexive, lemma_key_total, lemma_pair_lt};
use crate::table::{
    is_first_from, Table, bytes_of_words, lemma_bytes_of_words, parse_bytes, push_bytes,
    words_of_bytes, Value,
};
use crate::tables::{DbState, IdsFollowersRecord, IdsUnfollowedRecord, Tables};
use crate::words::{to_words, Words};

verus! {

/// An active follow.
#[derive(Debug)]
pub struct IdsFolloweesRecord {
    /// The follow event that counts.
    pub latest: EventOrder,
    /// The time of the first follow event of the current epoch.
    pub first_ts: Timestamp,
    /// Which posts the follower wants to see, as the follower wrote it.
    pub selector: Vec<u8>,
}

/// What an active follow stands for.
pub ghost struct FolloweesModel {
    pub latest: EventOrder,
    pub first_ts: Timestamp,
    pub selector: Seq<u8>,
}

impl Value for IdsFolloweesRecord {
    type Model = FolloweesModel;

    open spec fn model(self) -> FolloweesModel {
        FolloweesModel { latest: self.latest, first_ts: self.first_ts, selector: self.selector@ }
    }

    open spec fn encoded(m: FolloweesModel) -> Seq<u64> {
        (m.latest, m.first_ts).words() + words_of_bytes(m.selector)
    }

    open spec fn decoded(w: Seq<u64>) -> Option<FolloweesModel> {
        if w.len() < 4 {
            None
        } else {
            match (<(EventOrder, Timestamp)>::parsed(w.take(4)), bytes_of_words(w.skip(4))) {
                (Some(head), Some(selector)) => Some(
                    FolloweesModel { latest: head.0, first_ts: head.1, selector },
                ),
                _ => None,
            }
        }
    }

    proof fn lemma_decoded(m: FolloweesModel) {
        let head = (m.latest, m.first_ts);
        head.lemma_round_trip();
        lemma_bytes_of_words(m.selector);
        let w = Self::encoded(m);
        assert(w.take(4) =~= head.words());
        assert(w.skip(4) =~= words_of_bytes(m.selector));
    }

    fn encode(&self) -> (w: Vec<u64>) {
        let mut w: Vec<u64> = to_words(&(self.latest, self.first_ts));
        push_bytes(&self.selector, &mut w);
        w
    }

    fn decode(w: &Vec<u64>) -> (res: Option<Self>) {
        match <(EventOrder, Timestamp)>::parse_at(w, 0) {
            Some((head, next)) => {
                assert(w@.subrange(0, 4) =~= w@.take(4));
                match parse_bytes(w, next) {
                    Some(selector) => Some(
                        IdsFolloweesRecord { latest: head.0, first_ts: head.1, selector },
                    ),
                    None => None,
                }
            },
            None => {
                proof {
                    if w@.len() >= 4 {
                        assert(w@.subrange(0, 4) =~= w@.take(4));
                    }
                }
                None
            },
        }
    }
}

/// A row of follow history: follower, followee, time and event.
pub type FollowKey = (RostraId, RostraId, Timestamp, ShortEventId);

/// The history row of a follow event.
pub open spec fn follow_key(author: RostraId, followee: RostraId, o: EventOrder) -> FollowKey {
    (author, followee, o.timestamp, o.event_id)
}

/// The follow events of a pair that the history holds.
pub open spec fn history(m: Map<FollowKey, ()>, author: RostraId, followee: RostraId) -> Set<
    EventOrder,
> {
    Set::new(|o: EventOrder| m.contains_key(follow_key(author, followee, o)))
}

/// The follow events of a pair behind a boundary.
pub open spec fn epoch(
    m: Map<FollowKey, ()>,
    author: RostraId,
    followee: RostraId,
    boundary: Option<EventOrder>,
) -> Set<EventOrder> {
    Set::new(
        |o: EventOrder|
            m.contains_key(follow_key(author, followee, o)) && match boundary {
                Some(b) => b.lt(o),
                None => true,
            },
    )
}

/// No other event of the set is before this one.
pub open spec fn is_earliest(s: Set<EventOrder>, o: EventOrder) -> bool {
    s.contains(o) && forall|x: EventOrder| #[trigger] s.contains(x) ==> o.le(x)
}

/// The time of the earliest event of a set, if it has any.
pub open spec fn earliest_ts(s: Set<EventOrder>) -> Option<Timestamp> {
    if exists|o: EventOrder| is_earliest(s, o) {
        Some((choose|o: EventOrder| is_earliest(s, o)).timestamp)
    } else {
        None
    }
}

/// The boundary of the current epoch of a pair.
pub open spec fn boundary_of(
    m: Map<(RostraId, RostraId), IdsUnfollowedRecord>,
    key: (RostraId, RostraId),
) -> Option<EventOrder> {
    if m.contains_key(key) {
        Some(EventOrder { timestamp: m[key].ts, event_id: m[key].event_id })
    } else {
        None
    }
}

/// The history without the events of a pair up to a boundary.
pub open spec fn history_cut(
    m: Map<FollowKey, ()>,
    author: RostraId,
    followee: RostraId,
    boundary: EventOrder,
) -> Map<FollowKey, ()> {
    Map::new(
        |k: FollowKey|
            m.contains_key(k) && !(k.0 == author && k.1 == followee && (EventOrder {
                timestamp: k.2,
                event_id: k.3,
            }).le(boundary)),
        |k: FollowKey| (),
    )
}

/// A follow event: nothing where it belongs to an epoch that is over. Else it
/// goes into the history; the follow with the greatest order decides on the
/// selector, the earliest of the epoch on its start. The result says whether
/// the active follow changed.
pub open spec fn followed(
    db: DbState,
    author: RostraId,
    order: EventOrder,
    followee: RostraId,
    selector: Seq<u8>,
) -> (bool, DbState) {
    let key = (author, followee);
    let boundary = boundary_of(db.ids_unfollowed, key);
    if boundary matches Some(b) && order.le(b) {
        (false, db)
    } else {
        let noted = DbState {
            ids_follow_events: db.ids_follow_events.insert(
                follow_key(author, followee, order),
                (),
            ),
            ..db
        };
        let first = earliest_ts(epoch(noted.ids_follow_events, author, followee, boundary));
        if db.ids_followees.contains_key(key) && order.le(db.ids_followees[key].latest) {
            let active = db.ids_followees[key];
            let first_ts = first.unwrap_or(active.latest.timestamp);
            if first_ts == active.first_ts {
                (false, noted)
            } else {
                (
                    true,
                    DbState {
                        ids_followees: db.ids_followees.insert(
                            key,
                            FolloweesModel { first_ts, ..active },
                        ),
                        ..noted
                    },
                )
            }
        } else {
            (
                true,
                DbState {
                    ids_followees: db.ids_followees.insert(
                        key,
                        FolloweesModel {
                            latest: order,
                            first_ts: first.unwrap_or(order.timestamp),
                            selector,
                        },
                    ),
                    ids_followers: db.ids_followers.insert((followee, author), IdsFollowersRecord),
                    ..noted
                },
            )
        }
    }
}

/// An unfollow event: nothing where a later one was seen. Else it ends the
/// epoch and its history; a follow behind it stays active, with its start
/// behind the new boundary. The result says whether anything changed.
pub open spec fn unfollowed(
    db: DbState,
    author: RostraId,
    order: EventOrder,
    followee: RostraId,
) -> (bool, DbState) {
    let key = (author, followee);
    if boundary_of(db.ids_unfollowed, key) matches Some(b) && order.le(b) {
        (false, db)
    } else {
        let ended = DbState {
            ids_unfollowed: db.ids_unfollowed.insert(
                key,
                IdsUnfollowedRecord { ts: order.timestamp, event_id: order.event_id },
            ),
            ids_follow_events: history_cut(db.ids_follow_events, author, followee, order),
            ..db
        };
        if db.ids_followees.contains_key(key) && order.lt(db.ids_followees[key].latest) {
            let active = db.ids_followees[key];
            let first = earliest_ts(epoch(ended.ids_follow_events, author, followee, Some(order)));
            (
                true,
                DbState {
                    ids_followees: db.ids_followees.insert(
                        key,
                        FolloweesModel {
                            first_ts: first.unwrap_or(active.latest.timestamp),
                            ..active
                        },
                    ),
                    ..ended
                },
            )
        } else {
            (
                true,
                DbState {
                    ids_followees: db.ids_followees.remove(key),
                    ids_followers: db.ids_followers.remove((followee, author)),
                    ..ended
                },
            )
        }
    }
}

/// History rows are ordered by pair, then as events are.
proof fn lemma_follow_key_lt(x: FollowKey, y: FollowKey)
    ensures
        key_lt(x, y) <==> key_lt((x.0, x.1), (y.0, y.1)) || ((x.0, x.1) == (y.0, y.1)
            && (EventOrder { timestamp: x.2, event_id: x.3 }).lt(
            EventOrder { timestamp: y.2, event_id: y.3 },
        )),
{
    let rx = (x.1, (x.2, x.3));
    let ry = (y.1, (y.2, y.3));
    lemma_pair_lt(x.0, rx, y.0, ry);
    lemma_pair_lt(x.1, (x.2, x.3), y.1, (y.2, y.3));
    lemma_pair_lt(x.0, x.1, y.0, y.1);
    lemma_order_key(
        EventOrder { timestamp: x.2, event_id: x.3 },
        EventOrder { timestamp: y.2, event_id: y.3 },
    );
}

pub proof fn lemma_earliest(s: Set<EventOrder>, o: EventOrder)
    requires
        is_earliest(s, o),
    ensures
        earliest_ts(s) == Some(o.timestamp),
{
    let c = choose|c: EventOrder| is_earliest(s, c);
    assert(s.contains(c) && s.contains(o));
}

proof fn lemma_no_earliest(s: Set<EventOrder>)
    requires
        forall|o: EventOrder| !#[trigger] s.contains(o),
    ensures
        earliest_ts(s) is None,
{
}

impl Database {
    /// The earliest time of a follow behind the boundary.
    pub fn first_follow_ts_after_tx(
        author: RostraId,
        followee: RostraId,
        boundary: Option<EventOrder>,
        follow_events: &Table<'_, FollowKey, ()>,
    ) -> (res: DbResult<Option<Timestamp>>)
        ensures
            match res {
                Ok(ts) => ts == earliest_ts(epoch(follow_events@, author, followee, boundary)),
                Err(e) => e.is_fault(),
            },
            unread(res) ==> !follow_events.intact(),
    {
        let ghost s = epoch(follow_events@, author, followee, boundary);
        let least = (author, followee, Timestamp::zero(), ShortEventId::zero());
        let found = match boundary {
            Some(b) => follow_events.first_after(&(author, followee, b.timestamp, b.event_id))?,
            None => follow_events.first_from(&least)?,
        };
        proof {
            let lower = match boundary {
                Some(b) => follow_key(author, followee, b),
                None => least,
            };
            assert forall|o: EventOrder| #[trigger] s.contains(o) implies follow_events@.contains_key(
                follow_key(author, followee, o),
            ) && (boundary is Some ==> key_lt(lower, follow_key(author, followee, o)))
                && key_le(lower, follow_key(author, followee, o)) by {
                lemma_follow_key_lt(lower, follow_key(author, followee, o));
                lemma_follow_key_lt(follow_key(author, followee, o), lower);
                lemma_key_irreflexive((author, followee));
            }
            match found {
                Some((k, _)) => {
                    let o = EventOrder { timestamp: k.2, event_id: k.3 };
                    lemma_follow_key_lt(lower, k);
                    lemma_follow_key_lt(k, lower);
                    lemma_key_irreflexive((author, followee));
                    if k.0 == author && k.1 == followee {
                        assert(follow_key(author, followee, o) == k);
                        assert(s.contains(o));
                        assert forall|x: EventOrder| #[trigger] s.contains(x) implies o.le(x) by {
                            lemma_follow_key_lt(follow_key(author, followee, x), k);
                            assert(follow_events@.contains_key(follow_key(author, followee, x)));
                        }
                        lemma_earliest(s, o);
                    } else {
                        assert forall|x: EventOrder| !#[trigger] s.contains(x) by {
                            if s.contains(x) {
                                lemma_follow_key_lt(follow_key(author, followee, x), k);
                                lemma_key_total((author, followee), (k.0, k.1));
                                assert(key_lt((author, followee), (k.0, k.1)));
                            }
                        }
                        lemma_no_earliest(s);
                    }
                },
                None => {
                    assert forall|x: EventOrder| !#[trigger] s.contains(x) by {
                        if s.contains(x) {
                            assert(follow_events@.contains_key(follow_key(author, followee, x)));
                        }
                    }
                    lemma_no_earliest(s);
                },
            }
        }
        match found {
            Some((key, _)) => if key.0 == author && key.1 == followee {
                Ok(Some(key.2))
            } else {
                Ok(None)
            },
            None => Ok(None),
        }
    }

    /// Drops the history of a pair up to a boundary.
    pub fn prune_follow_events_through_tx(
        author: RostraId,
        followee: RostraId,
        boundary: EventOrder,
        follow_events: &mut Table<'_, FollowKey, ()>,
    ) -> (res: DbResult<()>)
        ensures
            match res {
                Ok(()) => final(follow_events)@ == history_cut(
                    old(follow_events)@,
                    author,
                    followee,
                    boundary,
                ),
                Err(e) => e.is_fault(),
            },
            unread(res) ==> !old(follow_events).intact(),
            res is Ok && old(follow_events).intact() ==> final(follow_events).intact(),
    {
        let least = (author, followee, Timestamp::zero(), ShortEventId::zero());
        let last = (author, followee, boundary.timestamp, boundary.event_id);
        let ghost cut = history_cut(old(follow_events)@, author, followee, boundary);
        let mut next = follow_events.first_from(&least)?;
        loop
            invariant
                least == (author, followee, Timestamp::spec_zero(), ShortEventId::spec_zero()),
                last == (author, followee, boundary.timestamp, boundary.event_id),
                cut == history_cut(old(follow_events)@, author, followee, boundary),
                follow_events@.dom().finite(),
                history_cut(follow_events@, author, followee, boundary) == cut,
                old(follow_events).intact() ==> follow_events.intact(),
                match next {
                    Some((k, _)) => is_first_from(follow_events@, least, k),
                    None => forall|k: FollowKey| #[trigger]
                        follow_events@.contains_key(k) ==> key_lt(k, least),
                },
            decreases follow_events@.dom().len(),
        {
            match next {
                Some((key, _)) => {
                    let position = EventOrder { timestamp: key.2, event_id: key.3 };
                    if key.0 == author && key.1 == followee && !boundary.before(&position) {
                        let ghost before = follow_events@;
                        follow_events.remove(&key)?;
                        proof {
                            assert(before.dom().contains(key));
                            assert(follow_events@.dom() =~= before.dom().remove(key));
                            assert(history_cut(follow_events@, author, followee, boundary) =~= cut);
                        }
                        next = follow_events.first_from(&least)?;
                    } else {
                        proof {
                            assert forall|k: FollowKey| #[trigger]
                                follow_events@.contains_key(k) implies cut.contains_key(k) by {
                                if k.0 == author && k.1 == followee {
                                    let o = EventOrder { timestamp: k.2, event_id: k.3 };
                                    lemma_follow_key_lt(k, least);
                                    lemma_follow_key_lt(k, key);
                                    lemma_follow_key_lt(key, least);
                                    lemma_key_irreflexive((author, followee));
                                    lemma_key_total((author, followee), (key.0, key.1));
                                    assert(key_le(least, k));
                                    assert(key_le(key, k));
                                    assert(!o.le(boundary));
                                }
                            }
                            assert(follow_events@ =~= cut);
                        }
                        return Ok(());
                    }
                },
                None => {
                    proof {
                        assert forall|k: FollowKey| #[trigger]
                            follow_events@.contains_key(k) implies cut.contains_key(k) by {
                            if k.0 == author && k.1 == followee {
                                lemma_follow_key_lt(k, least);
                                lemma_key_irreflexive((author, followee));
                            }
                        }
                        assert(follow_events@ =~= cut);
                    }
                    return Ok(());
                },
            }
        }
    }
}

impl Database {
    /// Applies a follow event; see [`followed`].
    pub fn insert_follow_tx(
        author: RostraId,
        event_order: EventOrder,
        followee: RostraId,
        selector: Vec<u8>,
        db: &mut Tables<'_>,
    ) -> (res: DbResult<bool>)
        ensures
            did(
                res,
                final(db)@,
                followed(old(db)@, author, event_order, followee, selector@),
            ),
            unread(res) ==> !old(db).intact(),
            res is Ok && old(db).intact() ==> final(db).intact(),
    {
        let key = (author, followee);
        let boundary = match db.ids_unfollowed.get(&key)? {
            Some(record) => Some(
                EventOrder { timestamp: record.ts, event_id: record.event_id },
            ),
            None => None,
        };
        if let Some(boundary) = boundary {
            if !boundary.before(&event_order) {
                return Ok(false);
            }
        }
        db.ids_follow_events.insert(
            &(author, followee, event_order.timestamp, event_order.event_id),
            &(),
        )?;
        let first = Self::first_follow_ts_after_tx(
            author,
            followee,
            boundary,
            &db.ids_follow_events,
        )?;
        if let Some(active) = db.ids_followees.get(&key)? {
            if !active.latest.before(&event_order) {
                let first_ts = match first {
                    Some(ts) => ts,
                    None => active.latest.timestamp,
                };
                if first_ts == active.first_ts {
                    return Ok(false);
                }
                let active = IdsFolloweesRecord { first_ts, ..active };
                db.ids_followees.insert(&key, &active)?;
                return Ok(true);
            }
        }
        let first_ts = match first {
            Some(ts) => ts,
            None => event_order.timestamp,
        };
        db.ids_followees.insert(
            &key,
            &IdsFolloweesRecord { latest: event_order, first_ts, selector },
        )?;
        db.ids_followers.insert(&(followee, author), &IdsFollowersRecord)?;
        Ok(true)
    }

    /// Applies an unfollow event; see [`unfollowed`].
    pub fn insert_unfollow_tx(
        author: RostraId,
        event_order: EventOrder,
        followee: RostraId,
        db: &mut Tables<'_>,
    ) -> (res: DbResult<bool>)
        ensures
            did(res, final(db)@, unfollowed(old(db)@, author, event_order, followee)),
            unread(res) ==> !old(db).intact(),
            res is Ok && old(db).intact() ==> final(db).intact(),
    {
        let key = (author, followee);
        if let Some(record) = db.ids_unfollowed.get(&key)? {
            let boundary = EventOrder { timestamp: record.ts, event_id: record.event_id };
            if !boundary.before(&event_order) {
                return Ok(false);
            }
        }
        db.ids_unfollowed.insert(
            &key,
            &IdsUnfollowedRecord {
                ts: event_order.timestamp,
                event_id: event_order.event_id,
            },
        )?;
        Self::prune_follow_events_through_tx(
            author,
            followee,
            event_order,
            &mut db.ids_follow_events,
        )?;
        if let Some(active) = db.ids_followees.get(&key)? {
            if event_order.before(&active.latest) {
                let first_ts = match Self::first_follow_ts_after_tx(
                    author,
                    followee,
                    Some(event_order),
                    &db.ids_follow_events,
                )? {
                    Some(ts) => ts,
                    None => active.latest.timestamp,
                };
                let active = IdsFolloweesRecord { first_ts, ..active };
                db.ids_followees.insert(&key, &active)?;
                return Ok(true);
            }
        }
        db.ids_followees.remove(&key)?;
        db.ids_followers.remove(&(followee, author))?;
        Ok(true)
    }
}

/// No other event of the set is behind this one.
pub open spec fn is_latest(s: Set<EventOrder>, o: EventOrder) -> bool {
    s.contains(o) && forall|x: EventOrder| #[trigger] s.contains(x) ==> x.le(o)
}

/// The rows of a pair say what its follow history says: the history lies
/// behind the boundary; there is an active follow, seen from both sides, just
/// where there is history; it is the latest event, and its epoch starts with
/// the earliest.
pub open spec fn settled(db: DbState, author: RostraId, followee: RostraId) -> bool {
    let key = (author, followee);
    let past = history(db.ids_follow_events, author, followee);
    &&& past.finite()
    &&& boundary_of(db.ids_unfollowed, key) matches Some(b) ==> forall|o: EventOrder| #[trigger]
        past.contains(o) ==> b.lt(o)
    &&& db.ids_followees.contains_key(key) <==> past.len() > 0
    &&& db.ids_followers.contains_key((followee, author)) <==> past.len() > 0
    &&& db.ids_followees.contains_key(key) ==> {
        &&& is_latest(past, db.ids_followees[key].latest)
        &&& earliest_ts(past) == Some(db.ids_followees[key].first_ts)
    }
}

pub proof fn lemma_has_earliest(s: Set<EventOrder>) -> (o: EventOrder)
    requires
        s.finite(),
        s.len() > 0,
    ensures
        is_earliest(s, o),
    decreases s.len(),
{
    let c = s.choose();
    let rest = s.remove(c);
    if rest.len() == 0 {
        assert forall|x: EventOrder| #[trigger] s.contains(x) implies c.le(x) by {
            if x != c {
                assert(rest.contains(x));
            }
        }
        c
    } else {
        let o = lemma_has_earliest(rest);
        let least = if c.lt(o) {
            c
        } else {
            o
        };
        assert forall|x: EventOrder| #[trigger] s.contains(x) implies least.le(x) by {
            if x != c {
                assert(rest.contains(x));
            }
        }
        least
    }
}

proof fn lemma_pair_untouched(
    m: Map<FollowKey, ()>,
    author: RostraId,
    followee: RostraId,
    o: EventOrder,
    a: RostraId,
    f: RostraId,
)
    requires
        (a, f) != (author, followee),
    ensures
        history(m.insert(follow_key(author, followee, o), ()), a, f) == history(m, a, f),
        history(history_cut(m, author, followee, o), a, f) == history(m, a, f),
{
    assert(history(m.insert(follow_key(author, followee, o), ()), a, f) =~= history(m, a, f));
    assert(history(history_cut(m, author, followee, o), a, f) =~= history(m, a, f));
}

/// A follow event leaves the rows of every pair in accord with its history.
pub proof fn law_follow_settled(
    db: DbState,
    author: RostraId,
    order: EventOrder,
    followee: RostraId,
    selector: Seq<u8>,
    a: RostraId,
    f: RostraId,
)
    requires
        settled(db, a, f),
    ensures
        settled(followed(db, author, order, followee, selector).1, a, f),
{
    let after = followed(db, author, order, followee, selector).1;
    let boundary = boundary_of(db.ids_unfollowed, (author, followee));
    if (a, f) != (author, followee) {
        lemma_pair_untouched(db.ids_follow_events, author, followee, order, a, f);
    } else if !(boundary matches Some(b) && order.le(b)) {
        let past = history(db.ids_follow_events, a, f);
        let now = history(after.ids_follow_events, a, f);
        assert(now =~= past.insert(order));
        assert(epoch(after.ids_follow_events, a, f, boundary) =~= now);
        let first = lemma_has_earliest(now);
        lemma_earliest(now, first);
        assert(now.contains(order));
        if past.len() > 0 {
            let latest = db.ids_followees[(a, f)].latest;
            assert(past.contains(latest));
        } else {
            assert(past =~= Set::empty());
        }
        assert(is_latest(now, after.ids_followees[(a, f)].latest));
    }
}

/// An unfollow event leaves the rows of every pair in accord with its history.
pub proof fn law_unfollow_settled(
    db: DbState,
    author: RostraId,
    order: EventOrder,
    followee: RostraId,
    a: RostraId,
    f: RostraId,
)
    requires
        settled(db, a, f),
    ensures
        settled(unfollowed(db, author, order, followee).1, a, f),
{
    let after = unfollowed(db, author, order, followee).1;
    let boundary = boundary_of(db.ids_unfollowed, (author, followee));
    if (a, f) != (author, followee) {
        lemma_pair_untouched(db.ids_follow_events, author, followee, order, a, f);
    } else if !(boundary matches Some(b) && order.le(b)) {
        let past = history(db.ids_follow_events, a, f);
        let now = history(after.ids_follow_events, a, f);
        assert(now =~= past.filter(|o: EventOrder| order.lt(o)));
        past.lemma_len_filter(|o: EventOrder| order.lt(o));
        assert(epoch(after.ids_follow_events, a, f, Some(order)) =~= now);
        if past.len() > 0 && order.lt(db.ids_followees[(a, f)].latest) {
            assert(now.contains(db.ids_followees[(a, f)].latest));
            assert(now.len() > 0) by {
                if now.len() == 0 {
                    assert(now =~= Set::empty());
                }
            }
            let first = lemma_has_earliest(now);
            lemma_earliest(now, first);
        } else {
            assert forall|o: EventOrder| !now.contains(o) by {
                if now.contains(o) {
                    assert(past.contains(o));
                    if past.len() == 0 {
                        assert(past =~= Set::empty());
                    }
                }
            }
            assert(now =~= Set::empty());
        }
    }
}

/// The state after a follow and an unfollow of one pair does not depend on
/// which of the two events came first.
pub proof fn law_follow_unfollow_commute(
    db: DbState,
    author: RostraId,
    followee: RostraId,
    follow: EventOrder,
    selector: Seq<u8>,
    unfollow: EventOrder,
)
    requires
        settled(db, author, followee),
    ensures
        unfollowed(followed(db, author, follow, followee, selector).1, author, unfollow, followee).1
            == followed(
            unfollowed(db, author, unfollow, followee).1,
            author,
            follow,
            followee,
            selector,
        ).1,
{
    let key = (author, followee);
    let b = boundary_of(db.ids_unfollowed, key);
    let f1 = followed(db, author, follow, followee, selector).1;
    let fu = unfollowed(f1, author, unfollow, followee).1;
    let u1 = unfollowed(db, author, unfollow, followee).1;
    let uf = followed(u1, author, follow, followee, selector).1;
    law_follow_settled(db, author, follow, followee, selector, author, followee);
    law_unfollow_settled(db, author, unfollow, followee, author, followee);
    law_unfollow_settled(f1, author, unfollow, followee, author, followee);
    law_follow_settled(u1, author, follow, followee, selector, author, followee);
    if !(b matches Some(x) && unfollow.le(x)) && !(b matches Some(x) && follow.le(x)) {
        assert(fu.ids_follow_events =~= uf.ids_follow_events);
        assert(fu.ids_unfollowed =~= uf.ids_unfollowed);
        assert(fu.ids_followers =~= uf.ids_followers);
        assert(fu.ids_followees =~= uf.ids_followees);
    }
    assert(fu =~= uf);
}

/// The state after two follows of one pair, by different events, does not
/// depend on which of them came first.
pub proof fn law_follows_commute(
    db: DbState,
    author: RostraId,
    followee: RostraId,
    x: EventOrder,
    selector_x: Seq<u8>,
    y: EventOrder,
    selector_y: Seq<u8>,
)
    requires
        settled(db, author, followee),
        x != y,
    ensures
        followed(followed(db, author, x, followee, selector_x).1, author, y, followee, selector_y).1
            == followed(
            followed(db, author, y, followee, selector_y).1,
            author,
            x,
            followee,
            selector_x,
        ).1,
{
    let fx = followed(db, author, x, followee, selector_x).1;
    let xy = followed(fx, author, y, followee, selector_y).1;
    let fy = followed(db, author, y, followee, selector_y).1;
    let yx = followed(fy, author, x, followee, selector_x).1;
    law_follow_settled(db, author, x, followee, selector_x, author, followee);
    law_follow_settled(db, author, y, followee, selector_y, author, followee);
    law_follow_settled(fx, author, y, followee, selector_y, author, followee);
    law_follow_settled(fy, author, x, followee, selector_x, author, followee);
    assert(xy.ids_follow_events =~= yx.ids_follow_events);
    assert(xy.ids_followers =~= yx.ids_followers);
    assert(xy.ids_followees =~= yx.ids_followees);
    assert(xy =~= yx);
}

/// The state after two unfollows of one pair does not depend on which of them
/// came first.
pub proof fn law_unfollows_commute(
    db: DbState,
    author: RostraId,
    followee: RostraId,
    x: EventOrder,
    y: EventOrder,
)
    requires
        settled(db, author, followee),
    ensures
        unfollowed(unfollowed(db, author, x, followee).1, author, y, followee).1 == unfollowed(
            unfollowed(db, author, y, followee).1,
            author,
            x,
            followee,
        ).1,
{
    let ux = unfollowed(db, author, x, followee).1;
    let xy = unfollowed(ux, author, y, followee).1;
    let uy = unfollowed(db, author, y, followee).1;
    let yx = unfollowed(uy, author, x, followee).1;
    law_unfollow_settled(db, author, x, followee, author, followee);
    law_unfollow_settled(db, author, y, followee, author, followee);
    law_unfollow_settled(ux, author, y, followee, author, followee);
    law_unfollow_settled(uy, author, x, followee, author, followee);
    assert(xy.ids_follow_events =~= yx.ids_follow_events);
    assert(xy.ids_unfollowed =~= yx.ids_unfollowed);
    assert(xy.ids_followers =~= yx.ids_followers);
    assert(xy.ids_followees =~= yx.ids_followees);
    assert(xy =~= yx);
}

}
