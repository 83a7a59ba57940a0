//! What follows and unfollows leave behind: whom a user follows, since when, and
//! what they want to see.

use vstd::prelude::*;

use crate::database::Database;
use crate::event::VerifiedEvent;
use crate::follow::{
    earliest_ts, epoch, follow_key, followed, history, is_earliest, law_follow_settled,
    law_unfollow_settled, lemma_earliest, lemma_has_earliest, settled, unfollowed, FollowKey,
};
use crate::ids::{EventOrder, RostraId, Timestamp};
use crate::payload::{Action, Follow, Payload};
use crate::process_content::content_processed;
use crate::tables::DbState;

verus! {

/// The follow event comes behind the unfollow events seen of the pair, if any.
pub open spec fn behind_unfollows(
    db: DbState,
    author: RostraId,
    followee: RostraId,
    order: EventOrder,
) -> bool {
    db.ids_unfollowed.contains_key((author, followee)) ==> {
        let end = db.ids_unfollowed[(author, followee)];
        (EventOrder { timestamp: end.ts, event_id: end.event_id }).lt(order)
    }
}

/// A follow event that is not over becomes the follow that counts where it is
/// the latest of its pair: whom it follows is then kept with the selector that
/// it was written with, byte for byte. An earlier one leaves selector and
/// latest event as they were. No other pair is touched, and one that is over
/// changes nothing.
pub proof fn law_selector_kept(
    db: DbState,
    author: RostraId,
    order: EventOrder,
    followee: RostraId,
    selector: Seq<u8>,
)
    ensures
        ({
            let key = (author, followee);
            let after = followed(db, author, order, followee, selector).1;
            let latest = db.ids_followees.contains_key(key) ==> db.ids_followees[key].latest.lt(
                order,
            );
            &&& !behind_unfollows(db, author, followee, order) ==> after == db
            &&& behind_unfollows(db, author, followee, order) && latest ==> {
                &&& after.ids_followees.contains_key(key)
                &&& after.ids_followees[key].selector == selector
                &&& after.ids_followees[key].latest == order
                &&& after.ids_followers.contains_key((followee, author))
            }
            &&& behind_unfollows(db, author, followee, order) && !latest ==> {
                &&& after.ids_followees.contains_key(key)
                &&& after.ids_followees[key].selector == db.ids_followees[key].selector
                &&& after.ids_followees[key].latest == db.ids_followees[key].latest
            }
            &&& behind_unfollows(db, author, followee, order) ==> after.ids_follow_events
                == db.ids_follow_events.insert(follow_key(author, followee, order), ())
            &&& after.ids_followees.remove(key) == db.ids_followees.remove(key)
            &&& after.ids_followers.remove((followee, author)) == db.ids_followers.remove(
                (followee, author),
            )
            &&& after == (DbState {
                ids_follow_events: after.ids_follow_events,
                ids_followees: after.ids_followees,
                ids_followers: after.ids_followers,
                ..db
            })
        }),
{
    let key = (author, followee);
    let after = followed(db, author, order, followee, selector).1;
    assert(after.ids_followees.remove(key) =~= db.ids_followees.remove(key));
    assert(after.ids_followers.remove((followee, author)) =~= db.ids_followers.remove(
        (followee, author),
    ));
}

/// The selector of an active follow is the one that its latest event was
/// written with, where `written` says with which each event of the pair was.
pub open spec fn selector_of_latest(
    db: DbState,
    author: RostraId,
    followee: RostraId,
    written: Map<EventOrder, Seq<u8>>,
) -> bool {
    db.ids_followees.contains_key((author, followee)) ==> {
        let active = db.ids_followees[(author, followee)];
        written.contains_key(active.latest) && written[active.latest] == active.selector
    }
}

/// An active follow always has the selector of the event that is its latest,
/// whatever follows and unfollows come, in whatever order.
pub proof fn law_selector_of_latest(
    db: DbState,
    author: RostraId,
    followee: RostraId,
    written: Map<EventOrder, Seq<u8>>,
    order: EventOrder,
    selector: Seq<u8>,
)
    requires
        selector_of_latest(db, author, followee, written),
        written.contains_key(order) ==> written[order] == selector,
    ensures
        selector_of_latest(
            followed(db, author, order, followee, selector).1,
            author,
            followee,
            written.insert(order, selector),
        ),
        selector_of_latest(unfollowed(db, author, order, followee).1, author, followee, written),
{
}

/// An unfollow event that is the latest of its kind ends every follow up to it,
/// and leaves one behind it as it was but for its start; it is kept as the end
/// of them. One that is not the latest changes nothing. No other pair is
/// touched.
pub proof fn law_unfollow_ends(
    db: DbState,
    author: RostraId,
    order: EventOrder,
    followee: RostraId,
)
    ensures
        ({
            let key = (author, followee);
            let (told, after) = unfollowed(db, author, order, followee);
            let ended = behind_unfollows(db, author, followee, order);
            let goes_on = db.ids_followees.contains_key(key) && order.lt(
                db.ids_followees[key].latest,
            );
            &&& told == ended
            &&& !ended ==> after == db
            &&& ended ==> {
                &&& after.ids_unfollowed.contains_key(key)
                &&& after.ids_unfollowed[key].ts == order.timestamp
                &&& after.ids_unfollowed[key].event_id == order.event_id
                &&& after.ids_followees.contains_key(key) <==> goes_on
                &&& goes_on ==> after.ids_followees[key].latest == db.ids_followees[key].latest
                    && after.ids_followees[key].selector == db.ids_followees[key].selector
                &&& !goes_on ==> !after.ids_followers.contains_key((followee, author))
                &&& forall|k: FollowKey| #[trigger]
                    after.ids_follow_events.contains_key(k) <==> db.ids_follow_events.contains_key(k)
                        && ((k.0, k.1) == key ==> order.lt(
                        EventOrder { timestamp: k.2, event_id: k.3 },
                    ))
            }
            &&& after.ids_unfollowed.remove(key) == db.ids_unfollowed.remove(key)
            &&& after.ids_followees.remove(key) == db.ids_followees.remove(key)
            &&& after.ids_followers.remove((followee, author)) == db.ids_followers.remove(
                (followee, author),
            )
            &&& after == (DbState {
                ids_follow_events: after.ids_follow_events,
                ids_followees: after.ids_followees,
                ids_followers: after.ids_followers,
                ids_unfollowed: after.ids_unfollowed,
                ..db
            })
        }),
{
    let key = (author, followee);
    let after = unfollowed(db, author, order, followee).1;
    assert(after.ids_unfollowed.remove(key) =~= db.ids_unfollowed.remove(key));
    assert(after.ids_followees.remove(key) =~= db.ids_followees.remove(key));
    assert(after.ids_followers.remove((followee, author)) =~= db.ids_followers.remove(
        (followee, author),
    ));
}

/// Where the rows of a pair agree with its history, an active follow starts at
/// the earliest follow event behind the last unfollow, and each follow or
/// unfollow event leaves it so.
pub proof fn law_follow_start(
    db: DbState,
    author: RostraId,
    followee: RostraId,
    order: EventOrder,
    selector: Seq<u8>,
)
    requires
        settled(db, author, followee),
    ensures
        starts_earliest(db, author, followee),
        starts_earliest(followed(db, author, order, followee, selector).1, author, followee),
        starts_earliest(unfollowed(db, author, order, followee).1, author, followee),
{
    law_follow_settled(db, author, order, followee, selector, author, followee);
    law_unfollow_settled(db, author, order, followee, author, followee);
    lemma_settled_starts(db, author, followee);
    lemma_settled_starts(followed(db, author, order, followee, selector).1, author, followee);
    lemma_settled_starts(unfollowed(db, author, order, followee).1, author, followee);
}

/// An active follow started with an event of its history, no other event of
/// which is earlier, and its latest event is in the history too.
pub open spec fn starts_earliest(db: DbState, author: RostraId, followee: RostraId) -> bool {
    db.ids_followees.contains_key((author, followee)) ==> {
        let active = db.ids_followees[(author, followee)];
        &&& db.ids_follow_events.contains_key(follow_key(author, followee, active.latest))
        &&& exists|o: EventOrder| #[trigger]
            db.ids_follow_events.contains_key(follow_key(author, followee, o)) && o.timestamp
                == active.first_ts
        &&& forall|o: EventOrder| #[trigger]
            db.ids_follow_events.contains_key(follow_key(author, followee, o))
                ==> active.first_ts.secs <= o.timestamp.secs && o.le(active.latest)
    }
}

proof fn lemma_settled_starts(db: DbState, author: RostraId, followee: RostraId)
    requires
        settled(db, author, followee),
    ensures
        starts_earliest(db, author, followee),
{
    if db.ids_followees.contains_key((author, followee)) {
        let past = history(db.ids_follow_events, author, followee);
        let active = db.ids_followees[(author, followee)];
        let first = choose|o: EventOrder| is_earliest(past, o);
        assert(is_earliest(past, first));
        assert(past.contains(first));
        assert(past.contains(active.latest));
        assert(db.ids_follow_events.contains_key(follow_key(author, followee, first)));
        assert forall|o: EventOrder| #[trigger]
            db.ids_follow_events.contains_key(
                follow_key(author, followee, o),
            ) implies active.first_ts.secs <= o.timestamp.secs && o.le(active.latest) by {
            assert(past.contains(o));
        }
    }
}

/// The payload of a follow event follows or unfollows whom it names, in the
/// name of its author and at its place in event order, with the selector that
/// it was written with.
pub proof fn law_follow_payload(
    me: Database,
    db: DbState,
    e: VerifiedEvent,
    bytes: Seq<u8>,
    follow: Follow,
    now: Timestamp,
)
    requires
        e.event.kind is Follow || e.event.kind is Unfollow,
        db.events_content_state.contains_key(e.id()),
        db.events_content_state[e.id()] is Missing,
    ensures
        content_processed(me, db, e, bytes, Payload::Follow(follow), now) matches Ok(
            ((outcome, _), after),
        ) ==> {
            let order = EventOrder { timestamp: e.event.timestamp, event_id: e.id() };
            let done = if follow.unfollow {
                unfollowed(db, e.event.author, order, follow.followee).1
            } else {
                followed(db, e.event.author, order, follow.followee, follow.selector@).1
            };
            &&& outcome is Processed
            &&& after.ids_followees == done.ids_followees
            &&& after.ids_followers == done.ids_followers
            &&& after.ids_unfollowed == done.ids_unfollowed
            &&& after.ids_follow_events == done.ids_follow_events
        },
{
}

/// A follow or unfollow that changed whom a user follows is told to the local
/// user where it is theirs, where they follow that user, and where it is about
/// them; one that changed nothing is told to nobody.
pub proof fn law_follow_told(
    me: Database,
    db: DbState,
    e: VerifiedEvent,
    bytes: Seq<u8>,
    follow: Follow,
    now: Timestamp,
)
    requires
        e.event.kind is Follow || e.event.kind is Unfollow,
        db.events_content_state.contains_key(e.id()),
        db.events_content_state[e.id()] is Missing,
    ensures
        content_processed(me, db, e, bytes, Payload::Follow(follow), now) matches Ok(
            ((_, actions), after),
        ) ==> {
            let key = (e.event.author, follow.followee);
            let changed = if follow.unfollow {
                behind_unfollows(
                    db,
                    e.event.author,
                    follow.followee,
                    EventOrder { timestamp: e.event.timestamp, event_id: e.id() },
                )
            } else {
                after.ids_followees != db.ids_followees
            };
            let own = e.event.author == me.self_id;
            let near = after.ids_followees.contains_key((me.self_id, e.event.author));
            &&& actions.contains(Action::SelfFolloweesChanged) <==> changed && own
            &&& actions.contains(Action::SelfWotChanged) <==> changed && (own || near)
            &&& actions.contains(Action::SelfFollowersChanged) <==> changed && follow.followee
                == me.self_id
            &&& forall|i: int|
                0 <= i < actions.len() ==> (#[trigger] actions[i]) is SelfFolloweesChanged
                    || actions[i] is SelfWotChanged || actions[i] is SelfFollowersChanged
        },
{
    if let Ok(((_, actions), after)) = content_processed(
        me,
        db,
        e,
        bytes,
        Payload::Follow(follow),
        now,
    ) {
        let key = (e.event.author, follow.followee);
        let order = EventOrder { timestamp: e.event.timestamp, event_id: e.id() };
        if !follow.unfollow {
            let (told, done) = followed(db, e.event.author, order, follow.followee, follow.selector@);
            if told {
                assert(done.ids_followees[key] != db.ids_followees[key]
                    || !db.ids_followees.contains_key(key));
            }
        }
        if actions.len() > 0 {
            assert(actions.contains(actions[0]));
        }
        if actions.len() > 1 {
            assert(actions.contains(actions[1]));
        }
        if actions.len() > 2 {
            assert(actions.contains(actions[2]));
        }
    }
}

/// The start of an epoch is the earliest time of a follow event of the pair
/// behind the boundary, and there is none only where there is no such event.
pub proof fn law_first_follow(
    m: Map<FollowKey, ()>,
    author: RostraId,
    followee: RostraId,
    boundary: Option<EventOrder>,
)
    requires
        m.dom().finite(),
    ensures
        match earliest_ts(epoch(m, author, followee, boundary)) {
            Some(ts) => {
                &&& exists|o: EventOrder| #[trigger]
                    m.contains_key((author, followee, o.timestamp, o.event_id)) && o.timestamp == ts
                        && (boundary matches Some(b) ==> b.lt(o))
                &&& forall|o: EventOrder| #[trigger]
                    m.contains_key((author, followee, o.timestamp, o.event_id)) && (
                    boundary matches Some(b) ==> b.lt(o)) ==> ts.secs <= o.timestamp.secs
            },
            None => forall|o: EventOrder| #[trigger]
                m.contains_key((author, followee, o.timestamp, o.event_id)) ==> (
                boundary matches Some(b) && o.le(b)),
        },
{
    let set = epoch(m, author, followee, boundary);
    let all = m.dom().map(|k: FollowKey| EventOrder { timestamp: k.2, event_id: k.3 });
    m.dom().lemma_map_finite(|k: FollowKey| EventOrder { timestamp: k.2, event_id: k.3 });
    assert forall|o: EventOrder| set.contains(o) implies all.contains(o) by {
        assert(m.dom().contains(follow_key(author, followee, o)));
    }
    vstd::set_lib::lemma_set_subset_finite(all, set);
    if set.len() > 0 {
        let first = lemma_has_earliest(set);
        lemma_earliest(set, first);
        assert(m.contains_key((author, followee, first.timestamp, first.event_id)));
        assert forall|o: EventOrder| #[trigger]
            m.contains_key((author, followee, o.timestamp, o.event_id)) && (
            boundary matches Some(b) ==> b.lt(o)) implies first.timestamp.secs
            <= o.timestamp.secs by {
            assert(set.contains(o));
        }
    } else {
        assert forall|o: EventOrder| !set.contains(o) by {
            assert(set =~= Set::empty());
        }
        assert forall|o: EventOrder| #[trigger]
            m.contains_key((author, followee, o.timestamp, o.event_id)) implies (
        boundary matches Some(b) && o.le(b)) by {
            assert(!set.contains(o));
        }
    }
}

/// Before any follow or unfollow came, the rows of every pair agree with its
/// history, and no selector is kept.
pub proof fn law_nobody_followed(
    db: DbState,
    author: RostraId,
    followee: RostraId,
    written: Map<EventOrder, Seq<u8>>,
)
    requires
        forall|k: FollowKey| !#[trigger] db.ids_follow_events.contains_key(k),
        forall|k: (RostraId, RostraId)| !#[trigger] db.ids_followees.contains_key(k),
        forall|k: (RostraId, RostraId)| !#[trigger] db.ids_followers.contains_key(k),
    ensures
        settled(db, author, followee),
        selector_of_latest(db, author, followee, written),
{
    assert(history(db.ids_follow_events, author, followee) =~= Set::empty());
}

}
