//! What an event leaves behind when it comes: where it is filed, how old it
//! counts as, who is told, and what becomes of its payload.

use vstd::prelude::*;

use crate::content::{counts_positive, holds_reference, law_references, references, state_of};
use crate::database::Database;
use crate::error::Effect;
use crate::event::{EventContentState, EventReceivedRecord, VerifiedEvent};
use crate::graph::{events_under, first_head, is_first_id};
use crate::graph_laws::{
    deleted_by_of, deletions_sound, is_child, not_own_parent, rightly_attributed, states_of_stored,
};
use crate::ids::{EventOrder, ShortEventId, Timestamp};
use crate::insert_event::{
    header_stored, inserted, parents_linked, placed, Inserting, InsertOutcomeModel,
};
use crate::lifecycle::{content_indexed, event_indexed, EventEffect};
use crate::listing::key_le;
use crate::payload::{Action, Payload, SocialPost};
use crate::payload_laws::{
    bookkeeping_exact, holders, lemma_lens_remove, lemma_sets_finite, members,
    usage_of_author_exact,
};
use crate::process_content::content_processed;
use crate::process_event::{
    event_finished, event_processed, newcomer_processed, processed_with, read_as, retained_payload,
    reverted_event, reverted_payload, Arrival, ProcessEventState,
};
use crate::retention_index::{index_refreshed, Scale};
use crate::retention_laws::{law_index_alone, only_index};
use crate::tables::{DbState, IdsDataUsageRecord};
use crate::usage::{bucket_of, law_usage_balanced, law_usage_move_fits, usage_of, Bucket};

verus! {

/// Another event of its author had asked for the payload of the event to be
/// deleted before it came.
pub open spec fn deleted_in_advance(db: DbState, e: VerifiedEvent) -> bool {
    let key = (e.event.author, e.id());
    db.events_missing.contains_key(key) && db.events_missing[key].deleted_by is Some
}

/// The event refers to a parent that is not stored, or is not its author's.
pub open spec fn lacks_parent(db: DbState, e: VerifiedEvent) -> bool {
    ||| e.event.parent_aux matches Some(p) && !(db.events.contains_key(p)
        && db.events[p].event.author == e.event.author)
    ||| e.event.parent_prev matches Some(p) && !(db.events.contains_key(p)
        && db.events[p].event.author == e.event.author)
}

proof fn lemma_inserted_tables(db: DbState, e: VerifiedEvent)
    ensures
        inserted(db, e, true) matches Ok((outcome, after)) ==> {
            let is_new = !db.events.contains_key(e.id());
            &&& outcome is AlreadyPresent <==> !is_new
            &&& after.events == (if is_new {
                db.events.insert(e.id(), e)
            } else {
                db.events
            })
            &&& after.events_by_time == (if is_new {
                db.events_by_time.insert((e.event.timestamp, e.id()), ())
            } else {
                db.events_by_time
            })
            &&& after.ids_full == db.ids_full.insert(e.event.author, ())
            &&& after.events_self == db.events_self
            &&& after.events_received_at == db.events_received_at
            &&& after.reception_order_next == db.reception_order_next
            &&& after.events_retention_origins == db.events_retention_origins
            &&& after.events_quota_pruned == db.events_quota_pruned
            &&& outcome matches InsertOutcomeModel::Inserted {
                was_missing,
                is_deleted,
                missing_parents,
                ..
            } ==> {
                &&& was_missing == db.events_missing.contains_key((e.event.author, e.id()))
                &&& is_deleted == deleted_in_advance(db, e)
                &&& missing_parents.len() > 0 <==> lacks_parent(db, e)
            }
        },
{
    reveal(placed);
    reveal(parents_linked);
    reveal(header_stored);
}

/// A new event is stored as it came, filed under its time, its author is known
/// of from then on, and the local user's own events are listed as such; all
/// else that is filed stays. One that was there before files nothing.
pub proof fn law_event_filed(
    me: Database,
    db: DbState,
    e: VerifiedEvent,
    arrival: Arrival,
    retained: Option<SocialPost>,
    reverted: Option<SocialPost>,
)
    ensures
        event_processed(me, db, e, arrival, retained, reverted) matches Ok((_, after)) ==> {
            let is_new = !db.events.contains_key(e.id());
            &&& after.events == (if is_new {
                db.events.insert(e.id(), e)
            } else {
                db.events
            })
            &&& after.events_by_time == (if is_new {
                db.events_by_time.insert((e.event.timestamp, e.id()), ())
            } else {
                db.events_by_time
            })
            &&& after.ids_full == db.ids_full.insert(e.event.author, ())
            &&& after.events_self == (if is_new && e.event.author == me.self_id {
                db.events_self.insert(e.id(), ())
            } else {
                db.events_self
            })
        },
{
    lemma_inserted_tables(db, e);
}

/// A new event counts as being as old as it says, but not as being from the
/// future: its age is that of the earlier of its own time and its arrival. A
/// payload of no bytes that was not deleted counts as processed on arrival. The
/// age is noted once, and only where ages are noted.
pub proof fn law_event_age(
    me: Database,
    db: DbState,
    e: VerifiedEvent,
    arrival: Arrival,
    retained: Option<SocialPost>,
    reverted: Option<SocialPost>,
)
    ensures
        event_processed(me, db, e, arrival, retained, reverted) matches Ok((_, after)) ==> {
            let noted = !db.events.contains_key(e.id()) && arrival.track_retention
                && !db.events_retention_origins.contains_key(e.id());
            let row = after.events_retention_origins[e.id()];
            &&& !noted ==> after.events_retention_origins == db.events_retention_origins
            &&& noted ==> {
                &&& after.events_retention_origins == db.events_retention_origins.insert(
                    e.id(),
                    row,
                )
                &&& row.effective_timestamp.secs <= e.event.timestamp.secs
                &&& row.effective_timestamp.secs <= arrival.now.secs
                &&& row.effective_timestamp == e.event.timestamp || row.effective_timestamp
                    == arrival.now
                &&& row.materialized_at == (if e.event.content_len == 0 && !deleted_in_advance(
                    db,
                    e,
                ) {
                    Some(arrival.now)
                } else {
                    None
                })
            }
        },
{
    lemma_inserted_tables(db, e);
}

/// The arrival of a new event is on record under its time and the next place
/// in the order of arrivals, with where it came from; that of an event that was
/// there before is not, and no place is used up for it.
pub proof fn law_event_arrival_recorded(
    me: Database,
    db: DbState,
    e: VerifiedEvent,
    arrival: Arrival,
    retained: Option<SocialPost>,
    reverted: Option<SocialPost>,
)
    ensures
        event_processed(me, db, e, arrival, retained, reverted) matches Ok((_, after)) ==> {
            let place = if db.reception_order_next.contains_key(()) {
                db.reception_order_next[()]
            } else {
                0u64
            };
            if db.events.contains_key(e.id()) {
                &&& after.events_received_at == db.events_received_at
                &&& after.reception_order_next == db.reception_order_next
            } else {
                &&& !db.events_received_at.contains_key((arrival.now, place))
                &&& after.events_received_at == db.events_received_at.insert(
                    (arrival.now, place),
                    EventReceivedRecord { event_id: e.id(), source: arrival.source },
                )
                &&& after.reception_order_next.contains_key(())
                &&& after.reception_order_next[()] == place + 1
            }
        },
{
    lemma_inserted_tables(db, e);
}

/// Of a new event that nothing had referred to everybody is told as of a head;
/// the local user is told their own head, the least that they have then;
/// missing parents are told where there are any; and that the payload is to be
/// fetched is told where it is. Of an event that was there before nobody is
/// told.
pub proof fn law_event_told(
    me: Database,
    db: DbState,
    e: VerifiedEvent,
    arrival: Arrival,
    retained: Option<SocialPost>,
    reverted: Option<SocialPost>,
)
    ensures
        event_processed(me, db, e, arrival, retained, reverted) matches Ok(
            ((_, state, actions), after),
        ) ==> {
            let is_new = !db.events.contains_key(e.id());
            let own = e.event.author == me.self_id;
            &&& !is_new ==> actions.len() == 0
            &&& actions.contains(
                Action::NewHead { author: e.event.author, event_id: e.id() },
            ) <==> is_new && !db.events_missing.contains_key((e.event.author, e.id()))
            &&& actions.contains(
                Action::SelfHead { head: first_head(after.events_heads, me.self_id) },
            ) <==> is_new && own
            &&& actions.contains(Action::MissingEvents { author: e.event.author }) <==> is_new
                && lacks_parent(db, e)
            &&& actions.contains(Action::ContentMissing) <==> state is New && e.event.content_len
                > 0
        },
{
    lemma_inserted_tables(db, e);
    if let Ok(((_, state, actions), after)) = event_processed(
        me,
        db,
        e,
        arrival,
        retained,
        reverted,
    ) {
        let (outcome, mid) = inserted(db, e, true)->Ok_0;
        let (told, listed) = newcomer_processed(
            me,
            mid,
            e,
            outcome,
            arrival,
            retained,
            reverted,
        )->Ok_0;
        if outcome is AlreadyPresent {
            assert(actions =~= Seq::empty());
        } else {
            lemma_told(me, mid, e, outcome, arrival, retained, reverted);
            assert(after.events_heads == listed.events_heads);
            assert forall|a: Action| actions.contains(a) <==> told.contains(a) || (a
                == Action::ContentMissing && state is New && e.event.content_len > 0) by {
                if told.contains(a) {
                    let i = choose|i: int| 0 <= i < told.len() && told[i] == a;
                    assert(actions[i] == a);
                }
                if actions.len() > told.len() {
                    assert(actions[told.len() as int] == Action::ContentMissing);
                }
                if actions.contains(a) {
                    let i = choose|i: int| 0 <= i < actions.len() && actions[i] == a;
                    if i < told.len() {
                        assert(told[i] == a);
                    }
                }
            }
        }
    }
}

proof fn lemma_told(
    me: Database,
    db: DbState,
    e: VerifiedEvent,
    outcome: InsertOutcomeModel,
    arrival: Arrival,
    retained: Option<SocialPost>,
    reverted: Option<SocialPost>,
)
    requires
        outcome is Inserted,
    ensures
        newcomer_processed(me, db, e, outcome, arrival, retained, reverted) matches Ok(
            (told, after),
        ) ==> {
            &&& after.events_heads == db.events_heads
            &&& forall|a: Action|
                !(a is RemoveNewsRank) ==> (#[trigger] told.contains(a) <==> {
                    ||| a == (Action::NewHead { author: e.event.author, event_id: e.id() })
                        && !outcome->is_deleted && !outcome->was_missing
                    ||| a == (Action::SelfHead { head: first_head(db.events_heads, me.self_id) })
                        && e.event.author == me.self_id
                    ||| a == (Action::MissingEvents { author: e.event.author })
                        && outcome->missing_parents.len() > 0
                })
        },
{
    if let Ok((told, after)) = newcomer_processed(
        me,
        db,
        e,
        outcome,
        arrival,
        retained,
        reverted,
    ) {
        let first = crate::process_event::event_actions(
            me,
            after,
            e,
            !outcome->is_deleted && !outcome->was_missing,
            outcome->missing_parents.len() > 0,
        );
        assert(first_head(after.events_heads, me.self_id) == first_head(
            db.events_heads,
            me.self_id,
        ));
        assert(first.len() <= told.len());
        assert forall|i: int| 0 <= i < first.len() implies told[i] == first[i] by {}
        assert forall|i: int| first.len() <= i < told.len() implies (
        #[trigger] told[i]) is RemoveNewsRank by {}
        assert forall|a: Action| !(a is RemoveNewsRank) implies (#[trigger] told.contains(a)
            <==> first.contains(a)) by {
            if told.contains(a) {
                let i = choose|i: int| 0 <= i < told.len() && told[i] == a;
                assert(i < first.len());
                assert(first[i] == a);
            }
            if first.contains(a) {
                let i = choose|i: int| 0 <= i < first.len() && first[i] == a;
                assert(told[i] == a);
            }
        }
        assert forall|a: Action| first.contains(a) <==> {
            ||| a == (Action::NewHead { author: e.event.author, event_id: e.id() })
                && !outcome->is_deleted && !outcome->was_missing
            ||| a == (Action::SelfHead { head: first_head(db.events_heads, me.self_id) })
                && e.event.author == me.self_id
            ||| a == (Action::MissingEvents { author: e.event.author })
                && outcome->missing_parents.len() > 0
        } by {
            assert(forall|i: int| 0 <= i < first.len() ==> first.contains(#[trigger] first[i]));
            if first.len() > 0 {
                assert(first.contains(first[0]));
            }
            if first.len() > 1 {
                assert(first.contains(first[1]));
            }
            if first.len() > 2 {
                assert(first.contains(first[2]));
            }
        }
    }
}

/// The head that the local user is told is one of theirs, and none of theirs is
/// before it; there is none only where they have none.
pub proof fn law_first_head(db: DbState, author: crate::ids::RostraId)
    requires
        db.events_heads.dom().finite(),
    ensures
        match first_head(db.events_heads, author) {
            Some(head) => {
                &&& db.events_heads.contains_key((author, head))
                &&& forall|id: ShortEventId| #[trigger]
                    db.events_heads.contains_key((author, id)) ==> key_le(head, id)
            },
            None => forall|id: ShortEventId|
                !#[trigger] db.events_heads.contains_key((author, id)),
        },
{
    let set = events_under(db.events_heads, author);
    let ids = db.events_heads.dom().map(|k: (crate::ids::RostraId, ShortEventId)| k.1);
    db.events_heads.dom().lemma_map_finite(|k: (crate::ids::RostraId, ShortEventId)| k.1);
    assert forall|id: ShortEventId| set.contains(id) implies ids.contains(id) by {
        assert(db.events_heads.dom().contains((author, id)));
    }
    vstd::set_lib::lemma_set_subset_finite(ids, set);
    match first_head(db.events_heads, author) {
        Some(head) => {
            assert(exists|id: ShortEventId| is_first_id(set, id));
            assert(is_first_id(set, head));
            assert forall|id: ShortEventId| #[trigger]
                db.events_heads.contains_key((author, id)) implies key_le(head, id) by {
                assert(set.contains(id));
            }
        },
        None => {
            assert(crate::listing::first_of(set) is None) by {
                if crate::listing::first_of(set) is Some {
                    let x = choose|x: ShortEventId| crate::listing::is_first_of(set, x);
                    assert(is_first_id(set, x));
                }
            }
            crate::retention_laws::lemma_no_first(set);
            assert forall|id: ShortEventId|
                !#[trigger] db.events_heads.contains_key((author, id)) by {
                assert(!set.contains(id));
            }
        },
    }
}

/// The state of a payload, from its row.
pub open spec fn payload_state(db: DbState, id: ShortEventId) -> Option<EventContentState> {
    if db.events_content_state.contains_key(id) {
        Some(db.events_content_state[id])
    } else {
        None
    }
}

/// The payload was deleted by its author, or turned out invalid.
pub open spec fn past_pruning(state: Option<EventContentState>) -> bool {
    state matches Some(s) && (s is Deleted || s is Invalid)
}

proof fn lemma_inserted_state(db: DbState, e: VerifiedEvent)
    requires
        states_of_stored(db),
    ensures
        inserted(db, e, true) matches Ok((_, after)) ==> {
            let id = e.id();
            let awaited = EventContentState::Missing {
                last_fetch_attempt: None,
                fetch_attempt_count: 0,
                next_fetch_attempt: Timestamp { secs: 0 },
            };
            let asks_for_own = e.event.deletes_parent_aux && e.event.parent_aux == Some(id);
            &&& db.events.contains_key(id) ==> after == (DbState { ids_full: after.ids_full, ..db })
            &&& !db.events.contains_key(id) && deleted_in_advance(db, e) ==> (payload_state(
                after,
                id,
            ) matches Some(s) && s is Deleted)
            &&& !db.events.contains_key(id) && !deleted_in_advance(db, e) ==> {
                &&& payload_state(after, id) == (if e.event.content_len > 0 {
                    Some(awaited)
                } else {
                    None
                })
                &&& after.content_store == (if e.event.content_len > 0
                    || db.content_store.contains_key(e.event.content_hash) {
                    db.content_store
                } else {
                    db.content_store.insert(e.event.content_hash, Seq::empty())
                })
                &&& e.event.content_len > 0 && !db.content_store.contains_key(
                    e.event.content_hash,
                ) ==> after.events_content_missing.contains_key((Timestamp { secs: 0 }, id))
                &&& e.event.content_len == 0 || db.content_store.contains_key(e.event.content_hash)
                    ==> forall|ts: Timestamp| #[trigger]
                    after.events_content_missing.contains_key((ts, id))
                        ==> db.events_content_missing.contains_key((ts, id))
            }
        },
{
    reveal(placed);
    reveal(parents_linked);
    reveal(header_stored);
}

/// The payload of a new event is awaited, and is to be fetched at once unless it
/// is stored already; but not where it is of no bytes, or was deleted in
/// advance, or is too long, or it was decided before to give it up. An empty one
/// is there at once. One that is too long is never kept, whether the event is new or not: it is given up
/// unless its author deleted it or it turned out invalid.
pub proof fn law_payload_expected(
    me: Database,
    db: DbState,
    e: VerifiedEvent,
    arrival: Arrival,
    retained: Option<SocialPost>,
    reverted: Option<SocialPost>,
)
    requires
        states_of_stored(db),
    ensures
        event_processed(me, db, e, arrival, retained, reverted) matches Ok((_, after)) ==> {
            let id = e.id();
            let is_new = !db.events.contains_key(id);
            let too_long = me.max_content_len <= e.event.content_len;
            let given_up = too_long || (is_new && db.events_quota_pruned.contains_key(id));
            let before = payload_state(db, id);
            let state = payload_state(after, id);
            &&& is_new && deleted_in_advance(db, e) ==> (state matches Some(s) && s is Deleted)
            &&& is_new && !deleted_in_advance(db, e) && given_up ==> state == Some(
                EventContentState::Pruned,
            )
            &&& is_new && !deleted_in_advance(db, e) && !given_up ==> {
                &&& e.event.content_len == 0 ==> state is None && after.content_store.contains_key(
                    e.event.content_hash,
                )
                &&& e.event.content_len > 0 ==> state == Some(
                    EventContentState::Missing {
                        last_fetch_attempt: None,
                        fetch_attempt_count: 0,
                        next_fetch_attempt: Timestamp { secs: 0 },
                    },
                )
                &&& e.event.content_len > 0 && !db.content_store.contains_key(e.event.content_hash)
                    ==> after.events_content_missing.contains_key((Timestamp { secs: 0 }, id))
                &&& e.event.content_len == 0 || db.content_store.contains_key(e.event.content_hash)
                    ==> forall|ts: Timestamp| #[trigger]
                    after.events_content_missing.contains_key((ts, id))
                        ==> db.events_content_missing.contains_key((ts, id))
            }
            &&& !is_new && (!too_long || past_pruning(before)) ==> state == before
            &&& !is_new && too_long && !past_pruning(before) ==> state == Some(
                EventContentState::Pruned,
            )
        },
{
    lemma_inserted_state(db, e);
    lemma_inserted_tables(db, e);
}

/// What is told of where an event stands is what is stored: it is new where it
/// was not stored, and its payload was neither deleted in advance nor given up;
/// it was there before where it was stored and its payload is neither given up
/// nor too long; its payload is given up just where its state says so; in all
/// other cases it is deleted.
pub proof fn law_event_standing(
    me: Database,
    db: DbState,
    e: VerifiedEvent,
    arrival: Arrival,
    retained: Option<SocialPost>,
    reverted: Option<SocialPost>,
)
    requires
        states_of_stored(db),
    ensures
        event_processed(me, db, e, arrival, retained, reverted) matches Ok(
            ((_, standing, _), after),
        ) ==> {
            let id = e.id();
            let is_new = !db.events.contains_key(id);
            let too_long = me.max_content_len <= e.event.content_len;
            let pruned = payload_state(after, id) == Some(EventContentState::Pruned);
            &&& standing is Pruned <==> pruned
            &&& standing is New <==> is_new && !deleted_in_advance(db, e) && !pruned
            &&& standing is Existing <==> !is_new && !pruned && !too_long
            &&& standing is Deleted <==> !pruned && (if is_new {
                deleted_in_advance(db, e)
            } else {
                too_long
            })
        },
{
    lemma_inserted_state(db, e);
    lemma_inserted_tables(db, e);
}

/// What an insertion tells: whether another event had referred to the new one,
/// whether its payload was deleted in advance, the parents that are not stored,
/// each once, the auxiliary one first, and the stored parent whose payload it
/// deletes, with the bytes of that payload where it was processed.
pub proof fn law_insertion_told(db: DbState, e: VerifiedEvent, track_usage: bool)
    ensures
        inserted(db, e, track_usage) matches Ok((outcome, _)) ==> match outcome {
            InsertOutcomeModel::AlreadyPresent => db.events.contains_key(e.id()),
            InsertOutcomeModel::Inserted {
                was_missing,
                is_deleted,
                deleted_parent,
                reverted_parent_content,
                missing_parents,
            } => {
                let own = |p: ShortEventId|
                    db.events.contains_key(p) && db.events[p].event.author == e.event.author;
                let aux = e.event.parent_aux;
                let prev = e.event.parent_prev;
                let deleting = e.event.deletes_parent_aux && aux is Some && own(aux->0);
                let hash = db.events[aux->0].event.content_hash;
                &&& !db.events.contains_key(e.id())
                &&& was_missing <==> db.events_missing.contains_key((e.event.author, e.id()))
                &&& is_deleted <==> deleted_in_advance(db, e)
                &&& deleted_parent == (if deleting {
                    aux
                } else {
                    None
                })
                &&& e.event.parent_aux != Some(e.id()) ==> reverted_parent_content == (if deleting
                    && payload_state(db, aux->0) is None && db.content_store.contains_key(hash) {
                    Some(db.content_store[hash])
                } else {
                    None
                })
                &&& forall|p: ShortEventId| #[trigger]
                    missing_parents.contains(p) <==> !own(p) && (aux == Some(p) || prev == Some(p))
                &&& missing_parents.no_duplicates()
                &&& aux is Some && !own(aux->0) ==> missing_parents.len() > 0 && missing_parents[0]
                    == aux->0
            },
        },
{
    reveal(placed);
    reveal(parents_linked);
    reveal(header_stored);
    if let Ok((outcome, _)) = inserted(db, e, track_usage) {
        if let InsertOutcomeModel::Inserted { missing_parents, .. } = outcome {
            if missing_parents.len() > 0 {
                assert(missing_parents.contains(missing_parents[0]));
            }
            if missing_parents.len() > 1 {
                assert(missing_parents.contains(missing_parents[1]));
            }
        }
    }
}

proof fn lemma_deletion_inserted(db: DbState, e: VerifiedEvent, target: ShortEventId)
    requires
        !db.events.contains_key(e.id()),
        e.event.deletes_parent_aux,
        e.event.parent_aux == Some(target),
        db.events.contains_key(target),
        db.events[target].event.author == e.event.author,
    ensures
        inserted(db, e, true) matches Ok((_, after)) ==> {
            let order = EventOrder { timestamp: e.event.timestamp, event_id: e.id() };
            &&& payload_state(after, target) matches Some(EventContentState::Deleted { deleted_by })
                && match payload_state(db, target) {
                Some(EventContentState::Deleted { deleted_by: before }) => {
                    let old_order = EventOrder {
                        timestamp: db.events[before].event.timestamp,
                        event_id: before,
                    };
                    deleted_by == (if old_order.lt(order) {
                        e.id()
                    } else {
                        before
                    })
                },
                _ => deleted_by == e.id(),
            }
            &&& payload_state(db, target) matches Some(
                EventContentState::Missing { next_fetch_attempt, .. },
            ) ==> !after.events_content_missing.contains_key((next_fetch_attempt, target))
        },
{
    reveal(placed);
    reveal(parents_linked);
    reveal(header_stored);
}

/// What follows from an insertion leaves the payloads of other events as they
/// are.
proof fn lemma_finished_elsewhere(
    me: Database,
    db: DbState,
    e: VerifiedEvent,
    outcome: InsertOutcomeModel,
    arrival: Arrival,
    retained: Option<SocialPost>,
    reverted: Option<SocialPost>,
    other: ShortEventId,
)
    requires
        other != e.id(),
    ensures
        event_finished(me, db, e, outcome, arrival, retained, reverted) matches Ok((_, after)) ==> {
            &&& payload_state(after, other) == payload_state(db, other)
            &&& forall|ts: Timestamp| #[trigger]
                after.events_content_missing.contains_key((ts, other))
                    <==> db.events_content_missing.contains_key((ts, other))
        },
{
}

/// The payload of a stored event of the same author is deleted by the new event
/// that asks for it, however it stood before: by the greater in event order of
/// that event and the one that it was deleted by, and it is fetched no more.
pub proof fn law_deletion_carried_out(
    me: Database,
    db: DbState,
    e: VerifiedEvent,
    arrival: Arrival,
    retained: Option<SocialPost>,
    reverted: Option<SocialPost>,
    target: ShortEventId,
)
    requires
        !db.events.contains_key(e.id()),
        e.event.deletes_parent_aux,
        e.event.parent_aux == Some(target),
        db.events.contains_key(target),
        db.events[target].event.author == e.event.author,
    ensures
        event_processed(me, db, e, arrival, retained, reverted) matches Ok((_, after)) ==> {
            let order = EventOrder { timestamp: e.event.timestamp, event_id: e.id() };
            &&& payload_state(after, target) matches Some(EventContentState::Deleted { deleted_by })
                && match payload_state(db, target) {
                Some(EventContentState::Deleted { deleted_by: before }) => {
                    let old_order = EventOrder {
                        timestamp: db.events[before].event.timestamp,
                        event_id: before,
                    };
                    deleted_by == (if old_order.lt(order) {
                        e.id()
                    } else {
                        before
                    })
                },
                _ => deleted_by == e.id(),
            }
            &&& payload_state(db, target) matches Some(
                EventContentState::Missing { next_fetch_attempt, .. },
            ) ==> !after.events_content_missing.contains_key((next_fetch_attempt, target))
        },
{
    lemma_deletion_inserted(db, e, target);
    if let Ok((outcome, mid)) = inserted(db, e, true) {
        lemma_finished_elsewhere(me, mid, e, outcome, arrival, retained, reverted, target);
    }
}

/// The payloads that an event makes it necessary to read are read: its own,
/// where it was deleted in advance and is stored for another event; and that of
/// the event whose processed payload it deletes, where that is stored. What
/// comes of the event is what comes of those readings, and nothing else is read.
pub proof fn law_payloads_read<F: Fn(&VerifiedEvent, &Vec<u8>) -> Option<SocialPost>>(
    me: Database,
    db: DbState,
    e: VerifiedEvent,
    arrival: Arrival,
    read_post: F,
    done: Effect<(InsertOutcomeModel, ProcessEventState, Seq<Action>), DbState>,
)
    requires
        processed_with(me, db, e, arrival, read_post, done),
        e.event.parent_aux != Some(e.id()),
    ensures
        inserted(db, e, true) is Ok ==> exists|
            retained: Option<SocialPost>,
            reverted: Option<SocialPost>,
        |
            {
                let is_new = !db.events.contains_key(e.id());
                let target = e.event.parent_aux->0;
                let deleting = is_new && e.event.deletes_parent_aux && e.event.parent_aux is Some
                    && db.events.contains_key(target) && db.events[target].event.author
                    == e.event.author && !db.events_content_state.contains_key(target)
                    && db.content_store.contains_key(db.events[target].event.content_hash);
                let kept = is_new && deleted_in_advance(db, e) && db.content_store.contains_key(
                    e.event.content_hash,
                );
                &&& done == #[trigger] event_processed(me, db, e, arrival, retained, reverted)
                &&& !kept ==> retained is None
                &&& kept ==> exists|b: Vec<u8>|
                    b@ == db.content_store[e.event.content_hash] && #[trigger] call_ensures(
                        read_post,
                        (&e, &b),
                        retained,
                    )
                &&& !deleting ==> reverted is None
                &&& deleting ==> exists|b: Vec<u8>|
                    b@ == db.content_store[db.events[target].event.content_hash]
                        && #[trigger] call_ensures(
                        read_post,
                        (&db.events[target], &b),
                        reverted,
                    )
            },
{
    law_insertion_told(db, e, true);
    lemma_inserted_tables(db, e);
    lemma_inserted_store(db, e);
    if let Ok((outcome, mid)) = inserted(db, e, true) {
        let (retained, reverted) = choose|
            retained: Option<SocialPost>,
            reverted: Option<SocialPost>,
        |
            {
                &&& read_as(read_post, e, retained_payload(mid, e, outcome), retained)
                &&& read_as(
                    read_post,
                    reverted_event(mid, outcome),
                    reverted_payload(outcome),
                    reverted,
                )
                &&& done == #[trigger] event_processed(me, db, e, arrival, retained, reverted)
            };
        assert(done == event_processed(me, db, e, arrival, retained, reverted));
        if let Some(bytes) = retained_payload(mid, e, outcome) {
            let b = choose|b: Vec<u8>|
                #![trigger b@]
                b@ == bytes && call_ensures(read_post, (&e, &b), retained);
            assert(call_ensures(read_post, (&e, &b), retained));
        }
        if let Some(bytes) = reverted_payload(outcome) {
            let parent = reverted_event(mid, outcome);
            let b = choose|b: Vec<u8>|
                #![trigger b@]
                b@ == bytes && call_ensures(read_post, (&parent, &b), reverted);
            assert(call_ensures(read_post, (&parent, &b), reverted));
        }
    }
}

proof fn lemma_inserted_store(db: DbState, e: VerifiedEvent)
    ensures
        inserted(db, e, true) matches Ok((_, after)) ==> (deleted_in_advance(db, e)
            || db.events.contains_key(e.id()) ==> after.content_store == db.content_store),
{
    reveal(placed);
    reveal(parents_linked);
    reveal(header_stored);
}

/// The index that is kept up to date beside an event or a payload changes
/// neither what is told nor any other table.
pub proof fn law_index_beside(
    me: Database,
    db: DbState,
    scale: Scale,
    e: VerifiedEvent,
    taken: EventEffect,
    bytes: Seq<u8>,
    payload: Payload,
    now: Timestamp,
)
    ensures
        event_indexed(me, scale, e, taken) matches Ok((told, after)) ==> (taken matches Ok(
            (said, mid),
        ) && told == said && only_index(mid, after)),
        content_indexed(me, db, scale, e, bytes, payload, now) matches Ok((told, after)) ==> (
        content_processed(me, db, e, bytes, payload, now) matches Ok((said, mid)) && told == said
            && only_index(mid, after)),
{
    if let Ok((_, mid)) = taken {
        law_index_alone(me, mid, scale, e.id());
        if let Ok(next) = index_refreshed(me, mid, scale, e.id()) {
            if let Some(target) = e.event.parent_aux {
                law_index_alone(me, next, scale, target);
            }
        }
    }
    if let Ok((_, mid)) = content_processed(me, db, e, bytes, payload, now) {
        law_index_alone(me, mid, scale, e.id());
    }
}

/// The usage of an author has room for one more event with a payload of the
/// given length.
pub open spec fn has_room(u: IdsDataUsageRecord, len: u32) -> bool {
    &&& u.total_metadata_size + 192 <= u64::MAX
    &&& u.total_metadata_num < u64::MAX
    &&& u.total_content_size + len <= u64::MAX
    &&& u.total_payload_num < u64::MAX
}

/// Both parents of an event can be looked at, and the counts stay such that one
/// more event can be counted.
proof fn lemma_parents_not_refused(db: DbState, e: VerifiedEvent)
    requires
        deletions_sound(db),
        bookkeeping_exact(db),
        not_own_parent(e),
        usage_of(db.ids_data_usage, e.event.author).balanced(),
    ensures
        ({
            let known = DbState { ids_full: db.ids_full.insert(e.event.author, ()), ..db };
            let start = Inserting {
                db: placed(known, e),
                deleted_parent: None,
                reverted: None,
                missing: Seq::empty(),
            };
            parents_linked(start, e, true) matches Ok(s) && {
                let u = usage_of(db.ids_data_usage, e.event.author);
                let v = usage_of(s.db.ids_data_usage, e.event.author);
                &&& v.balanced()
                &&& v.total_metadata_size == u.total_metadata_size
                &&& v.total_metadata_num == u.total_metadata_num
                &&& v.total_content_size == u.total_content_size
                &&& v.total_payload_num == u.total_payload_num
                &&& counts_positive(s.db.content_rc)
                &&& references(s.db.content_rc, e.event.content_hash) <= references(
                    db.content_rc,
                    e.event.content_hash,
                )
            }
        }),
{
    reveal(placed);
    reveal(parents_linked);
    let author = e.event.author;
    if let Some(t) = e.event.parent_aux {
        let key = (author, t);
        assert(is_child(e, t));
        if db.events_missing.contains_key(key) {
            assert(rightly_attributed(db, author, t, db.events_missing[key].deleted_by));
        }
        if db.events.contains_key(t) && db.events[t].event.author == author {
            let p = db.events[t].event;
            let state = state_of(db.events_content_state, t);
            assert(rightly_attributed(db, author, t, deleted_by_of(db, t)));
            lemma_sets_finite(db);
            law_references(db.content_rc, p.content_hash);
            if holds_reference(state) {
                assert(holders(db, p.content_hash).contains(t));
                assert(references(db.content_rc, p.content_hash) == holders(
                    db,
                    p.content_hash,
                ).len());
                vstd::set_lib::lemma_len_subset(set![t], holders(db, p.content_hash));
            }
            let b = bucket_of(state);
            let m = members(db, author, b);
            let u = usage_of(db.ids_data_usage, author);
            assert(usage_of_author_exact(db, author));
            assert(m.contains(t));
            lemma_lens_remove(db.events, m, t);
            vstd::set_lib::lemma_len_subset(set![t], m);
            assert(u.num_in(b) == m.len());
            law_usage_move_fits(u, b, Bucket::Deleted, p.content_len);
            law_usage_balanced(u, b, Bucket::Deleted, p.content_len);
        }
    }
}

/// Where the database is sound, an event is never refused but for counters that
/// are full: those of its author's usage, or that of the references to its
/// payload.
pub proof fn law_insertion_not_refused(db: DbState, e: VerifiedEvent)
    requires
        deletions_sound(db),
        bookkeeping_exact(db),
        not_own_parent(e),
        usage_of(db.ids_data_usage, e.event.author).balanced(),
        has_room(usage_of(db.ids_data_usage, e.event.author), e.event.content_len),
        references(db.content_rc, e.event.content_hash) < u64::MAX,
    ensures
        inserted(db, e, true) is Ok,
{
    lemma_parents_not_refused(db, e);
    if !db.events.contains_key(e.id()) {
        let known = DbState { ids_full: db.ids_full.insert(e.event.author, ()), ..db };
        let start = Inserting {
            db: placed(known, e),
            deleted_parent: None,
            reverted: None,
            missing: Seq::empty(),
        };
        let s = parents_linked(start, e, true)->Ok_0;
        lemma_header_not_refused(s.db, e, deleted_in_advance(db, e));
    }
}

proof fn lemma_header_not_refused(db: DbState, e: VerifiedEvent, deleted: bool)
    requires
        usage_of(db.ids_data_usage, e.event.author).balanced(),
        has_room(usage_of(db.ids_data_usage, e.event.author), e.event.content_len),
        counts_positive(db.content_rc),
        references(db.content_rc, e.event.content_hash) < u64::MAX,
    ensures
        header_stored(db, e, deleted, true) is Ok,
{
    reveal(header_stored);
}

}
