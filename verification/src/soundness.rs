//! What every operation on the database keeps.

use vstd::prelude::*;

use crate::content::{pruned, references, state_of};
use crate::database::Database;
use crate::event::{EventContentState, VerifiedEvent};
use crate::graph_laws::{
    deleted_by_of, deletions_sound, graph_sound, law_insert_keeps_deletions,
    law_empty_graph, law_insert_keeps_graph, lemma_same_events, not_own_parent,
};
use crate::ids::{ContentHash, RostraId, ShortEventId, Timestamp};
use crate::usage::Bucket;
use crate::insert_event::{inserted, InsertOutcomeModel};
use crate::payload::{Payload, SocialPost};
use crate::payload_laws::{
    bookkeeping_exact, holders, members, own_events, usage_of_author_exact, law_insert_keeps_books, law_prune_keeps_books, lemma_books_same,
    lemma_content_kept, lemma_content_rejected,
};
use crate::process_content::{content_inserted, content_processed, content_reverted};
use crate::process_event::{
    aged, event_processed, event_pruned, lineage_noted, newcomer_processed, registered, self_listed,
    Arrival,
};
use crate::quota_pruning::{quota_decided, quota_pruned, QuotaPruneRequest};
use crate::social::edits_stored;
use crate::tables::DbState;

verus! {

/// The event graph, the deletions and the bookkeeping of payloads are what
/// follows from the events stored.
pub open spec fn database_sound(db: DbState) -> bool {
    graph_sound(db) && deletions_sound(db) && bookkeeping_exact(db)
}

/// An identifier belongs to one event.
pub open spec fn same_if_stored(db: DbState, e: VerifiedEvent) -> bool {
    db.events.contains_key(e.id()) ==> db.events[e.id()] == e
}

/// The tables that soundness speaks of are the same.
pub open spec fn core_same(x: DbState, y: DbState) -> bool {
    &&& x.events == y.events
    &&& x.events_heads == y.events_heads
    &&& x.events_missing == y.events_missing
    &&& x.events_content_state == y.events_content_state
    &&& x.events_content_missing == y.events_content_missing
    &&& x.content_rc == y.content_rc
    &&& x.content_store == y.content_store
    &&& x.ids_data_usage == y.ids_data_usage
}

pub proof fn lemma_core_same(x: DbState, y: DbState)
    requires
        database_sound(x),
        core_same(x, y),
    ensures
        database_sound(y),
{
    lemma_same_events(x, y);
    lemma_books_same(x, y);
}

/// Only the payload state of one event changed, and not whether it is deleted.
proof fn lemma_state_changed(x: DbState, y: DbState, id: ShortEventId)
    requires
        database_sound(x),
        bookkeeping_exact(y),
        x.events == y.events,
        x.events_heads == y.events_heads,
        x.events_missing == y.events_missing,
        x.events.contains_key(id),
        forall|other: ShortEventId| #[trigger] deleted_by_of(y, other) == deleted_by_of(x, other),
        forall|other: ShortEventId| #[trigger]
            y.events_content_state.contains_key(other) ==> x.events_content_state.contains_key(
                other,
            ) || other == id,
    ensures
        database_sound(y),
{
    lemma_same_events(x, y);
}

proof fn lemma_inserted_core(
    me: Database,
    db: DbState,
    e: VerifiedEvent,
    payload: Payload,
    now: Timestamp,
)
    ensures
        content_inserted(me, db, e, payload, now) matches Ok((_, after)) ==> core_same(db, after),
{
}

proof fn lemma_reverted_core(db: DbState, e: VerifiedEvent, post: Option<SocialPost>)
    ensures
        content_reverted(db, e, post) matches Ok((_, after)) ==> core_same(db, after),
{
}

proof fn lemma_pruned_sound(db: DbState, id: ShortEventId)
    requires
        database_sound(db),
        db.events.contains_key(id),
    ensures
        ({
            let e = db.events[id].event;
            pruned(db, id, e.content_hash, Some((e.author, e.content_len))) matches Ok((_, after))
                ==> database_sound(after) && after.events == db.events
        }),
{
    let e = db.events[id].event;
    if let Ok((_, after)) = pruned(db, id, e.content_hash, Some((e.author, e.content_len))) {
        law_prune_keeps_books(db, id);
        lemma_state_changed(db, after, id);
    }
}

/// An empty database is sound.
pub proof fn law_empty_sound(db: DbState)
    requires
        db.events.is_empty(),
        db.events_heads.is_empty(),
        db.events_missing.is_empty(),
        db.events_content_state.is_empty(),
        db.events_content_missing.is_empty(),
        db.content_rc.is_empty(),
        db.ids_data_usage.is_empty(),
    ensures
        database_sound(db),
{
    law_empty_graph(db);
    assert(db.events.dom() =~= Set::empty());
    assert forall|hash: ContentHash| #[trigger]
        references(db.content_rc, hash) == holders(db, hash).len() by {
        assert(holders(db, hash) =~= Set::empty());
        assert(!db.content_rc.dom().contains(hash));
    }
    assert forall|h: ContentHash| !#[trigger] db.content_rc.contains_key(h) by {
        assert(!db.content_rc.dom().contains(h));
    }
    assert forall|author: RostraId| #[trigger] usage_of_author_exact(db, author) by {
        assert(own_events(db, author) =~= Set::empty());
        assert(!db.ids_data_usage.dom().contains(author));
        assert forall|b: Bucket| #[trigger] members(db, author, b) == Set::<ShortEventId>::empty() by {
            assert(members(db, author, b) =~= Set::empty());
        }
    }
    assert forall|k: (Timestamp, ShortEventId)| !#[trigger]
        db.events_content_missing.contains_key(k) by {
        assert(!db.events_content_missing.dom().contains(k));
    }
    assert forall|id: ShortEventId| !#[trigger] db.events.contains_key(id) by {
        assert(!db.events.dom().contains(id));
    }
}

/// The arrival of a payload keeps the database sound.
pub proof fn law_content_keeps_sound(
    me: Database,
    db: DbState,
    e: VerifiedEvent,
    bytes: Seq<u8>,
    payload: Payload,
    now: Timestamp,
)
    requires
        database_sound(db),
        same_if_stored(db, e),
    ensures
        content_processed(me, db, e, bytes, payload, now) matches Ok((_, after))
            ==> database_sound(after),
{
    if let Ok((_, after)) = content_processed(me, db, e, bytes, payload, now) {
        if let Some(state) = state_of(db.events_content_state, e.id()) {
            assert(db.events.contains_key(e.id()));
            match state {
                EventContentState::Missing { .. } => {
                    lemma_inserted_core(me, db, e, payload, now);
                    let (outcome, applied) = content_inserted(me, db, e, payload, now)->Ok_0;
                    lemma_core_same(db, applied);
                    match outcome {
                        Some(_) => {
                            lemma_content_kept(applied, e, state, bytes, now);
                            lemma_state_changed(applied, after, e.id());
                        },
                        None => {
                            lemma_content_rejected(applied, e, state);
                            lemma_state_changed(applied, after, e.id());
                        },
                    }
                },
                _ => {
                    lemma_core_same(db, after);
                },
            }
        } else {
            lemma_core_same(db, after);
        }
    }
}

/// The arrival of an event keeps the database sound.
pub proof fn law_event_keeps_sound(
    me: Database,
    db: DbState,
    e: VerifiedEvent,
    arrival: Arrival,
    retained: Option<SocialPost>,
    reverted: Option<SocialPost>,
)
    requires
        database_sound(db),
        same_if_stored(db, e),
        not_own_parent(e),
    ensures
        event_processed(me, db, e, arrival, retained, reverted) matches Ok((_, after))
            ==> database_sound(after),
{
    if let Ok((_, after)) = event_processed(me, db, e, arrival, retained, reverted) {
        let (outcome, mid) = inserted(db, e, true)->Ok_0;
        law_insert_keeps_graph(db, e, true);
        law_insert_keeps_deletions(db, e, true);
        law_insert_keeps_books(db, e, true);
        lemma_inserted_stores(db, e);
        lemma_newcomer_sound(me, mid, e, outcome, arrival, retained, reverted);
        let (_, told) = newcomer_processed(me, mid, e, outcome, arrival, retained, reverted)->Ok_0;
        lemma_pruned_sound(told, e.id());
    }
}

/// After an insertion the event is stored.
proof fn lemma_inserted_stores(db: DbState, e: VerifiedEvent)
    requires
        same_if_stored(db, e),
    ensures
        inserted(db, e, true) matches Ok((_, after)) ==> after.events.contains_key(e.id())
            && after.events[e.id()] == e,
{
    reveal(crate::insert_event::placed);
    reveal(crate::insert_event::parents_linked);
    reveal(crate::insert_event::header_stored);
}

/// An event that was taken is stored.
pub proof fn lemma_event_stored(
    me: Database,
    db: DbState,
    e: VerifiedEvent,
    arrival: Arrival,
    retained: Option<SocialPost>,
    reverted: Option<SocialPost>,
)
    requires
        same_if_stored(db, e),
    ensures
        event_processed(me, db, e, arrival, retained, reverted) matches Ok((_, after))
            ==> after.events.contains_key(e.id()) && after.events[e.id()] == e,
{
    lemma_inserted_stores(db, e);
}

proof fn lemma_newcomer_sound(
    me: Database,
    db: DbState,
    e: VerifiedEvent,
    outcome: InsertOutcomeModel,
    arrival: Arrival,
    retained: Option<SocialPost>,
    reverted: Option<SocialPost>,
)
    requires
        database_sound(db),
        db.events.contains_key(e.id()),
        db.events[e.id()] == e,
    ensures
        newcomer_processed(me, db, e, outcome, arrival, retained, reverted) matches Ok((_, after))
            ==> database_sound(after) && after.events == db.events,
{
    if let Ok((_, after)) = newcomer_processed(me, db, e, outcome, arrival, retained, reverted) {
        if let InsertOutcomeModel::Inserted {
            is_deleted,
            deleted_parent,
            reverted_parent_content,
            ..
        } = outcome {
            let with_age = aged(db, e, is_deleted, arrival.now, arrival.track_retention);
            lemma_core_same(db, with_age);
            lemma_pruned_sound(with_age, e.id());
            let decided = if with_age.events_quota_pruned.contains_key(e.id()) {
                (event_pruned(with_age, e)->Ok_0).1
            } else {
                with_age
            };
            assert(database_sound(decided));
            let done = registered(
                db,
                e,
                is_deleted,
                arrival.now,
                arrival.source,
                arrival.track_retention,
            )->Ok_0;
            lemma_core_same(decided, done);
            let noted = lineage_noted(me, done, e, is_deleted, retained)->Ok_0;
            lemma_core_same(done, noted);
            let listed = self_listed(me, noted, e);
            lemma_core_same(noted, listed);
            let parent = if reverted_parent_content is Some {
                deleted_parent
            } else {
                None
            };
            if let Some(id) = parent {
                lemma_reverted_core(listed, listed.events[id], reverted);
            }
            lemma_core_same(listed, after);
        }
    }
}

/// A payload that is given up for its size keeps the database sound.
pub proof fn law_quota_keeps_sound(
    me: Database,
    db: DbState,
    request: QuotaPruneRequest,
    accounting_ready: bool,
    post: Option<SocialPost>,
)
    requires
        database_sound(db),
    ensures
        quota_pruned(me, db, request, accounting_ready, post) matches Ok((_, after))
            ==> database_sound(after),
{
    if let Ok((_, after)) = quota_pruned(me, db, request, accounting_ready, post) {
        if let Ok(Ok(now)) = quota_decided(me, db, request, accounting_ready) {
            let e = db.events[request.id];
            lemma_reverted_core(db, e, post);
            let without = if request.target is Processed {
                (content_reverted(db, e, post)->Ok_0).1
            } else {
                db
            };
            lemma_core_same(db, without);
            lemma_pruned_sound(without, request.id);
            let done = (pruned(
                without,
                request.id,
                e.event.content_hash,
                Some((e.event.author, e.event.content_len)),
            )->Ok_0).1;
            lemma_core_same(done, after);
        }
    }
}


/// The arrival of a payload keeps it so that posts that replace others are
/// stored.
pub proof fn law_content_keeps_edits(
    me: Database,
    db: DbState,
    e: VerifiedEvent,
    bytes: Seq<u8>,
    payload: Payload,
    now: Timestamp,
)
    requires
        database_sound(db),
        edits_stored(db),
    ensures
        content_processed(me, db, e, bytes, payload, now) matches Ok((_, after)) ==> edits_stored(
            after,
        ),
{
    if state_of(db.events_content_state, e.id()) is Some {
        assert(db.events.contains_key(e.id()));
    }
}

/// The arrival of an event keeps it so that posts that replace others are
/// stored.
pub proof fn law_event_keeps_edits(
    me: Database,
    db: DbState,
    e: VerifiedEvent,
    arrival: Arrival,
    retained: Option<SocialPost>,
    reverted: Option<SocialPost>,
)
    requires
        same_if_stored(db, e),
        edits_stored(db),
    ensures
        event_processed(me, db, e, arrival, retained, reverted) matches Ok((_, after))
            ==> edits_stored(after),
{
    if let Ok((_, after)) = event_processed(me, db, e, arrival, retained, reverted) {
        let (outcome, mid) = inserted(db, e, true)->Ok_0;
        lemma_inserted_stores(db, e);
        lemma_inserted_edits(db, e);
    }
}

proof fn lemma_inserted_edits(db: DbState, e: VerifiedEvent)
    requires
        same_if_stored(db, e),
    ensures
        inserted(db, e, true) matches Ok((_, after)) ==> {
            &&& after.social_posts_replaced_by == db.social_posts_replaced_by
            &&& forall|id: ShortEventId| #[trigger]
                db.events.contains_key(id) ==> after.events.contains_key(id)
        },
{
    reveal(crate::insert_event::placed);
    reveal(crate::insert_event::parents_linked);
    reveal(crate::insert_event::header_stored);
}

/// Giving a payload up keeps it so that posts that replace others are stored.
pub proof fn law_quota_keeps_edits(
    me: Database,
    db: DbState,
    request: QuotaPruneRequest,
    accounting_ready: bool,
    post: Option<SocialPost>,
)
    requires
        edits_stored(db),
    ensures
        quota_pruned(me, db, request, accounting_ready, post) matches Ok((_, after))
            ==> edits_stored(after),
{
}

}
