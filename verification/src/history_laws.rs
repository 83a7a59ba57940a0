//! What is never lost or taken back, whatever comes.

use vstd::prelude::*;

use crate::content::state_of;
use crate::database::Database;
use crate::event::{EventContentState, VerifiedEvent};
use crate::graph_laws::states_of_stored;
use crate::ids::{ContentHash, RostraId, ShortEventId, Timestamp};
use crate::insert_event::{
    deleted_before, header_stored, inserted, parent_linked, parents_linked, placed, Inserting,
    InsertOutcomeModel,
};
use crate::listing::lemma_sorted;
use crate::payload::{Payload, SocialPost};
use crate::process_content::content_processed;
use crate::process_event::{
    event_processed, lineage_noted, newcomer_processed, parent_reverted, registered, self_listed,
    settled_event, Arrival,
};
use crate::quota_pruning::{quota_pruned, QuotaPruneRequest};
use crate::retention::RetentionOrigins;
use crate::soundness::same_if_stored;
use crate::tables::DbState;

verus! {

/// The payload is deleted by its author.
pub open spec fn is_deleted(db: DbState, id: ShortEventId) -> bool {
    state_of(db.events_content_state, id) matches Some(EventContentState::Deleted { .. })
}

/// The local age of an event stays, and so does the time of its first
/// processing once it has one.
pub open spec fn origins_stay(before: RetentionOrigins, after: RetentionOrigins) -> bool {
    &&& after.effective_timestamp == before.effective_timestamp
    &&& before.materialized_at is Some ==> after.materialized_at == before.materialized_at
}

/// An event that is stored stays as it is, and so do its age and a decision on
/// its payload; a payload that its author deleted stays deleted.
pub open spec fn event_stays(db: DbState, after: DbState, id: ShortEventId) -> bool {
    &&& db.events.contains_key(id) ==> after.events.contains_key(id) && after.events[id]
        == db.events[id]
    &&& is_deleted(db, id) ==> is_deleted(after, id)
    &&& db.events_retention_origins.contains_key(id) ==> after.events_retention_origins.contains_key(
        id,
    ) && origins_stay(db.events_retention_origins[id], after.events_retention_origins[id])
    &&& db.events_quota_pruned.contains_key(id) ==> after.events_quota_pruned.contains_key(id)
        && after.events_quota_pruned[id] == db.events_quota_pruned[id]
}

/// Nothing that is on record is lost: what is known of events, stored
/// payloads, edits, and the order in which posts were first shown.
pub open spec fn history_kept(db: DbState, after: DbState) -> bool {
    &&& forall|id: ShortEventId| #[trigger] event_stays(db, after, id)
    &&& forall|hash: ContentHash| #[trigger]
        db.content_store.contains_key(hash) ==> after.content_store.contains_key(hash)
    &&& forall|k: (RostraId, ShortEventId, ShortEventId)| #[trigger]
        db.social_posts_replaced_by.contains_key(k) ==> after.social_posts_replaced_by.contains_key(
            k,
        )
    &&& forall|k: (RostraId, ShortEventId, ShortEventId)| #[trigger]
        db.social_posts_replaces.contains_key(k) ==> after.social_posts_replaces.contains_key(k)
    &&& forall|i: u64| #[trigger]
        db.social_post_materializations.contains_key(i)
            ==> after.social_post_materializations.contains_key(i)
            && after.social_post_materializations[i] == db.social_post_materializations[i]
}

/// What is kept by each of two steps is kept by both together.
pub proof fn law_history_accumulates(x: DbState, y: DbState, z: DbState)
    requires
        history_kept(x, y),
        history_kept(y, z),
    ensures
        history_kept(x, z),
{
    assert forall|id: ShortEventId| #[trigger] event_stays(x, z, id) by {
        assert(event_stays(x, y, id) && event_stays(y, z, id));
    }
}

/// A payload that comes loses nothing.
pub proof fn law_content_keeps_history(
    me: Database,
    db: DbState,
    e: VerifiedEvent,
    bytes: Seq<u8>,
    payload: Payload,
    now: Timestamp,
)
    requires
        db.social_post_materializations.dom().finite(),
    ensures
        content_processed(me, db, e, bytes, payload, now) matches Ok((_, after)) ==> history_kept(
            db,
            after,
        ),
{
    if let Ok((_, after)) = content_processed(me, db, e, bytes, payload, now) {
        lemma_sorted(db.social_post_materializations.dom());
    }
}

/// Giving a payload up loses nothing that is on record.
pub proof fn law_quota_keeps_history(
    me: Database,
    db: DbState,
    request: QuotaPruneRequest,
    accounting_ready: bool,
    post: Option<SocialPost>,
)
    ensures
        quota_pruned(me, db, request, accounting_ready, post) matches Ok((_, after))
            ==> history_kept(db, after),
{
}

proof fn lemma_link_history(s: Inserting, e: VerifiedEvent, parent: ShortEventId, is_aux: bool)
    ensures
        parent_linked(s, e, parent, is_aux, true) matches Ok(after) ==> history_kept(
            s.db,
            after.db,
        ) && after.db.events == s.db.events && (state_of(s.db.events_content_state, e.id()) is None
            && !s.db.events.contains_key(e.id()) ==> state_of(
            after.db.events_content_state,
            e.id(),
        ) is None),
{
}

proof fn lemma_header_history(db: DbState, e: VerifiedEvent, deleted: bool)
    requires
        !db.events.contains_key(e.id()),
        !deleted ==> state_of(db.events_content_state, e.id()) is None,
    ensures
        header_stored(db, e, deleted, true) matches Ok(after) ==> history_kept(db, after),
{
    reveal(header_stored);
}

proof fn lemma_inserted_history(db: DbState, e: VerifiedEvent)
    requires
        states_of_stored(db),
        same_if_stored(db, e),
    ensures
        inserted(db, e, true) matches Ok((_, after)) ==> history_kept(db, after),
{
    let known = DbState { ids_full: db.ids_full.insert(e.event.author, ()), ..db };
    if !db.events.contains_key(e.id()) && inserted(db, e, true) is Ok {
        let start = Inserting {
            db: placed(known, e),
            deleted_parent: None,
            reverted: None,
            missing: Seq::empty(),
        };
        let deleted = deleted_before(db, e);
        assert(state_of(db.events_content_state, e.id()) is None);
        assert(history_kept(db, start.db) && start.db.events == db.events && (!deleted ==> state_of(
            start.db.events_content_state,
            e.id(),
        ) is None)) by {
            reveal(placed);
        }
        let linked = parents_linked(start, e, true)->Ok_0;
        assert(history_kept(db, linked.db) && linked.db.events == db.events && (!deleted
            ==> state_of(linked.db.events_content_state, e.id()) is None)) by {
            reveal(parents_linked);
            let first = match e.event.parent_aux {
                Some(parent) => {
                    lemma_link_history(start, e, parent, true);
                    parent_linked(start, e, parent, true, true)->Ok_0
                },
                None => start,
            };
            if first != start {
                law_history_accumulates(db, start.db, first.db);
            }
            if let Some(parent) = e.event.parent_prev {
                lemma_link_history(first, e, parent, false);
                if e.event.parent_prev != e.event.parent_aux {
                    law_history_accumulates(db, first.db, linked.db);
                }
            }
        }
        lemma_header_history(linked.db, e, deleted);
        let after = header_stored(linked.db, e, deleted, true)->Ok_0;
        law_history_accumulates(db, linked.db, after);
    }
}

/// An event that comes loses nothing.
pub proof fn law_event_keeps_history(
    me: Database,
    db: DbState,
    e: VerifiedEvent,
    arrival: Arrival,
    retained: Option<SocialPost>,
    reverted: Option<SocialPost>,
)
    requires
        states_of_stored(db),
        same_if_stored(db, e),
    ensures
        event_processed(me, db, e, arrival, retained, reverted) matches Ok((_, after))
            ==> history_kept(db, after),
{
    lemma_inserted_history(db, e);
    if let Ok((outcome, first)) = inserted(db, e, true) {
        lemma_newcomer_history(me, first, e, outcome, arrival, retained, reverted);
        if let Ok((_, second)) = newcomer_processed(
            me,
            first,
            e,
            outcome,
            arrival,
            retained,
            reverted,
        ) {
            law_history_accumulates(db, first, second);
            if let Ok((_, after)) = settled_event(me, second, e, outcome) {
                assert(history_kept(second, after));
                law_history_accumulates(db, second, after);
            }
        }
    }
}

proof fn lemma_newcomer_history(
    me: Database,
    db: DbState,
    e: VerifiedEvent,
    outcome: InsertOutcomeModel,
    arrival: Arrival,
    retained: Option<SocialPost>,
    reverted: Option<SocialPost>,
)
    ensures
        newcomer_processed(me, db, e, outcome, arrival, retained, reverted) matches Ok((_, after))
            ==> history_kept(db, after),
{
    if let InsertOutcomeModel::Inserted {
        is_deleted,
        deleted_parent,
        reverted_parent_content,
        ..
    } = outcome {
        if let Ok(first) = registered(
            db,
            e,
            is_deleted,
            arrival.now,
            arrival.source,
            arrival.track_retention,
        ) {
            assert(history_kept(db, first));
            if let Ok(second) = lineage_noted(me, first, e, is_deleted, retained) {
                let listed = self_listed(me, second, e);
                assert(history_kept(first, listed));
                let parent = if reverted_parent_content is Some {
                    deleted_parent
                } else {
                    None
                };
                if let Ok((_, after)) = parent_reverted(listed, parent, reverted) {
                    assert(history_kept(listed, after));
                    law_history_accumulates(db, first, listed);
                    law_history_accumulates(db, listed, after);
                }
            }
        }
    }
}

}
