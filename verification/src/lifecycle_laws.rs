//! The index of candidates follows what becomes of events and payloads.

use vstd::prelude::*;

use crate::content::state_of;
use crate::database::Database;
use crate::event::VerifiedEvent;
use crate::ids::{ShortEventId, Timestamp};
use crate::insert_event::{inserted, InsertOutcomeModel};
use crate::lifecycle::{content_indexed, deletion_target, event_indexed};
use crate::payload::{Payload, SocialPost};
use crate::process_content::content_processed;
use crate::process_event::{
    event_processed, lineage_noted, newcomer_processed, parent_reverted, registered, self_listed,
    settled_event, Arrival,
};
use crate::quota_pruning::{pruned_and_indexed, quota_pruned, QuotaPruneRequest};
use crate::retention::{IndexRecord, IndexStage};
use crate::retention_index::{
    entry_of, index_record, index_refreshed, waiting_entry, Scale,
};
use crate::retention_laws::{
    beyond, entry_fresh, index_built, index_owned, law_refresh,
};
use crate::soundness::{database_sound, lemma_core_same};
use crate::tables::DbState;

verus! {

/// The index follows an event: what it holds of it is what it is to hold, or
/// the event is not reached yet and it holds nothing of it.
pub open spec fn entry_follows(
    me: Database,
    db: DbState,
    scale: Scale,
    record: IndexRecord,
    id: ShortEventId,
) -> bool {
    match record.stage {
        IndexStage::Clearing => true,
        IndexStage::Events(cursor) => entry_fresh(me, db, scale, record.generation, id) || (beyond(
            cursor,
            id,
        ) && !db.content_retention_reverse.contains_key(id)),
        IndexStage::Ready => entry_fresh(me, db, scale, record.generation, id),
    }
}

/// The index is owned and follows every event but the given ones.
spec fn follows_but(
    me: Database,
    db: DbState,
    scale: Scale,
    record: IndexRecord,
    behind: Set<ShortEventId>,
) -> bool {
    &&& index_owned(db)
    &&& index_record(db) == Some(record)
    &&& forall|id: ShortEventId|
        !behind.contains(id) ==> #[trigger] entry_follows(me, db, scale, record, id)
}

/// An index that follows every event is built as far as it says.
proof fn lemma_follows_is_built(me: Database, db: DbState, scale: Scale, record: IndexRecord)
    requires
        index_owned(db),
        index_record(db) == Some(record),
    ensures
        follows_but(me, db, scale, record, Set::empty()) == index_built(me, db, scale, record),
{
    if index_built(me, db, scale, record) {
        assert forall|id: ShortEventId| #[trigger] entry_follows(me, db, scale, record, id) by {
            let fresh = entry_fresh(me, db, scale, record.generation, id);
        }
    }
    if follows_but(me, db, scale, record, Set::empty()) {
        assert forall|id: ShortEventId| #[trigger]
            entry_fresh(me, db, scale, record.generation, id) || record.stage is Clearing || (
            record.stage matches IndexStage::Events(cursor) && beyond(cursor, id)
                && !db.content_retention_reverse.contains_key(id)) by {
            assert(entry_follows(me, db, scale, record, id));
        }
    }
}

/// Bringing the index up to date with an event makes it follow that one too.
proof fn lemma_refresh_follows(
    me: Database,
    db: DbState,
    scale: Scale,
    record: IndexRecord,
    behind: Set<ShortEventId>,
    id: ShortEventId,
)
    requires
        follows_but(me, db, scale, record, behind),
    ensures
        index_refreshed(me, db, scale, id) matches Ok(after) ==> follows_but(
            me,
            after,
            scale,
            record,
            behind.remove(id),
        ),
{
    if !(record.stage is Clearing) {
        law_refresh(me, db, scale, id);
        if let Ok(after) = index_refreshed(me, db, scale, id) {
            let generation = record.generation;
            assert forall|x: ShortEventId| !behind.remove(id).contains(x) implies #[trigger]
            entry_follows(me, after, scale, record, x) by {
                assert(entry_of(me, after, scale, generation, x) == entry_of(
                    me,
                    db,
                    scale,
                    generation,
                    x,
                ));
                if x != id {
                    assert(entry_follows(me, db, scale, record, x));
                    assert(waiting_entry(after, x) == waiting_entry(db, x));
                }
            }
        }
    }
}

/// An event is the same, with the state of its payload and its age.
spec fn same_at(db: DbState, after: DbState, id: ShortEventId) -> bool {
    &&& after.events.contains_key(id) == db.events.contains_key(id)
    &&& after.events[id] == db.events[id]
    &&& state_of(after.events_content_state, id) == state_of(db.events_content_state, id)
    &&& after.events_retention_origins.contains_key(id) == db.events_retention_origins.contains_key(
        id,
    )
    &&& after.events_retention_origins[id] == db.events_retention_origins[id]
}

/// What the index is to hold is the same for all but the given events, and
/// what it holds is the same.
spec fn same_but(db: DbState, after: DbState, changed: Set<ShortEventId>) -> bool {
    &&& after.content_retention_author == db.content_retention_author
    &&& after.content_retention_global == db.content_retention_global
    &&& after.content_retention_grace == db.content_retention_grace
    &&& after.content_retention_reverse == db.content_retention_reverse
    &&& after.content_retention_state == db.content_retention_state
    &&& forall|id: ShortEventId| !changed.contains(id) ==> #[trigger] same_at(db, after, id)
}

proof fn lemma_follows_but_changed(
    me: Database,
    db: DbState,
    after: DbState,
    scale: Scale,
    record: IndexRecord,
    changed: Set<ShortEventId>,
)
    requires
        follows_but(me, db, scale, record, Set::empty()),
        same_but(db, after, changed),
    ensures
        follows_but(me, after, scale, record, changed),
{
    assert forall|id: ShortEventId| !changed.contains(id) implies #[trigger] entry_follows(
        me,
        after,
        scale,
        record,
        id,
    ) by {
        assert(same_at(db, after, id));
        assert(entry_follows(me, db, scale, record, id));
        assert(waiting_entry(after, id) == waiting_entry(db, id));
    }
}

/// The events that taking an event can change.
spec fn changed_by(e: VerifiedEvent) -> Set<ShortEventId> {
    match deletion_target(e) {
        Some(target) => Set::empty().insert(e.id()).insert(target),
        None => Set::empty().insert(e.id()),
    }
}

proof fn lemma_inserted_local(db: DbState, e: VerifiedEvent)
    ensures
        inserted(db, e, true) matches Ok((_, after)) ==> same_but(db, after, changed_by(e)),
{
    reveal(crate::insert_event::placed);
    reveal(crate::insert_event::parents_linked);
    reveal(crate::insert_event::header_stored);
}

proof fn lemma_registered_local(db: DbState, e: VerifiedEvent, is_deleted: bool, arrival: Arrival)
    ensures
        registered(
            db,
            e,
            is_deleted,
            arrival.now,
            arrival.source,
            arrival.track_retention,
        ) matches Ok(after) ==> same_but(db, after, changed_by(e)),
{
}

proof fn lemma_reverted_local(db: DbState, parent: Option<ShortEventId>, post: Option<SocialPost>)
    ensures
        parent_reverted(db, parent, post) matches Ok((_, after)) ==> same_but(
            db,
            after,
            Set::empty(),
        ),
{
}

proof fn lemma_newcomer_local(
    me: Database,
    db: DbState,
    e: VerifiedEvent,
    outcome: InsertOutcomeModel,
    arrival: Arrival,
    retained: Option<SocialPost>,
    reverted: Option<SocialPost>,
)
    ensures
        newcomer_processed(me, db, e, outcome, arrival, retained, reverted) matches Ok((_, after))
            ==> same_but(db, after, changed_by(e)),
{
    if let InsertOutcomeModel::Inserted {
        is_deleted,
        deleted_parent,
        reverted_parent_content,
        ..
    } = outcome {
        lemma_registered_local(db, e, is_deleted, arrival);
        if let Ok(first) = registered(
            db,
            e,
            is_deleted,
            arrival.now,
            arrival.source,
            arrival.track_retention,
        ) {
            if let Ok(second) = lineage_noted(me, first, e, is_deleted, retained) {
                let listed = self_listed(me, second, e);
                assert(same_but(first, listed, Set::empty()));
                let parent = if reverted_parent_content is Some {
                    deleted_parent
                } else {
                    None
                };
                lemma_reverted_local(listed, parent, reverted);
                if let Ok((_, after)) = parent_reverted(listed, parent, reverted) {
                    lemma_same_chain(db, first, listed, changed_by(e), Set::empty());
                    lemma_same_chain(db, listed, after, changed_by(e), Set::empty());
                }
            }
        }
    }
}

proof fn lemma_same_chain(
    x: DbState,
    y: DbState,
    z: DbState,
    first: Set<ShortEventId>,
    second: Set<ShortEventId>,
)
    requires
        same_but(x, y, first),
        same_but(y, z, second),
        second.subset_of(first),
    ensures
        same_but(x, z, first),
{
    assert forall|id: ShortEventId| !first.contains(id) implies #[trigger] same_at(x, z, id) by {
        assert(same_at(x, y, id) && same_at(y, z, id));
    }
}

proof fn lemma_event_local(
    me: Database,
    db: DbState,
    e: VerifiedEvent,
    arrival: Arrival,
    retained: Option<SocialPost>,
    reverted: Option<SocialPost>,
)
    ensures
        event_processed(me, db, e, arrival, retained, reverted) matches Ok((_, after)) ==> same_but(
            db,
            after,
            changed_by(e),
        ),
{
    lemma_inserted_local(db, e);
    if let Ok((outcome, first)) = inserted(db, e, true) {
        lemma_newcomer_local(me, first, e, outcome, arrival, retained, reverted);
        if let Ok((_, second)) = newcomer_processed(
            me,
            first,
            e,
            outcome,
            arrival,
            retained,
            reverted,
        ) {
            lemma_same_chain(db, first, second, changed_by(e), changed_by(e));
            if let Ok((_, after)) = settled_event(me, second, e, outcome) {
                assert(same_but(second, after, changed_by(e)));
                lemma_same_chain(db, second, after, changed_by(e), changed_by(e));
            }
        }
    }
}

/// Taking an event keeps every row of the index owned and the index as
/// complete as it was.
pub proof fn law_event_keeps_index(
    me: Database,
    db: DbState,
    scale: Scale,
    record: IndexRecord,
    e: VerifiedEvent,
    arrival: Arrival,
    retained: Option<SocialPost>,
    reverted: Option<SocialPost>,
)
    requires
        index_owned(db),
        index_record(db) == Some(record),
        index_built(me, db, scale, record),
    ensures
        event_indexed(
            me,
            scale,
            e,
            event_processed(me, db, e, arrival, retained, reverted),
        ) matches Ok((_, after)) ==> index_owned(after) && index_record(after) == Some(record)
            && index_built(me, after, scale, record),
{
    if let Ok((_, mid)) = event_processed(me, db, e, arrival, retained, reverted) {
        lemma_follows_is_built(me, db, scale, record);
        lemma_event_local(me, db, e, arrival, retained, reverted);
        lemma_follows_but_changed(me, db, mid, scale, record, changed_by(e));
        lemma_refresh_follows(me, mid, scale, record, changed_by(e), e.id());
        if let Ok(once) = index_refreshed(me, mid, scale, e.id()) {
            let left_over = changed_by(e).remove(e.id());
            if let Some(target) = deletion_target(e) {
                lemma_refresh_follows(me, once, scale, record, left_over, target);
                if let Ok(after) = index_refreshed(me, once, scale, target) {
                    assert(left_over.remove(target) =~= Set::empty());
                    lemma_follows_is_built(me, after, scale, record);
                }
            } else {
                assert(left_over =~= Set::empty());
                lemma_follows_is_built(me, once, scale, record);
            }
        }
    }
}

/// Taking a payload keeps every row of the index owned and the index as
/// complete as it was.
pub proof fn law_content_keeps_index(
    me: Database,
    db: DbState,
    scale: Scale,
    record: IndexRecord,
    e: VerifiedEvent,
    bytes: Seq<u8>,
    payload: Payload,
    now: Timestamp,
)
    requires
        index_owned(db),
        index_record(db) == Some(record),
        index_built(me, db, scale, record),
    ensures
        content_indexed(me, db, scale, e, bytes, payload, now) matches Ok((_, after))
            ==> index_owned(after) && index_record(after) == Some(record) && index_built(
            me,
            after,
            scale,
            record,
        ),
{
    if let Ok((_, mid)) = content_processed(me, db, e, bytes, payload, now) {
        let changed = Set::empty().insert(e.id());
        lemma_follows_is_built(me, db, scale, record);
        assert(same_but(db, mid, changed));
        lemma_follows_but_changed(me, db, mid, scale, record, changed);
        lemma_refresh_follows(me, mid, scale, record, changed, e.id());
        assert(changed.remove(e.id()) =~= Set::empty());
        if let Ok(after) = index_refreshed(me, mid, scale, e.id()) {
            lemma_follows_is_built(me, after, scale, record);
        }
    }
}

/// Giving a payload up keeps every row of the index owned and the index as
/// complete as it was.
pub proof fn law_quota_keeps_index(
    me: Database,
    db: DbState,
    scale: Scale,
    record: IndexRecord,
    request: QuotaPruneRequest,
    accounting_ready: bool,
    post: Option<SocialPost>,
)
    requires
        index_owned(db),
        index_record(db) == Some(record),
        index_built(me, db, scale, record),
    ensures
        pruned_and_indexed(me, db, scale, request, accounting_ready, post) matches Ok((_, after))
            ==> index_owned(after) && index_record(after) == Some(record) && index_built(
            me,
            after,
            scale,
            record,
        ),
{
    if let Ok((_, mid)) = quota_pruned(me, db, request, accounting_ready, post) {
        let changed = Set::empty().insert(request.id);
        lemma_follows_is_built(me, db, scale, record);
        assert(same_but(db, mid, changed));
        lemma_follows_but_changed(me, db, mid, scale, record, changed);
        lemma_refresh_follows(me, mid, scale, record, changed, request.id);
        assert(changed.remove(request.id) =~= Set::empty());
        if let Ok(after) = index_refreshed(me, mid, scale, request.id) {
            lemma_follows_is_built(me, after, scale, record);
        }
    }
}

/// Keeping the index up to date changes nothing else, so the database stays
/// sound.
pub proof fn law_index_keeps_sound(me: Database, db: DbState, scale: Scale, id: ShortEventId)
    requires
        database_sound(db),
    ensures
        index_refreshed(me, db, scale, id) matches Ok(after) ==> database_sound(after),
{
    if let Ok(after) = index_refreshed(me, db, scale, id) {
        lemma_core_same(db, after);
    }
}

}
