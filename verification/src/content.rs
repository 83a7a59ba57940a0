//! References to payloads, and the states that payloads go through.

use vstd::prelude::*;

use crate::database::Database;
use crate::error::{ran, refusal_keeps, unread, DbError, DbResult, Effect};
use crate::event::{EventContentState, VerifiedEvent};
use crate::ids::{ContentHash, EventOrder, RostraId, ShortEventId, Timestamp};
use crate::table::Table;
use crate::tables::{DbState, Tables};
use crate::usage::usage_pruned;

verus! {

/// The number of references to a payload.
pub open spec fn references(m: Map<ContentHash, u64>, hash: ContentHash) -> u64 {
    if m.contains_key(hash) {
        m[hash]
    } else {
        0
    }
}

/// Every counted payload is referred to at least once.
pub open spec fn counts_positive(m: Map<ContentHash, u64>) -> bool {
    forall|h: ContentHash| #[trigger] m.contains_key(h) ==> m[h] > 0
}

/// One more event refers to a payload. A row that counts nothing must not be.
pub open spec fn incremented(m: Map<ContentHash, u64>, hash: ContentHash) -> Effect<
    u64,
    Map<ContentHash, u64>,
> {
    if m.contains_key(hash) && m[hash] == 0 {
        Err(DbError::PayloadAccountingInvariant)
    } else if references(m, hash) == u64::MAX {
        Err(DbError::Overflow)
    } else {
        let n = (references(m, hash) + 1) as u64;
        Ok((n, m.insert(hash, n)))
    }
}

/// One event less refers to a payload; the row goes with the last reference.
pub open spec fn decremented(m: Map<ContentHash, u64>, hash: ContentHash) -> Effect<
    u64,
    Map<ContentHash, u64>,
> {
    if !m.contains_key(hash) {
        Err(DbError::PayloadAccountingInvariant)
    } else if m[hash] == 0 {
        Err(DbError::Overflow)
    } else if m[hash] == 1 {
        Ok((0, m.remove(hash)))
    } else {
        let n = (m[hash] - 1) as u64;
        Ok((n, m.insert(hash, n)))
    }
}

/// To whom a deletion is attributed once another event asked for it too: the
/// greater of the two in event order. The stored attribution must name a
/// stored event.
pub open spec fn attributed(
    events: Map<ShortEventId, VerifiedEvent>,
    current: Option<ShortEventId>,
    candidate: Option<EventOrder>,
) -> Result<Option<ShortEventId>, DbError> {
    match (current, candidate) {
        (_, None) => Ok(current),
        (None, Some(c)) => Ok(Some(c.event_id)),
        (Some(id), Some(c)) => if events.contains_key(id) {
            let order = EventOrder { timestamp: events[id].event.timestamp, event_id: id };
            Ok(Some(order.spec_max_of(c).event_id))
        } else {
            Err(DbError::MissingDeletionAttribution { event_id: id })
        },
    }
}

/// Whether a state still holds a reference to the payload.
pub open spec fn holds_reference(state: Option<EventContentState>) -> bool {
    match state {
        None => true,
        Some(EventContentState::Missing { .. }) => true,
        _ => false,
    }
}

/// The state that a row gives, if there is one.
pub open spec fn state_of(
    m: Map<ShortEventId, EventContentState>,
    id: ShortEventId,
) -> Option<EventContentState> {
    if m.contains_key(id) {
        Some(m[id])
    } else {
        None
    }
}

/// The fetch queue once an event is no longer waited for in the given state.
pub open spec fn unqueued(
    m: Map<(Timestamp, ShortEventId), ()>,
    id: ShortEventId,
    state: Option<EventContentState>,
) -> Map<(Timestamp, ShortEventId), ()> {
    match state {
        Some(EventContentState::Missing { next_fetch_attempt, .. }) => m.remove(
            (next_fetch_attempt, id),
        ),
        _ => m,
    }
}

/// A payload is pruned: a missing or processed one gives up its reference and
/// its place in the fetch queue; a pruned one stays as it is; a deleted or
/// invalid one cannot be pruned. The result says whether it is pruned now.
/// Where `usage` is given, it is whose usage the payload counts to, and its
/// length.
pub open spec fn pruned(
    db: DbState,
    id: ShortEventId,
    hash: ContentHash,
    usage: Option<(RostraId, u32)>,
) -> Effect<bool, DbState> {
    let state = state_of(db.events_content_state, id);
    match state {
        Some(EventContentState::Deleted { .. }) => Ok((false, db)),
        Some(EventContentState::Invalid) => Ok((false, db)),
        Some(EventContentState::Pruned) => Ok((true, db)),
        _ => match decremented(db.content_rc, hash) {
            Err(e) => Err(e),
            Ok((_, content_rc)) => {
                let after = DbState {
                    content_rc,
                    events_content_state: db.events_content_state.insert(
                        id,
                        EventContentState::Pruned,
                    ),
                    events_content_missing: unqueued(db.events_content_missing, id, state),
                    ..db
                };
                match usage {
                    None => Ok((true, after)),
                    Some((author, len)) => match usage_pruned(
                        db.ids_data_usage,
                        author,
                        len,
                        state,
                    ) {
                        Err(e) => Err(e),
                        Ok((_, ids_data_usage)) => Ok((true, DbState { ids_data_usage, ..after })),
                    },
                }
            },
        },
    }
}

impl Database {
    /// Counts a reference to a payload; the result is how many there are now.
    pub fn increment_content_rc_tx(
        content_hash: ContentHash,
        content_rc: &mut Table<'_, ContentHash, u64>,
    ) -> (res: DbResult<u64>)
        ensures
            ran(res, final(content_rc)@, incremented(old(content_rc)@, content_hash)),
            refusal_keeps(res, old(content_rc)@, final(content_rc)@),
            unread(res) ==> !old(content_rc).intact(),
            res is Ok && old(content_rc).intact() ==> final(content_rc).intact(),
    {
        let current: u64 = match content_rc.get(&content_hash)? {
            Some(0) => return Err(DbError::PayloadAccountingInvariant),
            Some(n) => n,
            None => 0,
        };
        match current.checked_add(1) {
            Some(next) => {
                content_rc.insert(&content_hash, &next)?;
                Ok(next)
            },
            None => Err(DbError::Overflow),
        }
    }

    /// Takes a reference to a payload back; the result is how many are left.
    /// The payload itself stays in its table.
    pub fn decrement_content_rc_tx(
        content_hash: ContentHash,
        content_rc: &mut Table<'_, ContentHash, u64>,
    ) -> (res: DbResult<u64>)
        ensures
            ran(res, final(content_rc)@, decremented(old(content_rc)@, content_hash)),
            refusal_keeps(res, old(content_rc)@, final(content_rc)@),
            unread(res) ==> !old(content_rc).intact(),
            res is Ok && old(content_rc).intact() ==> final(content_rc).intact(),
    {
        let current: u64 = match content_rc.get(&content_hash)? {
            Some(n) => n,
            None => return Err(DbError::PayloadAccountingInvariant),
        };
        match current.checked_sub(1) {
            Some(0) => {
                content_rc.remove(&content_hash)?;
                Ok(0)
            },
            Some(next) => {
                content_rc.insert(&content_hash, &next)?;
                Ok(next)
            },
            None => Err(DbError::Overflow),
        }
    }

    /// The number of references to a payload.
    pub fn get_content_rc_tx(
        content_hash: ContentHash,
        content_rc: &Table<'_, ContentHash, u64>,
    ) -> (res: DbResult<u64>)
        ensures
            match res {
                Ok(n) => n == references(content_rc@, content_hash),
                Err(e) => e.is_fault(),
            },
            unread(res) ==> !content_rc.intact(),
    {
        match content_rc.get(&content_hash)? {
            Some(n) => Ok(n),
            None => Ok(0),
        }
    }

    /// Decides to which event a deletion is attributed.
    pub fn merge_deleted_by_tx(
        current: Option<ShortEventId>,
        candidate: Option<EventOrder>,
        events: &Table<'_, ShortEventId, VerifiedEvent>,
    ) -> (res: DbResult<Option<ShortEventId>>)
        ensures
            match res {
                Ok(id) => attributed(events@, current, candidate) == Ok::<_, DbError>(id),
                Err(e) => e.is_fault() || attributed(events@, current, candidate) == Err::<
                    Option<ShortEventId>,
                    _,
                >(e),
            },
            unread(res) ==> !events.intact(),
    {
        let candidate = match candidate {
            Some(candidate) => candidate,
            None => return Ok(current),
        };
        let current_id = match current {
            Some(id) => id,
            None => return Ok(Some(candidate.event_id)),
        };
        match events.get(&current_id)? {
            Some(event) => {
                let order = EventOrder { timestamp: event.event.timestamp, event_id: current_id };
                Ok(Some(order.max_of(candidate).event_id))
            },
            None => Err(DbError::MissingDeletionAttribution { event_id: current_id }),
        }
    }

    /// Whether the payload of an event is still to be processed: only that of
    /// an event in state [`EventContentState::Missing`] is, so that nothing is
    /// processed twice.
    pub fn can_insert_event_content_tx(
        event: &VerifiedEvent,
        events_content_state: &Table<'_, ShortEventId, EventContentState>,
    ) -> (res: DbResult<bool>)
        ensures
            match res {
                Ok(b) => b == (state_of(events_content_state@, event.id()) matches Some(
                    EventContentState::Missing { .. },
                )),
                Err(e) => e.is_fault(),
            },
            unread(res) ==> !events_content_state.intact(),
    {
        match events_content_state.get(&event.short_id())? {
            Some(EventContentState::Missing { .. }) => Ok(true),
            _ => Ok(false),
        }
    }

    /// Gives the payload of an event up; see [`pruned`].
    pub fn prune_event_content_tx(
        event_id: ShortEventId,
        content_hash: ContentHash,
        db: &mut Tables<'_>,
        usage: Option<(RostraId, u32)>,
    ) -> (res: DbResult<bool>)
        ensures
            ran(res, final(db)@, pruned(old(db)@, event_id, content_hash, usage)),
            unread(res) ==> !old(db).intact(),
            res is Ok && old(db).intact() ==> final(db).intact(),
    {
        let old_state = db.events_content_state.get(&event_id)?;
        match old_state {
            Some(EventContentState::Deleted { .. }) => return Ok(false),
            Some(EventContentState::Invalid) => return Ok(false),
            Some(EventContentState::Pruned) => return Ok(true),
            _ => {},
        }
        Self::decrement_content_rc_tx(content_hash, &mut db.content_rc)?;
        if let Some((author, content_len)) = usage {
            Self::track_payload_pruning_tx(author, content_len, old_state, &mut db.ids_data_usage)?;
        }
        db.events_content_state.insert(&event_id, &EventContentState::Pruned)?;
        if let Some(EventContentState::Missing { next_fetch_attempt, .. }) = old_state {
            db.events_content_missing.remove(&(next_fetch_attempt, event_id))?;
        }
        Ok(true)
    }
}

/// Counts stay positive, and a reference that is taken back leaves the counts
/// as they were.
pub proof fn law_references(m: Map<ContentHash, u64>, hash: ContentHash)
    requires
        counts_positive(m),
    ensures
        incremented(m, hash) matches Ok((n, after)) ==> {
            &&& counts_positive(after)
            &&& references(after, hash) == n == references(m, hash) + 1
            &&& decremented(after, hash) == Ok::<_, DbError>((references(m, hash), m))
        },
        decremented(m, hash) matches Ok((n, after)) ==> {
            &&& counts_positive(after)
            &&& references(after, hash) == n == references(m, hash) - 1
            &&& incremented(after, hash) == Ok::<_, DbError>((references(m, hash), m))
        },
        decremented(m, hash) is Ok <==> references(m, hash) > 0,
{
    if let Ok((n, after)) = incremented(m, hash) {
        if references(m, hash) == 0 {
            assert(after.remove(hash) =~= m);
        } else {
            assert(after.insert(hash, m[hash]) =~= m);
        }
    }
    if let Ok((n, after)) = decremented(m, hash) {
        assert(after.insert(hash, m[hash]) =~= m);
    }
}

/// Deletion is monotone: a further request to delete never takes the
/// attribution away, and the request that wins is in event order not before
/// the one that was attributed.
pub proof fn law_attribution_monotone(
    events: Map<ShortEventId, VerifiedEvent>,
    current: Option<ShortEventId>,
    candidate: Option<EventOrder>,
)
    ensures
        attributed(events, current, candidate) matches Ok(after) ==> {
            &&& current is Some || candidate is Some ==> after is Some
            &&& candidate is None ==> after == current
            &&& current is Some && candidate is Some ==> after == current || after
                == Some(candidate->0.event_id)
        },
        current is None ==> attributed(events, current, candidate) is Ok,
{
}

/// Of two events that ask for one deletion, the attribution does not depend
/// on which came first.
pub proof fn law_attribution_order(
    events: Map<ShortEventId, VerifiedEvent>,
    a: VerifiedEvent,
    b: VerifiedEvent,
)
    requires
        events.contains_key(a.id()) && events[a.id()] == a,
        events.contains_key(b.id()) && events[b.id()] == b,
    ensures
        ({
            let first_a = attributed(events, None, Some(a.order()));
            let first_b = attributed(events, None, Some(b.order()));
            attributed(events, first_a->Ok_0, Some(b.order())) == attributed(
                events,
                first_b->Ok_0,
                Some(a.order()),
            )
        }),
{
}

/// A pruned payload is pruned for good: pruning it again changes nothing, and
/// a deleted or invalid payload is never pruned.
pub proof fn law_prune_idempotent(
    db: DbState,
    id: ShortEventId,
    hash: ContentHash,
    usage: Option<(RostraId, u32)>,
)
    ensures
        pruned(db, id, hash, usage) matches Ok((true, after)) ==> {
            &&& state_of(after.events_content_state, id) == Some(EventContentState::Pruned)
            &&& pruned(after, id, hash, usage) == Ok::<_, DbError>((true, after))
        },
        pruned(db, id, hash, usage) matches Ok((false, after)) ==> after == db,
        state_of(db.events_content_state, id) matches Some(EventContentState::Deleted { .. })
            ==> pruned(db, id, hash, usage) == Ok::<_, DbError>((false, db)),
        state_of(db.events_content_state, id) == Some(EventContentState::Invalid) ==> pruned(
            db,
            id,
            hash,
            usage,
        ) == Ok::<_, DbError>((false, db)),
{
}

}
