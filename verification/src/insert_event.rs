//! Insertion of event envelopes into the event graph.

use vstd::prelude::*;

use crate::content::{
    attributed, decremented, holds_reference, incremented, state_of, unqueued,
};
use crate::database::Database;
use crate::error::{left, ran, seen, unread, DbError, DbResult, Effect};
use crate::event::{EventContentState, EventsMissingRecord, VerifiedEvent};
use crate::ids::{ShortEventId, Timestamp};
use crate::tables::{DbState, EventsHeadsTableRecord, Tables};
use crate::usage::{usage_deleted, usage_of, usage_set, Bucket};

verus! {

/// What the insertion of an event came to.
#[derive(Debug)]
pub enum InsertEventOutcome {
    /// The event was there before.
    AlreadyPresent,
    /// The event was stored.
    Inserted {
        /// Another event had referred to it.
        was_missing: bool,
        /// Its payload was deleted before it came.
        is_deleted: bool,
        /// The stored parent whose payload it deleted.
        deleted_parent: Option<ShortEventId>,
        /// The processed payload of that parent, of which the effects are to
        /// be taken back.
        reverted_parent_content: Option<Vec<u8>>,
        /// Parents that are not stored.
        missing_parents: Vec<ShortEventId>,
    },
}

/// What an outcome stands for.
pub ghost enum InsertOutcomeModel {
    AlreadyPresent,
    Inserted {
        was_missing: bool,
        is_deleted: bool,
        deleted_parent: Option<ShortEventId>,
        reverted_parent_content: Option<Seq<u8>>,
        missing_parents: Seq<ShortEventId>,
    },
}

pub open spec fn bytes_view(b: Option<Vec<u8>>) -> Option<Seq<u8>> {
    match b {
        Some(b) => Some(b@),
        None => None,
    }
}

impl View for InsertEventOutcome {
    type V = InsertOutcomeModel;

    open spec fn view(&self) -> InsertOutcomeModel {
        match *self {
            InsertEventOutcome::AlreadyPresent => InsertOutcomeModel::AlreadyPresent,
            InsertEventOutcome::Inserted {
                was_missing,
                is_deleted,
                deleted_parent,
                reverted_parent_content,
                missing_parents,
            } => InsertOutcomeModel::Inserted {
                was_missing,
                is_deleted,
                deleted_parent,
                reverted_parent_content: bytes_view(reverted_parent_content),
                missing_parents: missing_parents@,
            },
        }
    }
}

/// An insertion on its way: the rows so far, and what was found of the parents.
#[verifier::ext_equal]
pub ghost struct Inserting {
    pub db: DbState,
    pub deleted_parent: Option<ShortEventId>,
    pub reverted: Option<Seq<u8>>,
    pub missing: Seq<ShortEventId>,
}

/// A payload by hash, where it is stored.
pub open spec fn stored(db: DbState, hash: crate::ids::ContentHash) -> Option<Seq<u8>> {
    if db.content_store.contains_key(hash) {
        Some(db.content_store[hash])
    } else {
        None
    }
}

/// A stored parent of the event's own author.
pub open spec fn own_parent(db: DbState, e: VerifiedEvent, parent: ShortEventId) -> bool {
    db.events.contains_key(parent) && db.events[parent].event.author == e.event.author
}

/// The payload of a stored parent is deleted: the state names the greatest
/// deleting event, the parent leaves the fetch queue, and a payload that was
/// not given up before gives up its reference and changes its usage bucket.
pub open spec fn parent_deleted(
    db: DbState,
    e: VerifiedEvent,
    parent: ShortEventId,
    track_usage: bool,
) -> Result<DbState, DbError> {
    let record = db.events[parent].event;
    let state = state_of(db.events_content_state, parent);
    let attributed_to = match state {
        Some(EventContentState::Deleted { deleted_by }) => Some(deleted_by),
        _ => None,
    };
    match attributed(db.events, attributed_to, Some(e.order())) {
        Err(err) => Err(err),
        Ok(by) => {
            let marked = DbState {
                events_content_state: db.events_content_state.insert(
                    parent,
                    EventContentState::Deleted { deleted_by: by->0 },
                ),
                events_content_missing: unqueued(db.events_content_missing, parent, state),
                ..db
            };
            let released = if holds_reference(state) {
                match decremented(db.content_rc, record.content_hash) {
                    Ok((_, content_rc)) => Ok(DbState { content_rc, ..marked }),
                    Err(err) => Err(err),
                }
            } else {
                Ok(marked)
            };
            match released {
                Err(err) => Err(err),
                Ok(released) => if attributed_to is None && track_usage {
                    match usage_deleted(
                        db.ids_data_usage,
                        record.author,
                        record.content_len,
                        state,
                    ) {
                        Ok((_, ids_data_usage)) => Ok(DbState { ids_data_usage, ..released }),
                        Err(err) => Err(err),
                    }
                } else {
                    Ok(released)
                },
            }
        },
    }
}

/// A parent that is not stored, or is another author's, is noted as missing
/// under the event's author, with the greatest event that deletes its payload.
pub open spec fn parent_missing(
    db: DbState,
    e: VerifiedEvent,
    parent: ShortEventId,
    deletes: bool,
) -> Result<DbState, DbError> {
    let key = (e.event.author, parent);
    let attributed_to = if db.events_missing.contains_key(key) {
        db.events_missing[key].deleted_by
    } else {
        None
    };
    match attributed(db.events, attributed_to, if deletes { Some(e.order()) } else { None }) {
        Ok(deleted_by) => Ok(
            DbState {
                events_missing: db.events_missing.insert(key, EventsMissingRecord { deleted_by }),
                ..db
            },
        ),
        Err(err) => Err(err),
    }
}

/// A parent of the event is looked at. With a child, it is no head any more.
/// Only the auxiliary parent can lose its payload.
pub open spec fn parent_linked(
    s: Inserting,
    e: VerifiedEvent,
    parent: ShortEventId,
    is_aux: bool,
    track_usage: bool,
) -> Result<Inserting, DbError> {
    let deletes = e.event.deletes_parent_aux && is_aux;
    let db = s.db;
    let unheaded = |after: DbState|
        DbState { events_heads: after.events_heads.remove((e.event.author, parent)), ..after };
    if !own_parent(db, e, parent) {
        match parent_missing(db, e, parent, deletes) {
            Ok(after) => Ok(
                Inserting { db: unheaded(after), missing: s.missing.push(parent), ..s },
            ),
            Err(err) => Err(err),
        }
    } else if deletes {
        match parent_deleted(db, e, parent, track_usage) {
            Ok(after) => Ok(
                Inserting {
                    db: unheaded(after),
                    deleted_parent: Some(parent),
                    reverted: if state_of(db.events_content_state, parent) is None {
                        stored(db, db.events[parent].event.content_hash)
                    } else {
                        s.reverted
                    },
                    ..s
                },
            ),
            Err(err) => Err(err),
        }
    } else {
        Ok(Inserting { db: unheaded(db), ..s })
    }
}

/// Both parents of the event are looked at, the auxiliary one first; where
/// they are the same, once, as the auxiliary one.
#[verifier::opaque]
pub open spec fn parents_linked(s: Inserting, e: VerifiedEvent, track_usage: bool) -> Result<
    Inserting,
    DbError,
> {
    let after_aux = match e.event.parent_aux {
        Some(parent) => parent_linked(s, e, parent, true, track_usage),
        None => Ok(s),
    };
    match (after_aux, e.event.parent_prev) {
        (Ok(s1), Some(parent)) => if e.event.parent_prev == e.event.parent_aux {
            Ok(s1)
        } else {
            parent_linked(s1, e, parent, false, track_usage)
        },
        _ => after_aux,
    }
}

/// The event takes its place: it is known to be missing no more, or it is a
/// head, since nothing had referred to it. Where its payload was deleted
/// before it came, it starts out deleted.
#[verifier::opaque]
pub open spec fn placed(db: DbState, e: VerifiedEvent) -> DbState {
    let key = (e.event.author, e.id());
    if db.events_missing.contains_key(key) {
        let arrived = DbState { events_missing: db.events_missing.remove(key), ..db };
        match db.events_missing[key].deleted_by {
            Some(deleted_by) => DbState {
                events_content_state: db.events_content_state.insert(
                    e.id(),
                    EventContentState::Deleted { deleted_by },
                ),
                ..arrived
            },
            None => arrived,
        }
    } else {
        DbState { events_heads: db.events_heads.insert(key, EventsHeadsTableRecord), ..db }
    }
}

/// Whether the payload of an event that now comes was deleted before.
pub open spec fn deleted_before(db: DbState, e: VerifiedEvent) -> bool {
    let key = (e.event.author, e.id());
    db.events_missing.contains_key(key) && db.events_missing[key].deleted_by is Some
}

/// The usage of the event's author is updated, where usage is tracked.
pub open spec fn usage_updated(
    db: DbState,
    e: VerifiedEvent,
    track_usage: bool,
    next: Option<crate::tables::IdsDataUsageRecord>,
) -> Result<DbState, DbError> {
    if track_usage {
        match usage_set(db.ids_data_usage, e.event.author, next) {
            Ok((_, ids_data_usage)) => Ok(DbState { ids_data_usage, ..db }),
            Err(err) => Err(err),
        }
    } else {
        Ok(db)
    }
}

/// The payload of a new event that was not deleted before: it is referred to
/// once more; a payload with bytes is missing, and queued for fetching unless
/// it is stored already; an empty one is stored and processed at once.
pub open spec fn payload_expected(db: DbState, e: VerifiedEvent, track_usage: bool) -> Result<
    DbState,
    DbError,
> {
    let hash = e.event.content_hash;
    let len = e.event.content_len;
    let author = e.event.author;
    match incremented(db.content_rc, hash) {
        Err(err) => Err(err),
        Ok((_, content_rc)) => {
            let referred = DbState { content_rc, ..db };
            match usage_updated(
                referred,
                e,
                track_usage,
                usage_of(db.ids_data_usage, author).with_payload(Bucket::Missing, len),
            ) {
                Err(err) => Err(err),
                Ok(counted) => if len > 0 {
                    let missing = DbState {
                        events_content_state: counted.events_content_state.insert(
                            e.id(),
                            EventContentState::Missing {
                                last_fetch_attempt: None,
                                fetch_attempt_count: 0,
                                next_fetch_attempt: Timestamp { secs: 0 },
                            },
                        ),
                        ..counted
                    };
                    if stored(db, hash) is Some {
                        Ok(missing)
                    } else {
                        Ok(
                            DbState {
                                events_content_missing: missing.events_content_missing.insert(
                                    (Timestamp { secs: 0 }, e.id()),
                                    (),
                                ),
                                ..missing
                            },
                        )
                    }
                } else {
                    let kept = if stored(db, hash) is Some {
                        counted
                    } else {
                        DbState {
                            content_store: counted.content_store.insert(hash, Seq::empty()),
                            ..counted
                        }
                    };
                    usage_updated(
                        kept,
                        e,
                        track_usage,
                        usage_of(kept.ids_data_usage, author).moved(
                            Bucket::Missing,
                            Bucket::Current,
                            len,
                        ),
                    )
                },
            }
        },
    }
}

/// The event is stored and counted, and its payload starts its life.
#[verifier::opaque]
pub open spec fn header_stored(
    db: DbState,
    e: VerifiedEvent,
    is_deleted: bool,
    track_usage: bool,
) -> Result<DbState, DbError> {
    let author = e.event.author;
    let indexed = DbState {
        events: db.events.insert(e.id(), e),
        events_by_time: db.events_by_time.insert((e.event.timestamp, e.id()), ()),
        ..db
    };
    match usage_updated(
        indexed,
        e,
        track_usage,
        usage_of(indexed.ids_data_usage, author).with_event(),
    ) {
        Err(err) => Err(err),
        Ok(counted) => if is_deleted {
            usage_updated(
                counted,
                e,
                track_usage,
                usage_of(counted.ids_data_usage, author).with_payload(
                    Bucket::Deleted,
                    e.event.content_len,
                ),
            )
        } else {
            payload_expected(counted, e, track_usage)
        },
    }
}

/// What the insertion of an event does.
pub open spec fn inserted(db: DbState, e: VerifiedEvent, track_usage: bool) -> Effect<
    InsertOutcomeModel,
    DbState,
> {
    let known = DbState { ids_full: db.ids_full.insert(e.event.author, ()), ..db };
    if db.events.contains_key(e.id()) {
        Ok((InsertOutcomeModel::AlreadyPresent, known))
    } else {
        let start = Inserting {
            db: placed(known, e),
            deleted_parent: None,
            reverted: None,
            missing: Seq::empty(),
        };
        match parents_linked(start, e, track_usage) {
            Err(err) => Err(err),
            Ok(s) => match header_stored(s.db, e, deleted_before(db, e), track_usage) {
                Err(err) => Err(err),
                Ok(after) => Ok(
                    (
                        InsertOutcomeModel::Inserted {
                            was_missing: db.events_missing.contains_key((e.event.author, e.id())),
                            is_deleted: deleted_before(db, e),
                            deleted_parent: s.deleted_parent,
                            reverted_parent_content: s.reverted,
                            missing_parents: s.missing,
                        },
                        after,
                    ),
                ),
            },
        }
    }
}

/// What was found of the parents so far.
struct Parents {
    deleted_parent: Option<ShortEventId>,
    reverted: Option<Vec<u8>>,
    missing: Vec<ShortEventId>,
}

spec fn inserting(db: DbState, parents: Parents) -> Inserting {
    Inserting {
        db,
        deleted_parent: parents.deleted_parent,
        reverted: bytes_view(parents.reverted),
        missing: parents.missing@,
    }
}

impl Database {
    fn delete_parent_tx(
        event: &VerifiedEvent,
        parent_id: ShortEventId,
        parent: &VerifiedEvent,
        old_state: Option<EventContentState>,
        db: &mut Tables<'_>,
        track_usage: bool,
    ) -> (res: DbResult<()>)
        requires
            old(db)@.events.contains_key(parent_id),
            old(db)@.events[parent_id] == *parent,
            old_state == state_of(old(db)@.events_content_state, parent_id),
        ensures
            left(res, final(db)@, parent_deleted(old(db)@, *event, parent_id, track_usage)),
            unread(res) ==> !old(db).intact(),
            res is Ok && old(db).intact() ==> final(db).intact(),
    {
        let attributed_to = match old_state {
            Some(EventContentState::Deleted { deleted_by }) => Some(deleted_by),
            _ => None,
        };
        let deleted_by = match Self::merge_deleted_by_tx(
            attributed_to,
            Some(event.event_order()),
            &db.events,
        )? {
            Some(id) => id,
            None => event.short_id(),
        };
        db.events_content_state.insert(&parent_id, &EventContentState::Deleted { deleted_by })?;
        let mut gives_up = false;
        match old_state {
            Some(EventContentState::Missing { next_fetch_attempt, .. }) => {
                db.events_content_missing.remove(&(next_fetch_attempt, parent_id))?;
                gives_up = true;
            },
            None => {
                gives_up = true;
            },
            _ => {},
        }
        if gives_up {
            Self::decrement_content_rc_tx(parent.event.content_hash, &mut db.content_rc)?;
        }
        if attributed_to.is_none() && track_usage {
            Self::track_payload_deletion_tx(
                parent.event.author,
                parent.event.content_len,
                old_state,
                &mut db.ids_data_usage,
            )?;
        }
        Ok(())
    }

    fn link_parent_tx(
        event: &VerifiedEvent,
        parent_id: ShortEventId,
        is_aux: bool,
        db: &mut Tables<'_>,
        parents: &mut Parents,
        track_usage: bool,
    ) -> (res: DbResult<()>)
        ensures
            left(
                res,
                inserting(final(db)@, *final(parents)),
                parent_linked(
                    inserting(old(db)@, *old(parents)),
                    *event,
                    parent_id,
                    is_aux,
                    track_usage,
                ),
            ),
            unread(res) ==> !old(db).intact(),
            res is Ok && old(db).intact() ==> final(db).intact(),
    {
        let author = event.event.author;
        let deletes = event.event.deletes_parent_aux && is_aux;
        let found = db.events.get(&parent_id)?;
        let own = match found {
            Some(parent) => if parent.event.author == author {
                Some(parent)
            } else {
                None
            },
            None => None,
        };
        match own {
            Some(parent) => {
                if deletes {
                    let old_state = db.events_content_state.get(&parent_id)?;
                    Self::delete_parent_tx(event, parent_id, &parent, old_state, db, track_usage)?;
                    if old_state.is_none() {
                        parents.reverted = db.content_store.get(&parent.event.content_hash)?;
                    }
                    parents.deleted_parent = Some(parent_id);
                }
            },
            None => {
                let key = (author, parent_id);
                let attributed_to = match db.events_missing.get(&key)? {
                    Some(record) => record.deleted_by,
                    None => None,
                };
                let candidate = if deletes {
                    Some(event.event_order())
                } else {
                    None
                };
                let deleted_by = Self::merge_deleted_by_tx(attributed_to, candidate, &db.events)?;
                db.events_missing.insert(&key, &EventsMissingRecord { deleted_by })?;
                parents.missing.push(parent_id);
            },
        }
        db.events_heads.remove(&(author, parent_id))?;
        Ok(())
    }

    fn expect_payload_tx(event: &VerifiedEvent, db: &mut Tables<'_>, track_usage: bool) -> (res:
        DbResult<()>)
        ensures
            left(res, final(db)@, payload_expected(old(db)@, *event, track_usage)),
            unread(res) ==> !old(db).intact(),
            res is Ok && old(db).intact() ==> final(db).intact(),
    {
        let event_id = event.short_id();
        let author = event.event.author;
        let content_hash = event.event.content_hash;
        let content_len = event.event.content_len;
        Self::increment_content_rc_tx(content_hash, &mut db.content_rc)?;
        if track_usage {
            Self::track_new_payload_tx(author, content_len, &mut db.ids_data_usage)?;
        }
        let is_stored = db.content_store.contains(&content_hash)?;
        if 0 < content_len {
            db.events_content_state.insert(
                &event_id,
                &EventContentState::Missing {
                    last_fetch_attempt: None,
                    fetch_attempt_count: 0,
                    next_fetch_attempt: Timestamp { secs: 0 },
                },
            )?;
            if !is_stored {
                db.events_content_missing.insert(&(Timestamp { secs: 0 }, event_id), &())?;
            }
        } else {
            if !is_stored {
                let empty: Vec<u8> = Vec::new();
                db.content_store.insert(&content_hash, &empty)?;
            }
            if track_usage {
                Self::track_payload_processed_tx(author, content_len, &mut db.ids_data_usage)?;
            }
        }
        Ok(())
    }

    fn store_header_tx(
        event: &VerifiedEvent,
        is_deleted: bool,
        db: &mut Tables<'_>,
        track_usage: bool,
    ) -> (res: DbResult<()>)
        ensures
            left(res, final(db)@, header_stored(old(db)@, *event, is_deleted, track_usage)),
            unread(res) ==> !old(db).intact(),
            res is Ok && old(db).intact() ==> final(db).intact(),
    {
        reveal(header_stored);
        let event_id = event.short_id();
        let author = event.event.author;
        db.events.insert(&event_id, event)?;
        db.events_by_time.insert(&(event.event.timestamp, event_id), &())?;
        if track_usage {
            Self::track_new_event_tx(author, &mut db.ids_data_usage)?;
        }
        if is_deleted {
            if track_usage {
                Self::track_new_deleted_payload_tx(
                    author,
                    event.event.content_len,
                    &mut db.ids_data_usage,
                )?;
            }
            Ok(())
        } else {
            Self::expect_payload_tx(event, db, track_usage)
        }
    }

    fn place_tx(event: &VerifiedEvent, db: &mut Tables<'_>) -> (res: DbResult<(bool, bool)>)
        ensures
            match res {
                Ok((was_missing, is_deleted)) => {
                    &&& final(db)@ == placed(old(db)@, *event)
                    &&& was_missing == old(db)@.events_missing.contains_key(
                        (event.event.author, event.id()),
                    )
                    &&& is_deleted == deleted_before(old(db)@, *event)
                },
                Err(e) => e.is_fault(),
            },
            unread(res) ==> !old(db).intact(),
            res is Ok && old(db).intact() ==> final(db).intact(),
    {
        reveal(placed);
        let key = (event.event.author, event.short_id());
        match db.events_missing.take(&key)? {
            Some(record) => match record.deleted_by {
                Some(deleted_by) => {
                    db.events_content_state.insert(
                        &key.1,
                        &EventContentState::Deleted { deleted_by },
                    )?;
                    Ok((true, true))
                },
                None => Ok((true, false)),
            },
            None => {
                assert(db.events_missing@ =~= old(db)@.events_missing);
                db.events_heads.insert(&key, &EventsHeadsTableRecord)?;
                Ok((false, false))
            },
        }
    }

    fn link_parents_tx(
        event: &VerifiedEvent,
        db: &mut Tables<'_>,
        parents: &mut Parents,
        track_usage: bool,
    ) -> (res: DbResult<()>)
        ensures
            left(
                res,
                inserting(final(db)@, *final(parents)),
                parents_linked(inserting(old(db)@, *old(parents)), *event, track_usage),
            ),
            unread(res) ==> !old(db).intact(),
            res is Ok && old(db).intact() ==> final(db).intact(),
    {
        reveal(parents_linked);
        if let Some(parent_id) = event.event.parent_aux {
            Self::link_parent_tx(event, parent_id, true, db, parents, track_usage)?;
        }
        if let Some(parent_id) = event.event.parent_prev {
            if event.event.parent_prev != event.event.parent_aux {
                Self::link_parent_tx(event, parent_id, false, db, parents, track_usage)?;
            }
        }
        Ok(())
    }

    /// Inserts an event and updates everything that follows from its envelope;
    /// see [`inserted`]. Effects of payloads are not touched: where a processed
    /// payload was deleted, the outcome hands it out so that they can be.
    pub fn insert_event_tx(event: &VerifiedEvent, db: &mut Tables<'_>, track_usage: bool) -> (res:
        DbResult<InsertEventOutcome>)
        ensures
            ran(seen(res), final(db)@, inserted(old(db)@, *event, track_usage)),
            unread(res) ==> !old(db).intact(),
            res is Ok && old(db).intact() ==> final(db).intact(),
    {
        let author = event.event.author;
        let event_id = event.short_id();
        db.ids_full.insert(&author, &())?;
        if db.events.contains(&event_id)? {
            return Ok(InsertEventOutcome::AlreadyPresent);
        }
        let (was_missing, is_deleted) = Self::place_tx(event, db)?;
        let mut parents = Parents { deleted_parent: None, reverted: None, missing: Vec::new() };
        Self::link_parents_tx(event, db, &mut parents, track_usage)?;
        Self::store_header_tx(event, is_deleted, db, track_usage)?;
        Ok(
            InsertEventOutcome::Inserted {
                was_missing,
                is_deleted,
                deleted_parent: parents.deleted_parent,
                reverted_parent_content: parents.reverted,
                missing_parents: parents.missing,
            },
        )
    }
}

}
