//! What the arrival of an event does.

use vstd::prelude::*;

use crate::content::{pruned, state_of};
use crate::database::Database;
use crate::error::{left, unread, DbError, DbResult, Effect};
use crate::event::{EventContentState, EventReceivedRecord, EventReceivedSource, VerifiedEvent};
use crate::graph::first_head;
use crate::ids::{ShortEventId, Timestamp};
use crate::insert_event::{inserted, stored, InsertEventOutcome, InsertOutcomeModel};
use crate::payload::{Action, SocialPost};
use crate::process_content::{content_reverted, lineage_kept, ProcessEventError};
use crate::reception::received;
use crate::retention::RetentionOrigins;
use crate::tables::{DbState, Tables};

verus! {

/// Where an event stands after it arrived.
#[derive(Debug, Clone, Copy, PartialEq, Eq, Structural)]
pub enum ProcessEventState {
    /// It is new, and so is its payload.
    New,
    /// It was there before.
    Existing,
    /// Its payload was deleted.
    Deleted,
    /// Its payload is not kept here.
    Pruned,
}

/// The local age of a new event: its own time, but not behind now. A payload
/// of no bytes is there from the start, unless it was deleted.
pub open spec fn origins_of(e: VerifiedEvent, is_deleted: bool, now: Timestamp) -> RetentionOrigins {
    RetentionOrigins {
        effective_timestamp: if e.event.timestamp.secs <= now.secs {
            e.event.timestamp
        } else {
            now
        },
        materialized_at: if e.event.content_len == 0 && !is_deleted {
            Some(now)
        } else {
            None
        },
    }
}

/// The local age of an event is noted once.
pub open spec fn aged(
    db: DbState,
    e: VerifiedEvent,
    is_deleted: bool,
    now: Timestamp,
    track_retention: bool,
) -> DbState {
    if track_retention && !db.events_retention_origins.contains_key(e.id()) {
        DbState {
            events_retention_origins: db.events_retention_origins.insert(
                e.id(),
                origins_of(e, is_deleted, now),
            ),
            ..db
        }
    } else {
        db
    }
}

/// The payload of an event is pruned, with its author's usage.
pub open spec fn event_pruned(db: DbState, e: VerifiedEvent) -> Effect<bool, DbState> {
    pruned(db, e.id(), e.event.content_hash, Some((e.event.author, e.event.content_len)))
}

/// A new event is registered: its age is noted, a quota decision from before
/// is carried out, and its reception is recorded.
pub open spec fn registered(
    db: DbState,
    e: VerifiedEvent,
    is_deleted: bool,
    now: Timestamp,
    source: EventReceivedSource,
    track_retention: bool,
) -> Result<DbState, DbError> {
    let with_age = aged(db, e, is_deleted, now, track_retention);
    let decided = if with_age.events_quota_pruned.contains_key(e.id()) {
        event_pruned(with_age, e)
    } else {
        Ok((false, with_age))
    };
    match decided {
        Err(err) => Err(err),
        Ok((_, db)) => match received(
            db.reception_order_next,
            db.events_received_at,
            now,
            EventReceivedRecord { event_id: e.id(), source },
        ) {
            Err(err) => Err(err),
            Ok((_, (reception_order_next, events_received_at))) => Ok(
                DbState { reception_order_next, events_received_at, ..db },
            ),
        },
    }
}

/// The local user's own events are listed.
pub open spec fn self_listed(me: Database, db: DbState, e: VerifiedEvent) -> DbState {
    if e.event.author == me.self_id {
        DbState { events_self: db.events_self.insert(e.id(), ()), ..db }
    } else {
        db
    }
}

/// Who is told of a new event: of a head, where it is one and its payload was
/// not deleted; of the local user's head; and of parents that are missing.
pub open spec fn event_actions(
    me: Database,
    db: DbState,
    e: VerifiedEvent,
    is_head: bool,
    parents_missing: bool,
) -> Seq<Action> {
    let of_head = if is_head {
        seq![Action::NewHead { author: e.event.author, event_id: e.id() }]
    } else {
        Seq::empty()
    };
    let of_self = if e.event.author == me.self_id {
        of_head.push(Action::SelfHead { head: first_head(db.events_heads, me.self_id) })
    } else {
        of_head
    };
    if parents_missing {
        of_self.push(Action::MissingEvents { author: e.event.author })
    } else {
        of_self
    }
}

/// The edit that a deleted post was is noted, from what is kept of its
/// payload; nothing is where that is no post.
pub open spec fn lineage_noted(
    me: Database,
    db: DbState,
    e: VerifiedEvent,
    is_deleted: bool,
    retained: Option<SocialPost>,
) -> Result<DbState, DbError> {
    if is_deleted {
        match lineage_kept(me, db, e, retained) {
            Ok((_, after)) => Ok(after),
            Err(err) => Err(err),
        }
    } else {
        Ok(db)
    }
}

/// What the payload of a deleted parent did is taken back; nothing is where it
/// cannot be read.
pub open spec fn parent_reverted(
    db: DbState,
    parent: Option<ShortEventId>,
    post: Option<SocialPost>,
) -> Effect<Seq<Action>, DbState> {
    match parent {
        None => Ok((Seq::empty(), db)),
        Some(id) => match content_reverted(db, db.events[id], post) {
            Err(err) => Err(err),
            Ok((Some(actions), after)) => Ok((actions, after)),
            Ok((None, after)) => Ok((Seq::empty(), after)),
        },
    }
}

/// What follows from the insertion of an event that was not there.
pub open spec fn newcomer_processed(
    me: Database,
    db: DbState,
    e: VerifiedEvent,
    outcome: InsertOutcomeModel,
    arrival: Arrival,
    retained: Option<SocialPost>,
    reverted: Option<SocialPost>,
) -> Effect<Seq<Action>, DbState> {
    match outcome {
        InsertOutcomeModel::AlreadyPresent => Ok((Seq::empty(), db)),
        InsertOutcomeModel::Inserted {
            was_missing,
            is_deleted,
            deleted_parent,
            reverted_parent_content,
            missing_parents,
        } => match registered(
            db,
            e,
            is_deleted,
            arrival.now,
            arrival.source,
            arrival.track_retention,
        ) {
            Err(err) => Err(err),
            Ok(db) => match lineage_noted(me, db, e, is_deleted, retained) {
                Err(err) => Err(err),
                Ok(db) => {
                    let listed = self_listed(me, db, e);
                    let told = event_actions(
                        me,
                        listed,
                        e,
                        !is_deleted && !was_missing,
                        missing_parents.len() > 0,
                    );
                    let parent = if reverted_parent_content is Some {
                        deleted_parent
                    } else {
                        None
                    };
                    match parent_reverted(listed, parent, reverted) {
                        Err(err) => Err(err),
                        Ok((actions, after)) => Ok((told + actions, after)),
                    }
                },
            },
        },
    }
}

/// Where an event stands in the end: a payload that is too long is pruned.
pub open spec fn settled_event(
    me: Database,
    db: DbState,
    e: VerifiedEvent,
    outcome: InsertOutcomeModel,
) -> Effect<ProcessEventState, DbState> {
    if state_of(db.events_content_state, e.id()) == Some(EventContentState::Pruned) {
        Ok((ProcessEventState::Pruned, db))
    } else if me.max_content_len <= e.event.content_len {
        match event_pruned(db, e) {
            Err(err) => Err(err),
            Ok((true, after)) => Ok((ProcessEventState::Pruned, after)),
            Ok((false, after)) => Ok((ProcessEventState::Deleted, after)),
        }
    } else {
        match outcome {
            InsertOutcomeModel::AlreadyPresent => Ok((ProcessEventState::Existing, db)),
            InsertOutcomeModel::Inserted { is_deleted, .. } => if is_deleted {
                Ok((ProcessEventState::Deleted, db))
            } else {
                Ok((ProcessEventState::New, db))
            },
        }
    }
}

/// What follows from the insertion of an event, given what its own retained
/// payload and that of a deleted parent read as.
pub open spec fn event_finished(
    me: Database,
    db: DbState,
    e: VerifiedEvent,
    outcome: InsertOutcomeModel,
    arrival: Arrival,
    retained: Option<SocialPost>,
    reverted: Option<SocialPost>,
) -> Effect<(ProcessEventState, Seq<Action>), DbState> {
    match newcomer_processed(me, db, e, outcome, arrival, retained, reverted) {
        Err(err) => Err(err),
        Ok((actions, db)) => match settled_event(me, db, e, outcome) {
            Err(err) => Err(err),
            Ok((state, after)) => {
                let actions = if state is New && e.event.content_len > 0 {
                    actions.push(Action::ContentMissing)
                } else {
                    actions
                };
                Ok(((state, actions), after))
            },
        },
    }
}

/// A reverted parent is stored.
pub open spec fn parent_known(db: DbState, outcome: InsertOutcomeModel) -> bool {
    match outcome {
        InsertOutcomeModel::Inserted {
            deleted_parent,
            reverted_parent_content: Some(_),
            ..
        } => deleted_parent is Some && db.events.contains_key(deleted_parent->0),
        _ => true,
    }
}

/// How an event came.
#[derive(Debug, Clone, Copy, PartialEq, Eq, Structural)]
pub struct Arrival {
    pub now: Timestamp,
    pub source: EventReceivedSource,
    /// Ages of events are noted.
    pub track_retention: bool,
}

/// What is done to the database by an event that comes, for given readings of
/// the two payloads.
pub open spec fn event_processed(
    me: Database,
    db: DbState,
    e: VerifiedEvent,
    arrival: Arrival,
    retained: Option<SocialPost>,
    reverted: Option<SocialPost>,
) -> Effect<(InsertOutcomeModel, ProcessEventState, Seq<Action>), DbState> {
    match inserted(db, e, true) {
        Err(err) => Err(err),
        Ok((outcome, db)) => match event_finished(
            me,
            db,
            e,
            outcome,
            arrival,
            retained,
            reverted,
        ) {
            Err(err) => Err(err),
            Ok(((state, actions), after)) => Ok(((outcome, state, actions), after)),
        },
    }
}

/// The reading of a payload, where there is one to read: what `read_post`
/// makes of the event and the bytes.
pub open spec fn read_as<F: Fn(&VerifiedEvent, &Vec<u8>) -> Option<SocialPost>>(
    read_post: F,
    e: VerifiedEvent,
    bytes: Option<Seq<u8>>,
    post: Option<SocialPost>,
) -> bool {
    match bytes {
        None => post is None,
        Some(bytes) => exists|b: Vec<u8>|
            #![trigger b@]
            b@ == bytes && call_ensures(read_post, (&e, &b), post),
    }
}

/// The payload of an event that starts out deleted, where another event keeps
/// it.
pub open spec fn retained_payload(
    db: DbState,
    e: VerifiedEvent,
    outcome: InsertOutcomeModel,
) -> Option<Seq<u8>> {
    match outcome {
        InsertOutcomeModel::Inserted { is_deleted: true, .. } => stored(db, e.event.content_hash),
        _ => None,
    }
}

/// The payload of a deleted parent whose effects are to be taken back.
pub open spec fn reverted_payload(outcome: InsertOutcomeModel) -> Option<Seq<u8>> {
    match outcome {
        InsertOutcomeModel::Inserted { reverted_parent_content, .. } => reverted_parent_content,
        _ => None,
    }
}

/// The deleted parent.
pub open spec fn reverted_event(db: DbState, outcome: InsertOutcomeModel) -> VerifiedEvent {
    match outcome {
        InsertOutcomeModel::Inserted { deleted_parent: Some(id), .. } => db.events[id],
        _ => arbitrary(),
    }
}

impl Database {
    fn register_tx(
        event: &VerifiedEvent,
        is_deleted: bool,
        arrival: Arrival,
        db: &mut Tables<'_>,
    ) -> (res: DbResult<()>)
        ensures
            left(
                res,
                final(db)@,
                registered(
                    old(db)@,
                    *event,
                    is_deleted,
                    arrival.now,
                    arrival.source,
                    arrival.track_retention,
                ),
            ),
            unread(res) ==> !old(db).intact(),
            res is Ok && old(db).intact() ==> final(db).intact(),
    {
        let event_id = event.short_id();
        let now = arrival.now;
        if arrival.track_retention && !db.events_retention_origins.contains(&event_id)? {
            let effective_timestamp = if event.event.timestamp.secs <= now.secs {
                event.event.timestamp
            } else {
                now
            };
            let materialized_at = if event.event.content_len == 0 && !is_deleted {
                Some(now)
            } else {
                None
            };
            db.events_retention_origins.insert(
                &event_id,
                &RetentionOrigins { effective_timestamp, materialized_at },
            )?;
        }
        // A decision that is restored before its event is carried out while
        // the payload is still unprocessed.
        if db.events_quota_pruned.contains(&event_id)? {
            Self::prune_event_content_tx(
                event_id,
                event.event.content_hash,
                db,
                Some((event.event.author, event.event.content_len)),
            )?;
        }
        Self::insert_reception_ordered_tx(
            now,
            &EventReceivedRecord { event_id, source: arrival.source },
            &mut db.reception_order_next,
            &mut db.events_received_at,
        )?;
        Ok(())
    }

    fn announce_tx(
        &self,
        event: &VerifiedEvent,
        is_head: bool,
        parents_missing: bool,
        db: &mut Tables<'_>,
    ) -> (res: DbResult<Vec<Action>>)
        ensures
            match res {
                Ok(actions) => {
                    &&& final(db)@ == self_listed(*self, old(db)@, *event)
                    &&& actions@ == event_actions(
                        *self,
                        final(db)@,
                        *event,
                        is_head,
                        parents_missing,
                    )
                },
                Err(e) => e.is_fault(),
            },
            unread(res) ==> !old(db).intact(),
            res is Ok && old(db).intact() ==> final(db).intact(),
    {
        let author = event.event.author;
        let mut actions: Vec<Action> = Vec::new();
        if is_head {
            actions.push(Action::NewHead { author, event_id: event.short_id() });
        }
        if author == self.self_id {
            Self::insert_self_event_id_tx(event.short_id(), &mut db.events_self)?;
            let head = Self::read_head_tx(self.self_id, &db.events_heads)?;
            actions.push(Action::SelfHead { head });
        }
        if parents_missing {
            actions.push(Action::MissingEvents { author });
        }
        assert(actions@ =~= event_actions(*self, db@, *event, is_head, parents_missing));
        Ok(actions)
    }

    fn revert_parent_tx(
        parent: Option<ShortEventId>,
        post: &Option<SocialPost>,
        db: &mut Tables<'_>,
    ) -> (res: DbResult<Vec<Action>>)
        requires
            parent matches Some(id) ==> old(db)@.events.contains_key(id),
        ensures
            match res {
                Ok(actions) => parent_reverted(old(db)@, parent, *post) == Ok::<_, DbError>(
                    (actions@, final(db)@),
                ),
                Err(e) => e.is_fault() || parent_reverted(old(db)@, parent, *post) == Err::<
                    (Seq<Action>, DbState),
                    _,
                >(e),
            },
            unread(res) ==> !old(db).intact(),
            res is Ok && old(db).intact() ==> final(db).intact(),
    {
        let none: Vec<Action> = Vec::new();
        assert(none@ =~= Seq::empty());
        if let Some(id) = parent {
            if let Some(event) = db.events.get(&id)? {
                return match Self::process_event_content_reverted_tx(&event, post, db) {
                    Ok(actions) => Ok(actions),
                    Err(ProcessEventError::Invalid) => Ok(none),
                    Err(ProcessEventError::Db(e)) => Err(e),
                };
            }
        }
        Ok(none)
    }

    fn process_newcomer_tx(
        &self,
        event: &VerifiedEvent,
        outcome: &InsertEventOutcome,
        arrival: Arrival,
        retained: &Option<SocialPost>,
        reverted: &Option<SocialPost>,
        db: &mut Tables<'_>,
    ) -> (res: DbResult<Vec<Action>>)
        requires
            parent_known(old(db)@, outcome@),
        ensures
            match res {
                Ok(actions) => newcomer_processed(
                    *self,
                    old(db)@,
                    *event,
                    outcome@,
                    arrival,
                    *retained,
                    *reverted,
                ) == Ok::<_, DbError>((actions@, final(db)@)),
                Err(e) => e.is_fault() || newcomer_processed(
                    *self,
                    old(db)@,
                    *event,
                    outcome@,
                    arrival,
                    *retained,
                    *reverted,
                ) == Err::<(Seq<Action>, DbState), _>(e),
            },
            unread(res) ==> !old(db).intact(),
            res is Ok && old(db).intact() ==> final(db).intact(),
    {
        match outcome {
            InsertEventOutcome::AlreadyPresent => {
                let none: Vec<Action> = Vec::new();
                assert(none@ =~= Seq::empty());
                Ok(none)
            },
            InsertEventOutcome::Inserted {
                was_missing,
                is_deleted,
                deleted_parent,
                reverted_parent_content,
                missing_parents,
            } => {
                Self::register_tx(event, *is_deleted, arrival, db)?;
                if *is_deleted {
                    match self.process_deleted_social_post_replacement_tx(event, retained, db) {
                        Ok(_) => {},
                        Err(ProcessEventError::Invalid) => {},
                        Err(ProcessEventError::Db(e)) => return Err(e),
                    }
                }
                let mut actions = self.announce_tx(
                    event,
                    !*is_deleted && !*was_missing,
                    missing_parents.len() > 0,
                    db,
                )?;
                let parent = if reverted_parent_content.is_some() {
                    *deleted_parent
                } else {
                    None
                };
                let mut taken_back = Self::revert_parent_tx(parent, reverted, db)?;
                actions.append(&mut taken_back);
                Ok(actions)
            },
        }
    }

    fn settle_event_tx(
        &self,
        event: &VerifiedEvent,
        outcome: &InsertEventOutcome,
        db: &mut Tables<'_>,
    ) -> (res: DbResult<ProcessEventState>)
        ensures
            crate::error::ran(
                res,
                final(db)@,
                settled_event(*self, old(db)@, *event, outcome@),
            ),
            unread(res) ==> !old(db).intact(),
            res is Ok && old(db).intact() ==> final(db).intact(),
    {
        let event_id = event.short_id();
        if let Some(EventContentState::Pruned) = db.events_content_state.get(&event_id)? {
            return Ok(ProcessEventState::Pruned);
        }
        if self.max_content_len <= event.event.content_len {
            let is_pruned = Self::prune_event_content_tx(
                event_id,
                event.event.content_hash,
                db,
                Some((event.event.author, event.event.content_len)),
            )?;
            return Ok(
                if is_pruned {
                    ProcessEventState::Pruned
                } else {
                    ProcessEventState::Deleted
                },
            );
        }
        match outcome {
            InsertEventOutcome::AlreadyPresent => Ok(ProcessEventState::Existing),
            InsertEventOutcome::Inserted { is_deleted, .. } => if *is_deleted {
                Ok(ProcessEventState::Deleted)
            } else {
                Ok(ProcessEventState::New)
            },
        }
    }

    /// Does what follows from the insertion of an event; see
    /// [`event_finished`]. `retained` is what the payload of an event that
    /// starts out deleted reads as, `reverted` what the payload of the parent
    /// that it deleted does.
    pub fn finish_event_tx(
        &self,
        event: &VerifiedEvent,
        outcome: &InsertEventOutcome,
        arrival: Arrival,
        retained: &Option<SocialPost>,
        reverted: &Option<SocialPost>,
        db: &mut Tables<'_>,
    ) -> (res: DbResult<(ProcessEventState, Vec<Action>)>)
        requires
            parent_known(old(db)@, outcome@),
        ensures
            match res {
                Ok((state, actions)) => event_finished(
                    *self,
                    old(db)@,
                    *event,
                    outcome@,
                    arrival,
                    *retained,
                    *reverted,
                ) == Ok::<_, DbError>(((state, actions@), final(db)@)),
                Err(e) => e.is_fault() || event_finished(
                    *self,
                    old(db)@,
                    *event,
                    outcome@,
                    arrival,
                    *retained,
                    *reverted,
                ) == Err::<((ProcessEventState, Seq<Action>), DbState), _>(e),
            },
            unread(res) ==> !old(db).intact(),
            res is Ok && old(db).intact() ==> final(db).intact(),
    {
        let mut actions = self.process_newcomer_tx(
            event,
            outcome,
            arrival,
            retained,
            reverted,
            db,
        )?;
        let state = self.settle_event_tx(event, outcome, db)?;
        if state == ProcessEventState::New && 0 < event.event.content_len {
            actions.push(Action::ContentMissing);
        }
        Ok((state, actions))
    }

    /// Takes an event that came, inserting it into the database; see
    /// [`event_processed`]. Where a payload has to be read as a post,
    /// `read_post` does it; it answers `None` for bytes that are not the
    /// event's, or no post. The index of candidates is not brought up to date.
    pub fn process_event_inner_tx_with_source<
        F: Fn(&VerifiedEvent, &Vec<u8>) -> Option<SocialPost>,
    >(
        &self,
        event: &VerifiedEvent,
        arrival: Arrival,
        read_post: F,
        db: &mut Tables<'_>,
    ) -> (res: DbResult<(InsertEventOutcome, ProcessEventState, Vec<Action>)>)
        requires
            forall|e: &VerifiedEvent, b: &Vec<u8>| call_requires(read_post, (e, b)),
        ensures
            match res {
                Ok((outcome, state, actions)) => processed_with(
                    *self,
                    old(db)@,
                    *event,
                    arrival,
                    read_post,
                    Ok(((outcome@, state, actions@), final(db)@)),
                ),
                Err(e) => e.is_fault() || processed_with(
                    *self,
                    old(db)@,
                    *event,
                    arrival,
                    read_post,
                    Err(e),
                ),
            },
            unread(res) ==> !old(db).intact(),
            res is Ok && old(db).intact() ==> final(db).intact(),
    {
        let ghost before = db@;
        let outcome = match Self::insert_event_tx(event, db, true) {
            Ok(outcome) => outcome,
            Err(e) => {
                proof {
                    assert(event_processed(*self, before, *event, arrival, None, None) == Err::<
                        ((InsertOutcomeModel, ProcessEventState, Seq<Action>), DbState),
                        DbError,
                    >(e) || e.is_fault());
                }
                return Err(e);
            },
        };
        let ghost mid = db@;
        proof {
            lemma_parent_known(before, *event, true);
        }
        let mut retained: Option<SocialPost> = None;
        let mut reverted: Option<SocialPost> = None;
        if let InsertEventOutcome::Inserted {
            is_deleted,
            deleted_parent,
            reverted_parent_content,
            ..
        } = &outcome {
            if *is_deleted {
                if let Some(bytes) = db.content_store.get(&event.event.content_hash)? {
                    retained = read_post(event, &bytes);
                }
            }
            if let (Some(bytes), Some(parent_id)) = (reverted_parent_content, deleted_parent) {
                if let Some(parent) = db.events.get(parent_id)? {
                    reverted = read_post(&parent, bytes);
                }
            }
        }
        assert(read_as(read_post, *event, retained_payload(mid, *event, outcome@), retained));
        assert(read_as(
            read_post,
            reverted_event(mid, outcome@),
            reverted_payload(outcome@),
            reverted,
        ));
        let ghost (r1, r2) = (retained, reverted);
        let (state, actions) = match self.finish_event_tx(
            event,
            &outcome,
            arrival,
            &retained,
            &reverted,
            db,
        ) {
            Ok(done) => done,
            Err(e) => {
                proof {
                    assert(event_processed(*self, before, *event, arrival, r1, r2) == Err::<
                        ((InsertOutcomeModel, ProcessEventState, Seq<Action>), DbState),
                        DbError,
                    >(e) || e.is_fault());
                }
                return Err(e);
            },
        };
        proof {
            assert(event_processed(*self, before, *event, arrival, r1, r2) == Ok::<
                ((InsertOutcomeModel, ProcessEventState, Seq<Action>), DbState),
                DbError,
            >(((outcome@, state, actions@), db@)));
        }
        Ok((outcome, state, actions))
    }
}

/// An event that came did what [`event_processed`] says, for readings of the
/// two payloads that `read_post` gave. Nothing depends on a reading that was
/// not asked for.
pub open spec fn processed_with<F: Fn(&VerifiedEvent, &Vec<u8>) -> Option<SocialPost>>(
    me: Database,
    db: DbState,
    e: VerifiedEvent,
    arrival: Arrival,
    read_post: F,
    done: Effect<(InsertOutcomeModel, ProcessEventState, Seq<Action>), DbState>,
) -> bool {
    match inserted(db, e, true) {
        Err(err) => done == Err::<
            ((InsertOutcomeModel, ProcessEventState, Seq<Action>), DbState),
            DbError,
        >(err),
        Ok((outcome, mid)) => exists|retained: Option<SocialPost>, reverted: Option<SocialPost>|
            {
                &&& read_as(read_post, e, retained_payload(mid, e, outcome), retained)
                &&& read_as(
                    read_post,
                    reverted_event(mid, outcome),
                    reverted_payload(outcome),
                    reverted,
                )
                &&& done == #[trigger] event_processed(me, db, e, arrival, retained, reverted)
            },
    }
}

/// After an insertion, a parent whose payload is to be taken back is stored.
pub proof fn lemma_parent_known(db: DbState, e: VerifiedEvent, track_usage: bool)
    ensures
        inserted(db, e, track_usage) matches Ok((outcome, after)) ==> parent_known(after, outcome),
{
    reveal(crate::insert_event::placed);
    reveal(crate::insert_event::parents_linked);
    reveal(crate::insert_event::header_stored);
}

}
