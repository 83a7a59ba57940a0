//! Payloads given up for their size. Which ones, and when, is for the caller
//! to choose; whether that may be is looked at here.

use vstd::prelude::*;

use crate::content::{pruned, state_of};
use crate::database::Database;
use crate::error::{unread, DbError, DbResult, Effect};
use crate::event::{EventContentState, EventKind, VerifiedEvent};
use crate::ids::{EventId, RostraId, ShortEventId, Timestamp};
use crate::insert_event::stored;
use crate::payload::{Action, SocialPost};
use crate::process_content::{content_reverted, ProcessEventError};
use crate::process_event::read_as;
use crate::retention::{QuotaPruneDecision, QuotaPruneReason, RetentionOrigins, RetentionPolicy};
use crate::retention_index::{index_refreshed, is_scale, scale_of, Scale};
use crate::tables::{DbState, Tables};

verus! {

/// The state in which the caller found the payload.
#[derive(Debug, Clone, Copy, PartialEq, Eq, Structural)]
pub enum QuotaPruneTarget {
    /// It was processed; it is released once its grace is over.
    Processed,
    /// It was missing; it is not admitted any more.
    Missing,
}

/// Whether the clock can be relied on, as the caller established it.
#[derive(Debug, Clone, Copy, PartialEq, Eq, Structural)]
pub enum RetentionClock {
    /// Nothing is given up.
    Untrusted,
    /// It is this time.
    Trusted(Timestamp),
}

/// What became of a payload that was to be given up.
#[derive(Debug, Clone, Copy, PartialEq, Eq, Structural)]
pub enum QuotaPruneOutcome {
    /// It is given up.
    Pruned {
        /// Bytes of a processed payload that are released.
        logical_released_bytes: u64,
    },
    /// It is not in the state in which the caller found it.
    Unchanged,
    /// It is protected, or too little is known of its age, or the clock is not
    /// trusted.
    Ineligible,
}

/// A payload to give up.
#[derive(Debug, Clone, Copy, PartialEq, Eq, Structural)]
pub struct QuotaPruneRequest {
    pub id: ShortEventId,
    pub target: QuotaPruneTarget,
    pub reason: QuotaPruneReason,
    /// The policy that gives the grace.
    pub policy: RetentionPolicy,
    pub clock: RetentionClock,
}

/// The payload is in the state in which the caller found it.
pub open spec fn on_target(target: QuotaPruneTarget, state: Option<EventContentState>) -> bool {
    match target {
        QuotaPruneTarget::Processed => state is None,
        QuotaPruneTarget::Missing => state matches Some(EventContentState::Missing { .. }),
    }
}

/// The payload has the age to be given up: neither it nor its first processing
/// lies ahead, a processed one has had its grace, and a missing one was never
/// processed.
pub open spec fn of_age(
    origins: RetentionOrigins,
    target: QuotaPruneTarget,
    policy: RetentionPolicy,
    now: Timestamp,
) -> bool {
    &&& origins.effective_timestamp.secs <= now.secs
    &&& match target {
        QuotaPruneTarget::Processed => origins.materialized_at matches Some(first) && first.secs
            <= now.secs && policy.deadline(first) <= now.secs,
        QuotaPruneTarget::Missing => origins.materialized_at is None,
    }
}

/// What is to be done with a request: it is answered, or the payload is given
/// up at the time given.
pub open spec fn quota_decided(
    me: Database,
    db: DbState,
    request: QuotaPruneRequest,
    accounting_ready: bool,
) -> Result<Result<Timestamp, QuotaPruneOutcome>, DbError> {
    let id = request.id;
    let e = db.events[id];
    if !accounting_ready {
        Err(DbError::PayloadAccountingNotReady)
    } else if !db.events.contains_key(id) || !on_target(
        request.target,
        state_of(db.events_content_state, id),
    ) {
        Ok(Err(QuotaPruneOutcome::Unchanged))
    } else if e.event.author == me.self_id || !(e.event.kind is SocialPost) || e.event.content_len
        == 0 {
        Ok(Err(QuotaPruneOutcome::Ineligible))
    } else {
        match request.clock {
            RetentionClock::Trusted(now) => if !db.events_retention_origins.contains_key(id)
                || !of_age(
                db.events_retention_origins[id],
                request.target,
                request.policy,
                now,
            ) {
                Ok(Err(QuotaPruneOutcome::Ineligible))
            } else if db.events_quota_pruned.contains_key(id) {
                Err(DbError::PayloadAccountingInvariant)
            } else if request.target is Processed && stored(db, e.event.content_hash) is None {
                Err(DbError::PayloadAccountingInvariant)
            } else {
                Ok(Ok(now))
            },
            RetentionClock::Untrusted => Ok(Err(QuotaPruneOutcome::Ineligible)),
        }
    }
}

/// The payload of an event is given up: what it did as a post is taken back,
/// it is pruned, and the decision is noted; its bytes are nominated for
/// collection. The payload must be a post.
pub open spec fn quota_released(
    db: DbState,
    request: QuotaPruneRequest,
    now: Timestamp,
    post: Option<SocialPost>,
) -> Effect<(QuotaPruneOutcome, Seq<Action>), DbState> {
    let e = db.events[request.id];
    let reverted = if request.target is Processed {
        content_reverted(db, e, post)
    } else {
        Ok((Some(Seq::empty()), db))
    };
    match reverted {
        Err(err) => Err(err),
        Ok((None, _)) => Err(DbError::PayloadAccountingInvariant),
        Ok((Some(actions), without)) => match pruned(
            without,
            request.id,
            e.event.content_hash,
            Some((e.event.author, e.event.content_len)),
        ) {
            Err(err) => Err(err),
            Ok((_, after)) => Ok(
                (
                    (
                        QuotaPruneOutcome::Pruned {
                            logical_released_bytes: if request.target is Processed {
                                e.event.content_len as u64
                            } else {
                                0
                            },
                        },
                        actions + seq![
                            Action::NominatePayload { content_hash: e.event.content_hash },
                            Action::QuotaPruned { event_id: request.id },
                        ],
                    ),
                    DbState {
                        events_quota_pruned: after.events_quota_pruned.insert(
                            request.id,
                            QuotaPruneDecision { reason: request.reason, pruned_at: now },
                        ),
                        ..after
                    },
                ),
            ),
        },
    }
}

/// What a request does, given what the payload reads as.
pub open spec fn quota_pruned(
    me: Database,
    db: DbState,
    request: QuotaPruneRequest,
    accounting_ready: bool,
    post: Option<SocialPost>,
) -> Effect<(QuotaPruneOutcome, Seq<Action>), DbState> {
    match quota_decided(me, db, request, accounting_ready) {
        Err(e) => Err(e),
        Ok(Err(outcome)) => Ok(((outcome, Seq::empty()), db)),
        Ok(Ok(now)) => quota_released(db, request, now, post),
    }
}

/// The payload that has to be read to carry a request out.
pub open spec fn quota_payload(
    me: Database,
    db: DbState,
    request: QuotaPruneRequest,
    accounting_ready: bool,
) -> Option<Seq<u8>> {
    if quota_decided(me, db, request, accounting_ready) matches Ok(Ok(_)) && request.target
        is Processed {
        stored(db, db.events[request.id].event.content_hash)
    } else {
        None
    }
}

/// A request did what [`quota_pruned`] says, for a reading of the payload that
/// `read_post` gave, and the index was brought up to date.
pub open spec fn quota_pruned_with<F: Fn(&VerifiedEvent, &Vec<u8>) -> Option<SocialPost>>(
    me: Database,
    db: DbState,
    scale: Scale,
    request: QuotaPruneRequest,
    accounting_ready: bool,
    read_post: F,
    done: Effect<(QuotaPruneOutcome, Seq<Action>), DbState>,
) -> bool {
    exists|post: Option<SocialPost>|
        {
            &&& read_as(
                read_post,
                db.events[request.id],
                quota_payload(me, db, request, accounting_ready),
                post,
            )
            &&& done == #[trigger] pruned_and_indexed(me, db, scale, request, accounting_ready, post)
        }
}

/// A request is carried out, and the index brought up to date with it.
pub open spec fn pruned_and_indexed(
    me: Database,
    db: DbState,
    scale: Scale,
    request: QuotaPruneRequest,
    accounting_ready: bool,
    post: Option<SocialPost>,
) -> Effect<(QuotaPruneOutcome, Seq<Action>), DbState> {
    match quota_pruned(me, db, request, accounting_ready, post) {
        Ok(((QuotaPruneOutcome::Pruned { logical_released_bytes }, actions), after)) => {
            match index_refreshed(me, after, scale, request.id) {
                Err(e) => Err(e),
                Ok(indexed) => Ok(
                    (
                        (QuotaPruneOutcome::Pruned { logical_released_bytes }, actions),
                        indexed,
                    ),
                ),
            }
        },
        other => other,
    }
}

impl Database {
    /// Decides what is to be done with a request; see [`quota_decided`].
    pub fn decide_quota_prune_tx(
        &self,
        request: &QuotaPruneRequest,
        accounting_ready: bool,
        db: &Tables<'_>,
    ) -> (res: DbResult<Result<Timestamp, QuotaPruneOutcome>>)
        ensures
            match res {
                Ok(decided) => quota_decided(*self, db@, *request, accounting_ready) == Ok::<
                    _,
                    DbError,
                >(decided),
                Err(e) => e.is_fault() || quota_decided(
                    *self,
                    db@,
                    *request,
                    accounting_ready,
                ) == Err::<Result<Timestamp, QuotaPruneOutcome>, _>(e),
            },
            unread(res) ==> !db.intact(),
    {
        let id = request.id;
        if !accounting_ready {
            return Err(DbError::PayloadAccountingNotReady);
        }
        let event = match db.events.get(&id)? {
            Some(event) => event,
            None => return Ok(Err(QuotaPruneOutcome::Unchanged)),
        };
        let state = db.events_content_state.get(&id)?;
        match (request.target, state) {
            (QuotaPruneTarget::Processed, None) => {},
            (QuotaPruneTarget::Missing, Some(EventContentState::Missing { .. })) => {},
            _ => return Ok(Err(QuotaPruneOutcome::Unchanged)),
        }
        if event.event.author == self.self_id || event.event.kind != EventKind::SocialPost
            || event.event.content_len == 0 {
            return Ok(Err(QuotaPruneOutcome::Ineligible));
        }
        let now = match request.clock {
            RetentionClock::Trusted(now) => now,
            RetentionClock::Untrusted => return Ok(Err(QuotaPruneOutcome::Ineligible)),
        };
        let origins = match db.events_retention_origins.get(&id)? {
            Some(origins) => origins,
            None => return Ok(Err(QuotaPruneOutcome::Ineligible)),
        };
        let materialized_ahead = match origins.materialized_at {
            Some(first) => now.secs < first.secs,
            None => false,
        };
        if now.secs < origins.effective_timestamp.secs || materialized_ahead || (request.target
            == QuotaPruneTarget::Processed && !request.policy.grace_elapsed(
            origins.materialized_at,
            now,
        )) || (request.target == QuotaPruneTarget::Missing && origins.materialized_at.is_some()) {
            return Ok(Err(QuotaPruneOutcome::Ineligible));
        }
        if db.events_quota_pruned.contains(&id)? {
            return Err(DbError::PayloadAccountingInvariant);
        }
        if request.target == QuotaPruneTarget::Processed && !db.content_store.contains(
            &event.event.content_hash,
        )? {
            return Err(DbError::PayloadAccountingInvariant);
        }
        Ok(Ok(now))
    }

    /// Gives the payload of a stored event up; see [`quota_released`]. `post`
    /// is what the payload reads as.
    pub fn release_quota_payload_tx(
        request: &QuotaPruneRequest,
        event: &VerifiedEvent,
        now: Timestamp,
        post: &Option<SocialPost>,
        db: &mut Tables<'_>,
    ) -> (res: DbResult<(QuotaPruneOutcome, Vec<Action>)>)
        requires
            old(db)@.events.contains_key(request.id),
            old(db)@.events[request.id] == *event,
        ensures
            match res {
                Ok((outcome, actions)) => quota_released(old(db)@, *request, now, *post) == Ok::<
                    _,
                    DbError,
                >(((outcome, actions@), final(db)@)),
                Err(e) => e.is_fault() || quota_released(old(db)@, *request, now, *post) == Err::<
                    ((QuotaPruneOutcome, Seq<Action>), DbState),
                    _,
                >(e),
            },
            unread(res) ==> !old(db).intact(),
            res is Ok && old(db).intact() ==> final(db).intact(),
    {
        let mut actions: Vec<Action> = Vec::new();
        assert(actions@ =~= Seq::empty());
        if request.target == QuotaPruneTarget::Processed {
            match Self::process_event_content_reverted_tx(event, post, db) {
                Ok(taken_back) => {
                    actions = taken_back;
                },
                Err(ProcessEventError::Db(e)) => return Err(e),
                Err(ProcessEventError::Invalid) => {
                    return Err(DbError::PayloadAccountingInvariant);
                },
            }
        }
        Self::prune_event_content_tx(
            request.id,
            event.event.content_hash,
            db,
            Some((event.event.author, event.event.content_len)),
        )?;
        db.events_quota_pruned.insert(
            &request.id,
            &QuotaPruneDecision { reason: request.reason, pruned_at: now },
        )?;
        let ghost reverting = actions@;
        actions.push(Action::NominatePayload { content_hash: event.event.content_hash });
        actions.push(Action::QuotaPruned { event_id: request.id });
        assert(actions@ =~= reverting + seq![
            Action::NominatePayload { content_hash: event.event.content_hash },
            Action::QuotaPruned { event_id: request.id },
        ]);
        let logical_released_bytes: u64 = if request.target == QuotaPruneTarget::Processed {
            event.event.content_len as u64
        } else {
            0
        };
        Ok((QuotaPruneOutcome::Pruned { logical_released_bytes }, actions))
    }

    /// Gives up the payload of a post of someone else that the caller chose,
    /// if that may be; see [`quota_pruned`] and [`quota_pruned_with`].
    /// `accounting_ready` says whether usage of payloads was counted;
    /// `read_post` reads the payload, and answers `None` for bytes that are not
    /// the event's, or no post.
    pub fn prune_quota_payload<
        P: Fn(&VerifiedEvent, &Vec<u8>) -> Option<SocialPost>,
        F: Fn(RetentionPolicy, EventId, RostraId, u32, Timestamp) -> (u64, u64),
    >(
        &self,
        request: &QuotaPruneRequest,
        accounting_ready: bool,
        read_post: P,
        score: &F,
        db: &mut Tables<'_>,
    ) -> (res: DbResult<(QuotaPruneOutcome, Vec<Action>)>)
        requires
            forall|e: &VerifiedEvent, b: &Vec<u8>| call_requires(read_post, (e, b)),
            is_scale(*score),
        ensures
            match res {
                Ok((outcome, actions)) => quota_pruned_with(
                    *self,
                    old(db)@,
                    scale_of(*score),
                    *request,
                    accounting_ready,
                    read_post,
                    Ok(((outcome, actions@), final(db)@)),
                ),
                Err(e) => e.is_fault() || quota_pruned_with(
                    *self,
                    old(db)@,
                    scale_of(*score),
                    *request,
                    accounting_ready,
                    read_post,
                    Err(e),
                ),
            },
            !(quota_decided(*self, old(db)@, *request, accounting_ready) matches Ok(Ok(_)))
                ==> final(db)@ == old(db)@,
            unread(res) ==> !old(db).intact(),
            res is Ok && old(db).intact() ==> final(db).intact(),
    {
        let ghost before = db@;
        let ghost scale = scale_of(*score);
        let now = match self.decide_quota_prune_tx(request, accounting_ready, db) {
            Err(e) => {
                assert(e.is_fault() || pruned_and_indexed(
                    *self,
                    before,
                    scale,
                    *request,
                    accounting_ready,
                    None,
                ) == Err::<((QuotaPruneOutcome, Seq<Action>), DbState), DbError>(e));
                return Err(e);
            },
            Ok(Err(outcome)) => {
                let none: Vec<Action> = Vec::new();
                assert(none@ =~= Seq::empty());
                assert(pruned_and_indexed(
                    *self,
                    before,
                    scale,
                    *request,
                    accounting_ready,
                    None,
                ) == Ok::<_, DbError>(((outcome, none@), before)));
                return Ok((outcome, none));
            },
            Ok(Ok(now)) => now,
        };
        let event = match db.events.get(&request.id)? {
            Some(event) => event,
            None => return Err(DbError::PayloadAccountingInvariant),
        };
        let mut post: Option<SocialPost> = None;
        if request.target == QuotaPruneTarget::Processed {
            if let Some(bytes) = db.content_store.get(&event.event.content_hash)? {
                post = read_post(&event, &bytes);
            }
        }
        let ghost reading = post;
        assert(read_as(
            read_post,
            before.events[request.id],
            quota_payload(*self, before, *request, accounting_ready),
            reading,
        ));
        let (outcome, actions) = match Self::release_quota_payload_tx(
            request,
            &event,
            now,
            &post,
            db,
        ) {
            Ok(done) => done,
            Err(e) => {
                assert(e.is_fault() || pruned_and_indexed(
                    *self,
                    before,
                    scale,
                    *request,
                    accounting_ready,
                    reading,
                ) == Err::<((QuotaPruneOutcome, Seq<Action>), DbState), DbError>(e));
                return Err(e);
            },
        };
        match self.refresh_retention_index_tx(request.id, score, db) {
            Ok(()) => {
                assert(pruned_and_indexed(
                    *self,
                    before,
                    scale,
                    *request,
                    accounting_ready,
                    reading,
                ) == Ok::<_, DbError>(((outcome, actions@), db@)));
                Ok((outcome, actions))
            },
            Err(e) => {
                assert(e.is_fault() || pruned_and_indexed(
                    *self,
                    before,
                    scale,
                    *request,
                    accounting_ready,
                    reading,
                ) == Err::<((QuotaPruneOutcome, Seq<Action>), DbState), DbError>(e));
                Err(e)
            },
        }
    }
}

}
