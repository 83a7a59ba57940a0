//! Events and payloads as they come, with the index of candidates kept up to
//! date.

use vstd::prelude::*;

use crate::database::Database;
use crate::error::{left, unread, DbError, DbResult, Effect};
use crate::event::{EventReceivedSource, VerifiedEvent};
use crate::ids::{EventId, RostraId, ShortEventId, Timestamp};
use crate::insert_event::{InsertEventOutcome, InsertOutcomeModel};
use crate::payload::{Action, Payload, SocialPost};
use crate::process_content::{content_processed, content_ran, is_failure, ContentOutcome};
use crate::process_event::{processed_with, Arrival, ProcessEventState};
use crate::retention::RetentionPolicy;
use crate::retention_index::{
    entry_of, index_record, index_refreshed, is_scale, scale_of, Scale,
};
use crate::tables::{DbState, Tables};

verus! {

/// What taking an event comes to.
pub type EventEffect = Effect<(InsertOutcomeModel, ProcessEventState, Seq<Action>), DbState>;

/// The event whose payload an event asks to be deleted.
pub open spec fn deletion_target(e: VerifiedEvent) -> Option<ShortEventId> {
    if e.event.deletes_parent_aux {
        e.event.parent_aux
    } else {
        None
    }
}

/// The index is brought up to date with an event and with the one whose
/// payload it asks to be deleted.
pub open spec fn pair_indexed(me: Database, db: DbState, scale: Scale, e: VerifiedEvent) -> Result<
    DbState,
    DbError,
> {
    match index_refreshed(me, db, scale, e.id()) {
        Err(err) => Err(err),
        Ok(after) => match deletion_target(e) {
            Some(target) => index_refreshed(me, after, scale, target),
            None => Ok(after),
        },
    }
}

/// An event was taken, and the index follows.
pub open spec fn event_indexed(
    me: Database,
    scale: Scale,
    e: VerifiedEvent,
    taken: EventEffect,
) -> EventEffect {
    match taken {
        Err(err) => Err(err),
        Ok((told, mid)) => match pair_indexed(me, mid, scale, e) {
            Err(err) => Err(err),
            Ok(after) => Ok((told, after)),
        },
    }
}

/// An event was taken as [`processed_with`] says, and the index follows.
pub open spec fn taken_with<F: Fn(&VerifiedEvent, &Vec<u8>) -> Option<SocialPost>>(
    me: Database,
    db: DbState,
    scale: Scale,
    e: VerifiedEvent,
    arrival: Arrival,
    read_post: F,
    done: EventEffect,
) -> bool {
    exists|taken: EventEffect|
        processed_with(me, db, e, arrival, read_post, taken) && done == #[trigger] event_indexed(
            me,
            scale,
            e,
            taken,
        )
}

/// A payload is taken, and the index follows.
pub open spec fn content_indexed(
    me: Database,
    db: DbState,
    scale: Scale,
    e: VerifiedEvent,
    bytes: Seq<u8>,
    payload: Payload,
    now: Timestamp,
) -> Effect<(ContentOutcome, Seq<Action>), DbState> {
    match content_processed(me, db, e, bytes, payload, now) {
        Err(err) => Err(err),
        Ok((told, mid)) => match index_refreshed(me, mid, scale, e.id()) {
            Err(err) => Err(err),
            Ok(after) => Ok((told, after)),
        },
    }
}

/// The index does not depend on when the database was created.
proof fn lemma_fresh_index(me: Database, db: DbState, scale: Scale, id: ShortEventId)
    ensures
        index_refreshed(me.always_fresh(), db, scale, id) == index_refreshed(me, db, scale, id),
{
    if let Some(record) = index_record(db) {
        assert(entry_of(me.always_fresh(), db, scale, record.generation, id) == entry_of(
            me,
            db,
            scale,
            record.generation,
            id,
        ));
    }
}

impl Database {
    fn index_event_tx<F: Fn(RetentionPolicy, EventId, RostraId, u32, Timestamp) -> (u64, u64)>(
        &self,
        event: &VerifiedEvent,
        score: &F,
        db: &mut Tables<'_>,
    ) -> (res: DbResult<()>)
        requires
            is_scale(*score),
        ensures
            left(res, final(db)@, pair_indexed(*self, old(db)@, scale_of(*score), *event)),
            unread(res) ==> !old(db).intact(),
            res is Ok && old(db).intact() ==> final(db).intact(),
    {
        self.refresh_retention_index_tx(event.short_id(), score, db)?;
        if event.event.deletes_parent_aux {
            if let Some(target) = event.event.parent_aux {
                self.refresh_retention_index_tx(target, score, db)?;
            }
        }
        Ok(())
    }

    /// Takes an event that came, and keeps the index up to date; see
    /// [`taken_with`]. `read_post` reads payloads as posts, and `score` scores
    /// them.
    pub fn process_event_tx_with_source<
        P: Fn(&VerifiedEvent, &Vec<u8>) -> Option<SocialPost>,
        F: Fn(RetentionPolicy, EventId, RostraId, u32, Timestamp) -> (u64, u64),
    >(
        &self,
        event: &VerifiedEvent,
        arrival: Arrival,
        read_post: P,
        score: &F,
        db: &mut Tables<'_>,
    ) -> (res: DbResult<(InsertEventOutcome, ProcessEventState, Vec<Action>)>)
        requires
            forall|e: &VerifiedEvent, b: &Vec<u8>| call_requires(read_post, (e, b)),
            is_scale(*score),
        ensures
            match res {
                Ok((outcome, state, actions)) => taken_with(
                    *self,
                    old(db)@,
                    scale_of(*score),
                    *event,
                    arrival,
                    read_post,
                    Ok(((outcome@, state, actions@), final(db)@)),
                ),
                Err(e) => e.is_fault() || taken_with(
                    *self,
                    old(db)@,
                    scale_of(*score),
                    *event,
                    arrival,
                    read_post,
                    Err(e),
                ),
            },
            unread(res) ==> !old(db).intact(),
            res is Ok && old(db).intact() ==> final(db).intact(),
    {
        let ghost scale = scale_of(*score);
        let (outcome, state, actions) = match self.process_event_inner_tx_with_source(
            event,
            arrival,
            read_post,
            db,
        ) {
            Ok(told) => told,
            Err(e) => {
                assert(event_indexed(*self, scale, *event, Err(e)) == EventEffect::Err(e));
                return Err(e);
            },
        };
        let ghost taken: EventEffect = Ok(((outcome@, state, actions@), db@));
        match self.index_event_tx(event, score, db) {
            Ok(()) => {
                assert(event_indexed(*self, scale, *event, taken) == EventEffect::Ok(
                    ((outcome@, state, actions@), db@),
                ));
                Ok((outcome, state, actions))
            },
            Err(e) => {
                assert(e.is_fault() || event_indexed(*self, scale, *event, taken)
                    == EventEffect::Err(e));
                Err(e)
            },
        }
    }

    /// Takes an event that came from no known peer; see
    /// [`Database::process_event_tx_with_source`].
    pub fn process_event_tx<
        P: Fn(&VerifiedEvent, &Vec<u8>) -> Option<SocialPost>,
        F: Fn(RetentionPolicy, EventId, RostraId, u32, Timestamp) -> (u64, u64),
    >(
        &self,
        event: &VerifiedEvent,
        now: Timestamp,
        track_retention: bool,
        read_post: P,
        score: &F,
        db: &mut Tables<'_>,
    ) -> (res: DbResult<(InsertEventOutcome, ProcessEventState, Vec<Action>)>)
        requires
            forall|e: &VerifiedEvent, b: &Vec<u8>| call_requires(read_post, (e, b)),
            is_scale(*score),
        ensures
            ({
                let arrival = Arrival {
                    now,
                    source: EventReceivedSource::Pushed { from_id: None, from_node: None },
                    track_retention,
                };
                match res {
                    Ok((outcome, state, actions)) => taken_with(
                        *self,
                        old(db)@,
                        scale_of(*score),
                        *event,
                        arrival,
                        read_post,
                        Ok(((outcome@, state, actions@), final(db)@)),
                    ),
                    Err(e) => e.is_fault() || taken_with(
                        *self,
                        old(db)@,
                        scale_of(*score),
                        *event,
                        arrival,
                        read_post,
                        Err(e),
                    ),
                }
            }),
            unread(res) ==> !old(db).intact(),
            res is Ok && old(db).intact() ==> final(db).intact(),
    {
        self.process_event_tx_with_source(
            event,
            Arrival {
                now,
                source: EventReceivedSource::Pushed { from_id: None, from_node: None },
                track_retention,
            },
            read_post,
            score,
            db,
        )
    }

    /// Takes a payload that arrived, and keeps the index up to date; see
    /// [`content_indexed`]. `payload` is what the bytes say, and `score` scores
    /// payloads. Where the follow of the author cannot be read, the event counts
    /// as received now, as in [`Database::always_fresh`], and the failure is kept
    /// as passed over.
    pub fn process_event_content_tx<
        F: Fn(RetentionPolicy, EventId, RostraId, u32, Timestamp) -> (u64, u64),
    >(
        &self,
        event: &VerifiedEvent,
        bytes: Vec<u8>,
        payload: Payload,
        now: Timestamp,
        score: &F,
        db: &mut Tables<'_>,
    ) -> (res: DbResult<(ContentOutcome, Vec<Action>)>)
        requires
            is_scale(*score),
        ensures
            content_ran(
                res,
                final(db)@,
                content_indexed(
                    self.as_read(final(db).passed_over),
                    old(db)@,
                    scale_of(*score),
                    *event,
                    bytes@,
                    payload,
                    now,
                ),
            ),
            is_failure(final(db).passed_over, old(db).intact()),
            unread(res) ==> !old(db).intact(),
            res is Ok && old(db).intact() ==> final(db).intact(),
    {
        let mut failed: Option<DbError> = None;
        let taken = self.take_content_tx(event, bytes, payload, now, &mut failed, db);
        let done = match taken {
            Ok(told) => {
                proof {
                    lemma_fresh_index(*self, db@, scale_of(*score), event.id());
                }
                match self.refresh_retention_index_tx(event.short_id(), score, db) {
                    Ok(()) => Ok(told),
                    Err(e) => Err(e),
                }
            },
            Err(e) => Err(e),
        };
        db.passed_over = failed;
        done
    }
}

}
