//! What comes twice is taken once, and a later vote takes the place of an
//! earlier one.

use vstd::prelude::*;

use crate::content::state_of;
use crate::database::Database;
use crate::error::DbError;
use crate::event::{EventContentState, VerifiedEvent};
use crate::ids::Timestamp;
use crate::insert_event::{header_stored, inserted, parents_linked, placed, InsertOutcomeModel};
use crate::payload::{Action, Payload, SocialPost, SocialVote};
use crate::process_content::{
    content_inserted, content_processed, vote_cast, vote_counted, vote_held, vote_replaces,
    ContentOutcome,
};
use crate::process_event::{event_processed, newcomer_processed, Arrival};
use crate::tables::DbState;

verus! {

/// An event that is inserted again changes nothing.
pub proof fn law_insert_twice(db: DbState, e: VerifiedEvent, track_usage: bool)
    ensures
        inserted(db, e, track_usage) matches Ok((_, after)) ==> inserted(after, e, track_usage)
            == Ok::<_, DbError>((InsertOutcomeModel::AlreadyPresent, after)),
{
    lemma_inserted_known(db, e, track_usage);
    if let Ok((_, after)) = inserted(db, e, track_usage) {
        assert(after.ids_full.insert(e.event.author, ()) =~= after.ids_full);
    }
}

/// A processed event stays where it is when it comes again, from wherever and
/// whenever: nothing changes, and nobody is told.
pub proof fn law_event_twice(
    me: Database,
    db: DbState,
    e: VerifiedEvent,
    first: Arrival,
    retained: Option<SocialPost>,
    reverted: Option<SocialPost>,
    second: Arrival,
    retained_then: Option<SocialPost>,
    reverted_then: Option<SocialPost>,
)
    ensures
        event_processed(me, db, e, first, retained, reverted) matches Ok((_, after)) ==> (
        event_processed(me, after, e, second, retained_then, reverted_then) matches Ok(
            ((outcome, state, actions), again),
        ) && outcome is AlreadyPresent && !(state is New) && actions == Seq::<Action>::empty()
            && again == after),
{
    if let Ok((_, after)) = event_processed(me, db, e, first, retained, reverted) {
        let (outcome, mid) = inserted(db, e, true)->Ok_0;
        lemma_inserted_known(db, e, true);
        let (_, told) = newcomer_processed(me, mid, e, outcome, first, retained, reverted)->Ok_0;
        lemma_newcomer_keeps(me, mid, e, outcome, first, retained, reverted);
        assert(after.events.contains_key(e.id()));
        assert(after.ids_full.contains_key(e.event.author));
        assert(after.ids_full.insert(e.event.author, ()) =~= after.ids_full);
        assert(inserted(after, e, true) == Ok::<_, DbError>(
            (InsertOutcomeModel::AlreadyPresent, after),
        ));
    }
}

proof fn lemma_inserted_known(db: DbState, e: VerifiedEvent, track_usage: bool)
    ensures
        inserted(db, e, track_usage) matches Ok((_, after)) ==> after.events.contains_key(e.id())
            && after.ids_full.contains_key(e.event.author) && after.ids_full[e.event.author] == (),
{
    reveal(placed);
    reveal(parents_linked);
    reveal(header_stored);
}

proof fn lemma_newcomer_keeps(
    me: Database,
    db: DbState,
    e: VerifiedEvent,
    outcome: InsertOutcomeModel,
    arrival: Arrival,
    retained: Option<SocialPost>,
    reverted: Option<SocialPost>,
)
    ensures
        newcomer_processed(me, db, e, outcome, arrival, retained, reverted) matches Ok((_, after))
            ==> after.events == db.events && after.ids_full == db.ids_full,
{
}

/// A payload is processed once: when it comes again, it is passed over and
/// nothing changes, whether it was accepted or turned out invalid.
pub proof fn law_content_once(
    me: Database,
    db: DbState,
    e: VerifiedEvent,
    bytes: Seq<u8>,
    payload: Payload,
    now: Timestamp,
    bytes_then: Seq<u8>,
    payload_then: Payload,
    then_at: Timestamp,
)
    ensures
        content_processed(me, db, e, bytes, payload, now) matches Ok(((outcome, _), after))
            ==> (outcome is Processed || outcome is Invalid ==> content_processed(
            me,
            after,
            e,
            bytes_then,
            payload_then,
            then_at,
        ) == Ok::<_, DbError>(((ContentOutcome::Skipped, Seq::<Action>::empty()), after))),
{
    lemma_states_kept(me, db, e, payload, now);
}

proof fn lemma_states_kept(
    me: Database,
    db: DbState,
    e: VerifiedEvent,
    payload: Payload,
    now: Timestamp,
)
    ensures
        content_inserted(me, db, e, payload, now) matches Ok((_, after))
            ==> after.events_content_state == db.events_content_state,
{
}

/// A vote that is to be counted comes with the one that counted before, and
/// afterwards the singleton row holds the one that counts now: the new one
/// where it takes the place of the other, else the other. No other row changes.
pub proof fn law_vote_counted(
    me: Database,
    db: DbState,
    e: VerifiedEvent,
    vote: SocialVote,
    now: Timestamp,
)
    requires
        e.event.kind is SocialVote,
        vote_cast(e, vote) is Some,
    ensures
        ({
            let key = (e.event.author, e.event.kind, e.event.aux_key);
            content_inserted(me, db, e, Payload::SocialVote(vote), now) matches Ok((told, after))
                && told == Some(seq![vote_counted(db, e, vote_cast(e, vote)->0)])
                && after.events_singletons_new.contains_key(key)
                && after.events_singletons_new[key].inner.social_vote == (if vote_replaces(db, e) {
                vote_cast(e, vote)
            } else {
                vote_held(db, e)
            }) && after.events_singletons_new.remove(key) == db.events_singletons_new.remove(key)
        }),
{
    let key = (e.event.author, e.event.kind, e.event.aux_key);
    if let Ok((_, after)) = content_inserted(me, db, e, Payload::SocialVote(vote), now) {
        assert(after.events_singletons_new.remove(key) =~= db.events_singletons_new.remove(key));
    }
}

/// Only a payload that is waited for has effects; of a deleted one no more
/// than the edit that it was is noted, and its bytes are not kept.
pub proof fn law_only_missing_content_acts(
    me: Database,
    db: DbState,
    e: VerifiedEvent,
    bytes: Seq<u8>,
    payload: Payload,
    now: Timestamp,
)
    ensures
        content_processed(me, db, e, bytes, payload, now) matches Ok(((outcome, actions), after))
            ==> match state_of(db.events_content_state, e.id()) {
            Some(EventContentState::Missing { .. }) => outcome is Processed || outcome is Invalid,
            Some(EventContentState::Deleted { .. }) => {
                &&& outcome is Deleted
                &&& actions == Seq::<Action>::empty()
                &&& after == (DbState {
                    social_posts_replaced_by: after.social_posts_replaced_by,
                    social_posts_replaces: after.social_posts_replaces,
                    ..db
                })
            },
            _ => outcome is Skipped && actions == Seq::<Action>::empty() && after == db,
        },
{
}

}
