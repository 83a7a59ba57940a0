//! What was written can be read.

use vstd::prelude::*;

use crate::content::state_of;
use crate::database::Database;
use crate::event::VerifiedEvent;
use crate::ids::{ShortEventId, Timestamp};
use crate::insert_event::stored;
use crate::payload::{is_projected, Payload, SocialPost};
use crate::process_content::content_processed;
use crate::process_event::{event_processed, Arrival};
use crate::projection::received_time;
use crate::social::{payload_of, record_of};
use crate::soundness::{lemma_event_stored, same_if_stored};
use crate::tables::DbState;

verus! {

/// An event that was taken is stored as it came.
pub proof fn law_event_read_back(
    me: Database,
    db: DbState,
    e: VerifiedEvent,
    arrival: Arrival,
    retained: Option<SocialPost>,
    reverted: Option<SocialPost>,
)
    requires
        same_if_stored(db, e),
    ensures
        event_processed(me, db, e, arrival, retained, reverted) matches Ok((_, after))
            ==> after.events.contains_key(e.id()) && after.events[e.id()] == e,
{
    lemma_event_stored(me, db, e, arrival, retained, reverted);
}

/// A payload that was processed is read back: the bytes that came, or those
/// that were stored under its hash before.
pub proof fn law_payload_read_back(
    me: Database,
    db: DbState,
    e: VerifiedEvent,
    bytes: Seq<u8>,
    payload: Payload,
    now: Timestamp,
)
    requires
        db.events.contains_key(e.id()),
        db.events[e.id()] == e,
    ensures
        content_processed(me, db, e, bytes, payload, now) matches Ok(((outcome, _), after)) ==> (
        outcome is Processed ==> payload_of(after, e.id()) == Some(
            match stored(db, e.event.content_hash) {
                Some(kept) => kept,
                None => bytes,
            },
        )),
{
}

/// A payload that is missing, deleted, given up or invalid is not read.
pub proof fn law_only_processed_read(db: DbState, id: ShortEventId)
    requires
        state_of(db.events_content_state, id) is Some,
    ensures
        payload_of(db, id) is None,
{
}

/// A post that was processed and shows up is listed by the time at which it
/// was written and by the time at which it counts as received, and is read
/// back as itself.
pub proof fn law_post_read_back(
    me: Database,
    db: DbState,
    e: VerifiedEvent,
    bytes: Seq<u8>,
    post: SocialPost,
    mentions_self: bool,
    now: Timestamp,
)
    requires
        e.event.kind is SocialPost,
        is_projected(e.event, post),
    ensures
        content_processed(
            me,
            db,
            e,
            bytes,
            Payload::SocialPost { post, mentions_self },
            now,
        ) matches Ok(((outcome, _), after)) ==> (outcome is Processed ==> {
            let receipt = after.social_posts_received_at_keys[e.id()];
            &&& after.social_posts_by_time.contains_key((e.event.timestamp, e.id()))
            &&& after.social_posts_received_at_keys.contains_key(e.id())
            &&& receipt.received_at == received_time(
                me,
                e.event.author,
                e.event.timestamp,
                now,
                db.ids_followees,
            )
            &&& after.social_posts_by_received_at.contains_key((receipt.received_at, receipt.order))
            &&& after.social_posts_by_received_at[(receipt.received_at, receipt.order)] == e.id()
            &&& db.events.contains_key(e.id()) && db.events[e.id()] == e ==> (record_of(
                after,
                e.id(),
                e.event.timestamp,
                Some(post),
            ) matches Ok(found) ==> (found matches Some(record) && record.content == post
                && record.author == e.event.author && record.reply_to == post.reply_to))
        }),
{
}

}
