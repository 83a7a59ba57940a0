//! What each kind of payload does when it comes, and what becomes of the
//! payload itself.

use vstd::prelude::*;

use crate::database::Database;
use crate::event::{EventContentState, EventKind, SocialVoteProjection, VerifiedEvent};
use crate::ids::{EventOrder, IrohNodeId, Timestamp};
use crate::payload::{Action, Payload, SocialProfileUpdate, SocialVote};
use crate::post_laws::to_be_seen;
use crate::process_content::content_processed;
use crate::projection_laws::orders_used;
use crate::tables::DbState;

verus! {

/// The payload of the event is waited for.
pub open spec fn awaited(db: DbState, e: VerifiedEvent) -> bool {
    db.events_content_state.contains_key(e.id()) && db.events_content_state[e.id()] is Missing
}

/// The payload is of the form that the kind of its event asks for; what has to
/// do with direct messages is no singleton and has no auxiliary key.
pub open spec fn fits(e: VerifiedEvent, payload: Payload) -> bool {
    let plain = !e.event.singleton && e.event.aux_key.hi == 0 && e.event.aux_key.lo == 0;
    match e.event.kind {
        EventKind::DirectMessage => payload is DirectMessage && plain,
        EventKind::DmDevice => payload is DmDevice && plain,
        EventKind::Follow => payload is Follow,
        EventKind::Unfollow => payload is Follow,
        EventKind::NodeAnnouncement => payload is NodeAnnouncement,
        EventKind::Shoutbox => payload is Shoutbox,
        EventKind::SocialPost => payload is SocialPost,
        EventKind::SocialProfileUpdate => payload is SocialProfileUpdate,
        EventKind::SocialVote => payload is SocialVote,
        EventKind::Other(_) => true,
    }
}

/// The tables that have to do with payloads as such are the only ones changed.
pub open spec fn only_books(db: DbState, after: DbState) -> bool {
    after == (DbState {
        content_rc: after.content_rc,
        content_store: after.content_store,
        events_content_missing: after.events_content_missing,
        events_content_state: after.events_content_state,
        events_retention_origins: after.events_retention_origins,
        ids_data_usage: after.ids_data_usage,
        ..db
    })
}

/// A payload that was waited for is processed just where it is what the kind of
/// its event asks for; then its bytes are kept unless they are stored already,
/// the event waits no more, the time is noted where none is noted yet, and its
/// length counts to its author's current usage instead of the missing one. The
/// references to it stay as they are.
pub proof fn law_payload_kept(
    me: Database,
    db: DbState,
    e: VerifiedEvent,
    bytes: Seq<u8>,
    payload: Payload,
    now: Timestamp,
)
    requires
        awaited(db, e),
    ensures
        content_processed(me, db, e, bytes, payload, now) matches Ok(((outcome, _), after)) ==> {
            let id = e.id();
            let hash = e.event.content_hash;
            let len = e.event.content_len;
            let row = db.events_retention_origins[id];
            &&& outcome is Processed <==> fits(e, payload)
            &&& outcome is Processed ==> {
                let u = db.ids_data_usage[e.event.author];
                let v = after.ids_data_usage[e.event.author];
                &&& after.content_rc == db.content_rc
                &&& after.content_store == (if db.content_store.contains_key(hash) {
                    db.content_store
                } else {
                    db.content_store.insert(hash, bytes)
                })
                &&& after.events_content_state == db.events_content_state.remove(id)
                &&& after.events_content_missing == db.events_content_missing.remove(
                    (db.events_content_state[id]->next_fetch_attempt, id),
                )
                &&& after.events_retention_origins == (if db.events_retention_origins.contains_key(
                    id,
                ) && row.materialized_at is None {
                    db.events_retention_origins.insert(
                        id,
                        crate::retention::RetentionOrigins {
                            effective_timestamp: row.effective_timestamp,
                            materialized_at: Some(now),
                        },
                    )
                } else {
                    db.events_retention_origins
                })
                &&& db.ids_data_usage.contains_key(e.event.author)
                &&& after.ids_data_usage == db.ids_data_usage.insert(e.event.author, v)
                &&& v.missing_payload_size == u.missing_payload_size - len
                &&& v.missing_payload_num == u.missing_payload_num - 1
                &&& v.current_content_size == u.current_content_size + len
                &&& v.current_payload_num == u.current_payload_num + 1
                &&& v == (crate::tables::IdsDataUsageRecord {
                    missing_payload_size: v.missing_payload_size,
                    missing_payload_num: v.missing_payload_num,
                    current_content_size: v.current_content_size,
                    current_payload_num: v.current_payload_num,
                    ..u
                })
            }
        },
{
}

/// A payload that was waited for and is not what the kind of its event asks for
/// is marked as such: it gives up its reference, the event waits no more, and
/// its length counts to its author's invalid usage instead of the missing one.
/// Its bytes are not kept for it, nothing else changes, and nobody is told.
pub proof fn law_payload_rejected(
    me: Database,
    db: DbState,
    e: VerifiedEvent,
    bytes: Seq<u8>,
    payload: Payload,
    now: Timestamp,
)
    requires
        awaited(db, e),
        !fits(e, payload),
    ensures
        content_processed(me, db, e, bytes, payload, now) matches Ok(((outcome, actions), after))
            ==> {
            let id = e.id();
            let hash = e.event.content_hash;
            let len = e.event.content_len;
            let u = db.ids_data_usage[e.event.author];
            let v = after.ids_data_usage[e.event.author];
            &&& outcome is Invalid
            &&& actions.len() == 0
            &&& only_books(db, after)
            &&& after.content_store == db.content_store
            &&& after.events_retention_origins == db.events_retention_origins
            &&& after.events_content_state == db.events_content_state.insert(
                id,
                EventContentState::Invalid,
            )
            &&& after.events_content_missing == db.events_content_missing.remove(
                (db.events_content_state[id]->next_fetch_attempt, id),
            )
            &&& db.content_rc.contains_key(hash)
            &&& db.content_rc[hash] > 0
            &&& after.content_rc == (if db.content_rc[hash] == 1 {
                db.content_rc.remove(hash)
            } else {
                db.content_rc.insert(hash, (db.content_rc[hash] - 1) as u64)
            })
            &&& after.ids_data_usage == db.ids_data_usage.insert(e.event.author, v)
            &&& v.missing_payload_size == u.missing_payload_size - len
            &&& v.missing_payload_num == u.missing_payload_num - 1
            &&& v.invalid_payload_size == u.invalid_payload_size + len
            &&& v.invalid_payload_num == u.invalid_payload_num + 1
            &&& v == (crate::tables::IdsDataUsageRecord {
                missing_payload_size: v.missing_payload_size,
                missing_payload_num: v.missing_payload_num,
                invalid_payload_size: v.invalid_payload_size,
                invalid_payload_num: v.invalid_payload_num,
                ..u
            })
        },
{
}

/// A direct message waits to be read, from the time on at which it came; a
/// device that is announced is to be applied at the place of its event. Neither
/// does anything else.
pub proof fn law_direct_messages(
    me: Database,
    db: DbState,
    e: VerifiedEvent,
    bytes: Seq<u8>,
    payload: Payload,
    now: Timestamp,
)
    requires
        awaited(db, e),
        fits(e, payload),
        e.event.kind is DirectMessage || e.event.kind is DmDevice,
    ensures
        content_processed(me, db, e, bytes, payload, now) matches Ok(((_, actions), after)) ==> {
            &&& actions.len() == 1
            &&& actions[0] == (if e.event.kind is DirectMessage {
                Action::DmPending
            } else {
                Action::ApplyDmDevice {
                    author: e.event.author,
                    order: EventOrder { timestamp: e.event.timestamp, event_id: e.id() },
                }
            })
            &&& after.events_dm_pending == (if e.event.kind is DirectMessage {
                db.events_dm_pending.insert(e.id(), None)
            } else {
                db.events_dm_pending
            })
            &&& only_books(DbState { events_dm_pending: after.events_dm_pending, ..db }, after)
        },
{
}

/// An endpoint is kept under the user who announced it, with the latest time at
/// which they did, and with what is known of how it answered; a new one has
/// nothing known of it. No other endpoint is touched, and those of the user are
/// to be trimmed.
pub proof fn law_endpoint_announced(
    me: Database,
    db: DbState,
    e: VerifiedEvent,
    bytes: Seq<u8>,
    addr: IrohNodeId,
    now: Timestamp,
)
    requires
        awaited(db, e),
        e.event.kind is NodeAnnouncement,
    ensures
        content_processed(me, db, e, bytes, Payload::NodeAnnouncement(addr), now) matches Ok(
            ((_, actions), after),
        ) ==> {
            let key = (e.event.author, addr);
            let row = after.ids_nodes[key];
            &&& actions.len() == 1
            &&& actions[0] == (Action::TrimNodes { author: e.event.author })
            &&& after.ids_nodes == db.ids_nodes.insert(key, row)
            &&& e.event.timestamp.secs <= row.announcement_ts.secs
            &&& db.ids_nodes.contains_key(key) ==> {
                let old_row = db.ids_nodes[key];
                &&& old_row.announcement_ts.secs <= row.announcement_ts.secs
                &&& row.announcement_ts == e.event.timestamp || row.announcement_ts
                    == old_row.announcement_ts
                &&& row.stats == old_row.stats
            }
            &&& !db.ids_nodes.contains_key(key) ==> {
                &&& row.announcement_ts == e.event.timestamp
                &&& row.stats.last_success is None
                &&& row.stats.last_failure is None
                &&& row.stats.success_count == 0
                &&& row.stats.fail_count == 0
            }
            &&& only_books(
                DbState {
                    ids_nodes: after.ids_nodes,
                    events_singletons_new: after.events_singletons_new,
                    ..db
                },
                after,
            )
        },
{
}

/// A profile takes the place of the one that is kept of its user just where its
/// event is later; it is kept as it was written, with the event it came from.
/// No other profile is touched.
pub proof fn law_profile_updated(
    me: Database,
    db: DbState,
    e: VerifiedEvent,
    bytes: Seq<u8>,
    update: SocialProfileUpdate,
    now: Timestamp,
)
    requires
        awaited(db, e),
        e.event.kind is SocialProfileUpdate,
    ensures
        content_processed(
            me,
            db,
            e,
            bytes,
            Payload::SocialProfileUpdate(update),
            now,
        ) matches Ok(((_, actions), after)) ==> {
            let user = e.event.author;
            let order = EventOrder { timestamp: e.event.timestamp, event_id: e.id() };
            let later = db.social_profiles.contains_key(user) ==> (EventOrder {
                timestamp: db.social_profiles[user].0,
                event_id: db.social_profiles[user].1.event_id,
            }).lt(order);
            let (ts, profile) = after.social_profiles[user];
            &&& actions.len() == 0
            &&& !later ==> after.social_profiles == db.social_profiles
            &&& later ==> {
                &&& after.social_profiles == db.social_profiles.insert(user, (ts, profile))
                &&& ts == e.event.timestamp
                &&& profile.event_id == e.id()
                &&& profile.display_name == update.display_name@
                &&& profile.bio == update.bio@
                &&& profile.avatar is Some <==> update.avatar is Some
                &&& update.avatar matches Some((media, picture)) ==> profile.avatar == Some(
                    (media@, picture@),
                )
            }
            &&& only_books(
                DbState {
                    social_profiles: after.social_profiles,
                    events_singletons_new: after.events_singletons_new,
                    ..db
                },
                after,
            )
        },
{
}

/// A vote counts just where it is on a post, and is a singleton under the key
/// that a vote on that post has. It is then to be counted for its author with
/// the vote of theirs that was held under that key, and takes its place just
/// where its event is later: from then on it is the one that is held. A vote
/// that does not count does nothing.
pub proof fn law_vote_taken(
    me: Database,
    db: DbState,
    e: VerifiedEvent,
    bytes: Seq<u8>,
    vote: SocialVote,
    now: Timestamp,
)
    requires
        awaited(db, e),
        e.event.kind is SocialVote,
    ensures
        content_processed(me, db, e, bytes, Payload::SocialVote(vote), now) matches Ok(
            ((_, actions), after),
        ) ==> {
            let key = (e.event.author, e.event.kind, e.event.aux_key);
            let order = EventOrder { timestamp: e.event.timestamp, event_id: e.id() };
            let counts = vote.reply_to is Some && e.event.singleton && e.event.aux_key
                == vote.aux_key;
            let cast = SocialVoteProjection { target: vote.reply_to->0, value: vote.value };
            let row = db.events_singletons_new[key];
            let later = db.events_singletons_new.contains_key(key) ==> (EventOrder {
                timestamp: row.ts,
                event_id: row.inner.event_id,
            }).lt(order);
            let next = after.events_singletons_new[key];
            &&& !counts ==> actions.len() == 0 && after.events_singletons_new
                == db.events_singletons_new
            &&& counts ==> {
                &&& actions.len() == 1
                &&& actions[0] == (Action::CountVote {
                    vote: cast,
                    author: e.event.author,
                    order,
                    held: if db.events_singletons_new.contains_key(key) {
                        row.inner.social_vote
                    } else {
                        None
                    },
                    replaces: later,
                })
                &&& !later ==> after.events_singletons_new == db.events_singletons_new
                &&& later ==> {
                    &&& after.events_singletons_new == db.events_singletons_new.insert(key, next)
                    &&& next.ts == e.event.timestamp
                    &&& next.inner.event_id == e.id()
                    &&& next.inner.social_vote == Some(cast)
                }
            }
            &&& only_books(
                DbState { events_singletons_new: after.events_singletons_new, ..db },
                after,
            )
        },
{
}

/// A shoutbox post is listed by reception, now, or when it was written where
/// the local user follows its author and it is from before both the follow and
/// the database; everybody is told.
pub proof fn law_shout_listed(
    me: Database,
    db: DbState,
    e: VerifiedEvent,
    bytes: Seq<u8>,
    now: Timestamp,
)
    requires
        awaited(db, e),
        e.event.kind is Shoutbox,
    ensures
        content_processed(me, db, e, bytes, Payload::Shoutbox, now) matches Ok(
            ((_, actions), after),
        ) ==> {
            let followed = (me.self_id, e.event.author);
            let old_post = {
                &&& e.event.author != me.self_id
                &&& e.event.timestamp.secs < me.db_init_time.secs
                &&& db.ids_followees.contains_key(followed)
                &&& e.event.timestamp.secs < db.ids_followees[followed].first_ts.secs
            };
            let place = if db.reception_order_next.contains_key(()) {
                db.reception_order_next[()]
            } else {
                0u64
            };
            let row = (if old_post {
                e.event.timestamp
            } else {
                now
            }, place);
            &&& actions.len() == 1
            &&& actions[0] == (Action::NewShoutbox { event_id: e.id() })
            &&& !db.shoutbox_posts_by_received_at.contains_key(row)
            &&& after.shoutbox_posts_by_received_at == db.shoutbox_posts_by_received_at.insert(
                row,
                e.id(),
            )
            &&& after.reception_order_next.contains_key(())
            &&& after.reception_order_next[()] == place + 1
            &&& only_books(
                DbState {
                    shoutbox_posts_by_received_at: after.shoutbox_posts_by_received_at,
                    reception_order_next: after.reception_order_next,
                    events_singletons_new: after.events_singletons_new,
                    ..db
                },
                after,
            )
        },
{
}

/// A singleton holds the place of its author, kind and key from then on, where
/// it is later than what holds it; a post that is not to be seen and a vote
/// that does not count hold none, nor does an event that is no singleton. What
/// is of no known kind does nothing else.
pub proof fn law_singleton_placed(
    me: Database,
    db: DbState,
    e: VerifiedEvent,
    bytes: Seq<u8>,
    payload: Payload,
    now: Timestamp,
)
    requires
        awaited(db, e),
        fits(e, payload),
    ensures
        content_processed(me, db, e, bytes, payload, now) matches Ok(((_, actions), after)) ==> {
            let key = (e.event.author, e.event.kind, e.event.aux_key);
            let order = EventOrder { timestamp: e.event.timestamp, event_id: e.id() };
            let row = db.events_singletons_new[key];
            let later = db.events_singletons_new.contains_key(key) ==> (EventOrder {
                timestamp: row.ts,
                event_id: row.inner.event_id,
            }).lt(order);
            let holds = e.event.singleton && match payload {
                Payload::SocialPost { post, .. } => e.event.kind is SocialPost ==> to_be_seen(
                    e,
                    post,
                ),
                Payload::SocialVote(vote) => e.event.kind is SocialVote ==> vote.reply_to is Some
                    && e.event.aux_key == vote.aux_key,
                _ => true,
            };
            let next = after.events_singletons_new[key];
            &&& !(holds && later) ==> after.events_singletons_new == db.events_singletons_new
            &&& holds && later ==> {
                &&& after.events_singletons_new == db.events_singletons_new.insert(key, next)
                &&& next.ts == e.event.timestamp
                &&& next.inner.event_id == e.id()
                &&& !(e.event.kind is SocialVote) ==> next.inner.social_vote is None
            }
            &&& e.event.kind is Other ==> actions.len() == 0 && only_books(
                DbState { events_singletons_new: after.events_singletons_new, ..db },
                after,
            )
        },
{
}

/// A payload that was waited for is taken where its author's usage has it as
/// missing and has room for it elsewhere, and it is referred to; only a shoutbox
/// post needs a place in the order of arrivals too. What a post needs beyond
/// that is another law.
pub proof fn law_payload_accepted(
    me: Database,
    db: DbState,
    e: VerifiedEvent,
    bytes: Seq<u8>,
    payload: Payload,
    now: Timestamp,
)
    requires
        awaited(db, e),
        !(e.event.kind is SocialPost) || !fits(e, payload),
        db.ids_data_usage.contains_key(e.event.author),
        ({
            let u = db.ids_data_usage[e.event.author];
            &&& e.event.content_len <= u.missing_payload_size
            &&& 1 <= u.missing_payload_num
            &&& u.current_content_size + e.event.content_len <= u64::MAX
            &&& u.current_payload_num < u64::MAX
            &&& u.invalid_payload_size + e.event.content_len <= u64::MAX
            &&& u.invalid_payload_num < u64::MAX
        }),
        db.content_rc.contains_key(e.event.content_hash) && db.content_rc[e.event.content_hash] > 0,
        e.event.kind is Shoutbox ==> orders_used(db) && (db.reception_order_next.contains_key(())
            ==> db.reception_order_next[()] < u64::MAX),
    ensures
        content_processed(me, db, e, bytes, payload, now) is Ok,
{
}

}
