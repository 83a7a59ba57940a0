//! Whose payloads are never given up for their size, and that each is given up
//! once.

use vstd::prelude::*;

use crate::content::state_of;
use crate::database::Database;
use crate::error::{DbError, Effect};
use crate::event::{EventContentState, VerifiedEvent};
use crate::ids::Timestamp;
use crate::payload::{Action, SocialPost};
use crate::post_laws::same_lists;
use crate::process_content::content_reverted;
use crate::quota_pruning::{
    on_target, pruned_and_indexed, quota_decided, quota_payload, quota_pruned, quota_pruned_with,
    QuotaPruneOutcome, QuotaPruneRequest, QuotaPruneTarget, RetentionClock,
};
use crate::process_event::read_as;
use crate::retention::QuotaPruneDecision;
use crate::retention_index::Scale;
use crate::retention_laws::{law_index_alone, only_index};
use crate::tables::DbState;

verus! {

/// The event is not one whose payload may be given up for its size: its
/// payload is the storing account's own, no post, or empty.
pub open spec fn protected(me: Database, db: DbState, request: QuotaPruneRequest) -> bool {
    let e = db.events[request.id].event;
    e.author == me.self_id || !(e.kind is SocialPost) || e.content_len == 0
}

/// A request changes nothing where the payload is protected or the clock is
/// not trusted.
pub proof fn law_quota_protects(
    me: Database,
    db: DbState,
    request: QuotaPruneRequest,
    post: Option<SocialPost>,
)
    requires
        protected(me, db, request) || request.clock is Untrusted,
    ensures
        ({
            let outcome = if db.events.contains_key(request.id) && on_target(
                request.target,
                state_of(db.events_content_state, request.id),
            ) {
                QuotaPruneOutcome::Ineligible
            } else {
                QuotaPruneOutcome::Unchanged
            };
            quota_pruned(me, db, request, true, post) == Ok::<_, DbError>(
                ((outcome, Seq::<Action>::empty()), db),
            )
        }),
{
}

/// A request that does not give the payload up changes nothing; one that does
/// marks it as pruned, and the decision stays on record.
pub proof fn law_quota_all_or_nothing(
    me: Database,
    db: DbState,
    request: QuotaPruneRequest,
    post: Option<SocialPost>,
)
    ensures
        quota_pruned(me, db, request, true, post) matches Ok(((outcome, _), after)) ==> match (
            outcome
        ) {
            QuotaPruneOutcome::Pruned { .. } => {
                &&& request.clock matches RetentionClock::Trusted(now)
                    && after.events_quota_pruned.contains_key(request.id)
                    && after.events_quota_pruned[request.id] == (QuotaPruneDecision {
                    reason: request.reason,
                    pruned_at: now,
                })
                &&& state_of(after.events_content_state, request.id) == Some(
                    EventContentState::Pruned,
                )
                &&& after.events == db.events
            },
            _ => after == db,
        },
{
    if let Ok(Ok(now)) = quota_decided(me, db, request, true) {
        let e = db.events[request.id];
        if let Ok((Some(_), without)) = content_reverted(db, e, post) {
            assert(without.events == db.events);
            assert(without.events_content_state == db.events_content_state);
        }
    }
}

/// A payload that was given up is not given up again: any later request on it
/// finds it changed.
pub proof fn law_quota_once(
    me: Database,
    db: DbState,
    request: QuotaPruneRequest,
    post: Option<SocialPost>,
    later: QuotaPruneRequest,
)
    requires
        later.id == request.id,
        quota_pruned(me, db, request, true, post) matches Ok(((outcome, _), _)) && outcome
            is Pruned,
    ensures
        ({
            let after = (quota_pruned(me, db, request, true, post)->Ok_0).1;
            quota_decided(me, after, later, true) == Ok::<_, DbError>(
                Err::<Timestamp, _>(QuotaPruneOutcome::Unchanged),
            )
        }),
{
    law_quota_all_or_nothing(me, db, request, post);
}

/// The payload may be given up: it is the non-empty payload of a stored post of
/// another user, in the state in which it was found, the clock is trusted, and
/// it is old enough by it. A processed one was first processed long enough ago
/// for its grace to be over; a missing one was never processed.
pub open spec fn may_be_given_up(me: Database, db: DbState, request: QuotaPruneRequest) -> bool {
    let id = request.id;
    let e = db.events[id].event;
    let origins = db.events_retention_origins[id];
    &&& db.events.contains_key(id)
    &&& e.author != me.self_id
    &&& e.kind is SocialPost
    &&& e.content_len > 0
    &&& db.events_retention_origins.contains_key(id)
    &&& request.clock matches RetentionClock::Trusted(now)
        && origins.effective_timestamp.secs <= now.secs && match request.target {
        QuotaPruneTarget::Processed => {
            &&& !db.events_content_state.contains_key(id)
            &&& origins.materialized_at matches Some(first) && first.secs
                + request.policy.grace_seconds <= now.secs
        },
        QuotaPruneTarget::Missing => {
            &&& db.events_content_state.contains_key(id)
            &&& db.events_content_state[id] is Missing
            &&& origins.materialized_at is None
        },
    }
}

/// A request is answered by what is stored: the payload is given up just where
/// it may be, with the bytes that it releases; it is told to have changed where
/// it is not stored in the state in which it was found, and to be none to give
/// up in all other cases. Before usage was counted, every request is refused.
pub proof fn law_quota_answered(
    me: Database,
    db: DbState,
    request: QuotaPruneRequest,
    ready: bool,
    post: Option<SocialPost>,
)
    ensures
        !ready ==> quota_pruned(me, db, request, ready, post) == Err::<
            ((QuotaPruneOutcome, Seq<Action>), DbState),
            _,
        >(DbError::PayloadAccountingNotReady),
        ready && !may_be_given_up(me, db, request) ==> quota_pruned(
            me,
            db,
            request,
            ready,
            post,
        ) is Ok,
        quota_pruned(me, db, request, ready, post) matches Ok(((outcome, _), _)) ==> {
            let id = request.id;
            let found = db.events.contains_key(id) && match request.target {
                QuotaPruneTarget::Processed => !db.events_content_state.contains_key(id),
                QuotaPruneTarget::Missing => db.events_content_state.contains_key(id)
                    && db.events_content_state[id] is Missing,
            };
            &&& outcome is Unchanged <==> !found
            &&& outcome is Pruned <==> may_be_given_up(me, db, request)
            &&& outcome matches QuotaPruneOutcome::Pruned { logical_released_bytes }
                ==> logical_released_bytes == (if request.target is Processed {
                db.events[id].event.content_len as int
            } else {
                0
            })
        },
{
}

/// A payload that is given up leaves no trace in the lists of posts, gives up
/// its reference, is fetched no more, and counts to its author's pruned usage
/// instead of what it counted to; its bytes may be collected, and everybody is
/// told once.
pub proof fn law_quota_taken_back(
    me: Database,
    db: DbState,
    request: QuotaPruneRequest,
    post: Option<SocialPost>,
)
    requires
        may_be_given_up(me, db, request),
    ensures
        quota_pruned(me, db, request, true, post) matches Ok(((_, actions), after)) ==> {
            let id = request.id;
            let e = db.events[id];
            let hash = e.event.content_hash;
            let u = db.ids_data_usage[e.event.author];
            let v = after.ids_data_usage[e.event.author];
            let n = actions.len();
            &&& request.target is Missing ==> same_lists(after, db) && n == 2
            &&& request.target is Processed ==> (post is Some && (content_reverted(
                db,
                e,
                post,
            ) matches Ok((Some(told), back)) && same_lists(after, back) && actions.take(n - 2)
                == told))
            &&& actions[n - 2] == (Action::NominatePayload { content_hash: hash })
            &&& actions[n - 1] == (Action::QuotaPruned { event_id: id })
            &&& after.events_content_state == db.events_content_state.insert(
                id,
                EventContentState::Pruned,
            )
            &&& after.content_rc == (if db.content_rc[hash] == 1 {
                db.content_rc.remove(hash)
            } else {
                db.content_rc.insert(hash, (db.content_rc[hash] - 1) as u64)
            })
            &&& after.content_store == db.content_store
            &&& after.ids_data_usage == db.ids_data_usage.insert(e.event.author, v)
            &&& v.pruned_payload_num == u.pruned_payload_num + 1
            &&& v.pruned_payload_size == u.pruned_payload_size + e.event.content_len
            &&& request.target is Processed ==> {
                &&& v.current_payload_num == u.current_payload_num - 1
                &&& v.current_content_size == u.current_content_size - e.event.content_len
                &&& v.missing_payload_num == u.missing_payload_num
                &&& v.missing_payload_size == u.missing_payload_size
                &&& after.events_content_missing == db.events_content_missing
            }
            &&& request.target is Missing ==> {
                &&& v.missing_payload_num == u.missing_payload_num - 1
                &&& v.missing_payload_size == u.missing_payload_size - e.event.content_len
                &&& v.current_payload_num == u.current_payload_num
                &&& v.current_content_size == u.current_content_size
                &&& after.events_content_missing == db.events_content_missing.remove(
                    (db.events_content_state[id]->next_fetch_attempt, id),
                )
            }
        },
{
    if let Ok(((_, actions), after)) = quota_pruned(me, db, request, true, post) {
        let e = db.events[request.id];
        if request.target is Processed {
            let (told, _) = content_reverted(db, e, post)->Ok_0;
            assert(actions.take(actions.len() - 2) =~= told->0);
        }
    }
}

/// The payload of a post that is given up is read to take it back: its stored
/// bytes, where it had been processed, and nothing otherwise. What comes of the
/// request is what comes of that reading.
pub proof fn law_quota_payload_read<F: Fn(&VerifiedEvent, &Vec<u8>) -> Option<SocialPost>>(
    me: Database,
    db: DbState,
    scale: Scale,
    request: QuotaPruneRequest,
    ready: bool,
    read_post: F,
    done: Effect<(QuotaPruneOutcome, Seq<Action>), DbState>,
)
    requires
        quota_pruned_with(me, db, scale, request, ready, read_post, done),
        quota_decided(me, db, request, ready) is Ok,
    ensures
        exists|post: Option<SocialPost>|
            {
                let e = db.events[request.id];
                let read = ready && may_be_given_up(me, db, request) && request.target is Processed;
                &&& done == #[trigger] pruned_and_indexed(me, db, scale, request, ready, post)
                &&& !read ==> post is None
                &&& read ==> exists|b: Vec<u8>|
                    b@ == db.content_store[e.event.content_hash] && #[trigger] call_ensures(
                        read_post,
                        (&e, &b),
                        post,
                    )
                &&& done matches Ok((told, after)) ==> (quota_pruned(
                    me,
                    db,
                    request,
                    ready,
                    post,
                ) matches Ok((said, mid)) && told == said && only_index(mid, after))
            },
{
    let e = db.events[request.id];
    let post = choose|post: Option<SocialPost>|
        {
            &&& read_as(read_post, e, quota_payload(me, db, request, ready), post)
            &&& done == #[trigger] pruned_and_indexed(me, db, scale, request, ready, post)
        };
    assert(done == pruned_and_indexed(me, db, scale, request, ready, post));
    law_quota_answered(me, db, request, ready, post);
    if let Some(bytes) = quota_payload(me, db, request, ready) {
        let b = choose|b: Vec<u8>|
            #![trigger b@]
            b@ == bytes && call_ensures(read_post, (&e, &b), post);
        assert(call_ensures(read_post, (&e, &b), post));
    }
    if let Ok((_, mid)) = quota_pruned(me, db, request, ready, post) {
        law_index_alone(me, mid, scale, request.id);
    }
}

}
