//! Candidates from the selection to the check that is made before their
//! payload is given up.

use vstd::prelude::*;

use crate::content::{pruned, state_of};
use crate::database::Database;
use crate::error::DbError;
use crate::event::VerifiedEvent;
use crate::graph_laws::{
    deleted_by_of, deletes, deletions_sound, graph_sound, is_deleter, law_insert_keeps_deletions,
    lemma_inserted_events, not_own_parent, rightly_attributed,
};
use crate::ids::{RostraId, ShortEventId, Timestamp};
use crate::insert_event::inserted;
use crate::listing::{
    at_most, key_le, lemma_key_irreflexive, lemma_pair_lt, lemma_sorted, sorted, span,
};
use crate::payload::SocialPost;
use crate::quota_laws::law_quota_all_or_nothing;
use crate::quota_pruning::{pruned_and_indexed, quota_pruned, QuotaPruneRequest, RetentionClock};
use crate::retention::{IndexRecord, RetentionGeneration, RetentionKey};
use crate::retention_index::{
    candidate_current, candidates_selected, entry_of, index_record, index_refreshed, page_keys,
    RetentionCandidate, Scale,
};
use crate::retention_laws::{index_built, index_owned, is_promoted, law_selected_are_current};
use crate::tables::DbState;

verus! {

/// A complete index gave the candidate, by a trusted clock.
pub open spec fn was_selected(
    me: Database,
    db: DbState,
    scale: Scale,
    record: IndexRecord,
    author: Option<RostraId>,
    now: Timestamp,
    after: Option<RetentionKey>,
    limit: nat,
    candidate: RetentionCandidate,
) -> bool {
    &&& index_owned(db)
    &&& index_record(db) == Some(record)
    &&& index_built(me, db, scale, record)
    &&& db.content_retention_global.dom().finite()
    &&& db.content_retention_author.dom().finite()
    &&& candidates_selected(
        me,
        db,
        scale,
        record.generation,
        author,
        RetentionClock::Trusted(now),
        after,
        limit,
    ) matches Ok(page) && page.ready && page.candidates.contains(candidate)
}

/// A selected candidate is current for as long as nothing is written: by every
/// trusted clock from the time on at which it may be given up, and by no other
/// clock, for no other generation, and not with another author or key.
pub proof fn law_selection_is_current(
    me: Database,
    db: DbState,
    scale: Scale,
    record: IndexRecord,
    author: Option<RostraId>,
    now: Timestamp,
    after: Option<RetentionKey>,
    limit: nat,
    candidate: RetentionCandidate,
)
    requires
        was_selected(me, db, scale, record, author, now, after, limit, candidate),
    ensures
        record.generation.holder == me.self_id,
        candidate_current(
            me,
            db,
            scale,
            record.generation,
            candidate,
            RetentionClock::Trusted(now),
        ) == Ok::<_, DbError>(true),
        entry_of(me, db, scale, record.generation, candidate.event.to_short()) matches Ok(
            Some((entry, _)),
        ) && entry.eligible_at <= now.secs && forall|t: Timestamp| #[trigger]
            candidate_current(
                me,
                db,
                scale,
                record.generation,
                candidate,
                RetentionClock::Trusted(t),
            ) == Ok::<_, DbError>(entry.eligible_at <= t.secs),
        candidate_current(
            me,
            db,
            scale,
            record.generation,
            candidate,
            RetentionClock::Untrusted,
        ) == Ok::<_, DbError>(false),
        forall|other: RetentionGeneration, clock: RetentionClock|
            other != record.generation ==> #[trigger] candidate_current(
                me,
                db,
                scale,
                other,
                candidate,
                clock,
            ) == Ok::<_, DbError>(false),
        forall|other: RetentionCandidate, clock: RetentionClock|
            other.event == candidate.event && other != candidate ==> #[trigger] candidate_current(
                me,
                db,
                scale,
                record.generation,
                other,
                clock,
            ) == Ok::<_, DbError>(false),
{
    let keys = page_keys(db, author, after, limit);
    lemma_page_promoted(db, author, after, limit);
    law_selected_are_current(me, db, scale, record, author, now, keys);
    let page = candidates_selected(
        me,
        db,
        scale,
        record.generation,
        author,
        RetentionClock::Trusted(now),
        after,
        limit,
    )->Ok_0;
    let i = choose|i: int| 0 <= i < page.candidates.len() && page.candidates[i] == candidate;
    assert(candidate_current(
        me,
        db,
        scale,
        record.generation,
        page.candidates[i],
        RetentionClock::Trusted(now),
    ) == Ok::<_, DbError>(true));
}

/// The keys of a page are those of promoted rows.
proof fn lemma_page_promoted(
    db: DbState,
    author: Option<RostraId>,
    after: Option<RetentionKey>,
    n: nat,
)
    requires
        db.content_retention_global.dom().finite(),
        db.content_retention_author.dom().finite(),
    ensures
        forall|i: int|
            0 <= i < page_keys(db, author, after, n).len() ==> is_promoted(
                db,
                author,
                #[trigger] page_keys(db, author, after, n)[i],
            ),
{
    let keys = page_keys(db, author, after, n);
    let (lo, hi) = (RetentionKey::spec_zero(), RetentionKey::spec_max());
    match author {
        None => {
            let set = span(db.content_retention_global, after, lo, hi);
            vstd::set_lib::lemma_set_subset_finite(db.content_retention_global.dom(), set);
            lemma_sorted(set);
            assert forall|i: int| 0 <= i < keys.len() implies is_promoted(
                db,
                author,
                #[trigger] keys[i],
            ) by {
                assert(keys[i] == sorted(set)[i]);
                assert(sorted(set).contains(keys[i]));
            }
        },
        Some(a) => {
            let place = match after {
                Some(key) => Some((a, key)),
                None => None,
            };
            let set = span(db.content_retention_author, place, (a, lo), (a, hi));
            vstd::set_lib::lemma_set_subset_finite(db.content_retention_author.dom(), set);
            lemma_sorted(set);
            let rows = at_most(sorted(set), n);
            assert forall|i: int| 0 <= i < keys.len() implies is_promoted(
                db,
                author,
                #[trigger] keys[i],
            ) by {
                let k = sorted(set)[i];
                assert(rows[i] == k);
                assert(sorted(set).contains(k));
                assert(key_le((a, lo), k) && key_le(k, (a, hi)));
                lemma_pair_lt(k.0, k.1, a, lo);
                lemma_pair_lt(a, hi, k.0, k.1);
                crate::listing::lemma_key_total(a, k.0);
                lemma_key_irreflexive(a);
                assert(k == (a, keys[i]));
            }
        },
    }
}

/// A candidate is no longer current once the payload of its event is missing,
/// deleted, pruned or invalid.
pub proof fn law_lost_is_not_current(
    me: Database,
    db: DbState,
    scale: Scale,
    generation: RetentionGeneration,
    candidate: RetentionCandidate,
    clock: RetentionClock,
)
    requires
        generation.holder == me.self_id,
        state_of(db.events_content_state, candidate.event.to_short()) is Some,
    ensures
        candidate_current(me, db, scale, generation, candidate, clock) == Ok::<_, DbError>(false),
{
}

/// A selected candidate is not current any more, by any clock, once its
/// payload was given up for its size.
pub proof fn law_given_up_is_not_current(
    me: Database,
    db: DbState,
    scale: Scale,
    record: IndexRecord,
    author: Option<RostraId>,
    now: Timestamp,
    after: Option<RetentionKey>,
    limit: nat,
    candidate: RetentionCandidate,
    request: QuotaPruneRequest,
    post: Option<SocialPost>,
    clock: RetentionClock,
)
    requires
        was_selected(me, db, scale, record, author, now, after, limit, candidate),
        request.id == candidate.event.to_short(),
    ensures
        pruned_and_indexed(me, db, scale, request, true, post) matches Ok(((outcome, _), later))
            ==> (outcome is Pruned ==> candidate_current(
            me,
            later,
            scale,
            record.generation,
            candidate,
            clock,
        ) == Ok::<_, DbError>(false)),
{
    law_selection_is_current(me, db, scale, record, author, now, after, limit, candidate);
    law_quota_all_or_nothing(me, db, request, post);
    if let Ok(((outcome, _), later)) = pruned_and_indexed(me, db, scale, request, true, post) {
        if outcome is Pruned {
            let (_, left) = quota_pruned(me, db, request, true, post)->Ok_0;
            lemma_refresh_states(me, left, scale, request.id);
            law_lost_is_not_current(me, later, scale, record.generation, candidate, clock);
        }
    }
}

proof fn lemma_refresh_states(me: Database, db: DbState, scale: Scale, id: ShortEventId)
    ensures
        index_refreshed(me, db, scale, id) matches Ok(after) ==> after.events_content_state
            == db.events_content_state,
{
}

/// A selected candidate is not current any more, by any clock, once its
/// payload was pruned.
pub proof fn law_pruned_is_not_current(
    me: Database,
    db: DbState,
    scale: Scale,
    record: IndexRecord,
    author: Option<RostraId>,
    now: Timestamp,
    after: Option<RetentionKey>,
    limit: nat,
    candidate: RetentionCandidate,
    usage: Option<(RostraId, u32)>,
    clock: RetentionClock,
)
    requires
        was_selected(me, db, scale, record, author, now, after, limit, candidate),
    ensures
        ({
            let id = candidate.event.to_short();
            pruned(db, id, db.events[id].event.content_hash, usage) matches Ok((_, later))
                ==> candidate_current(me, later, scale, record.generation, candidate, clock)
                == Ok::<_, DbError>(false)
        }),
{
    law_selection_is_current(me, db, scale, record, author, now, after, limit, candidate);
    let id = candidate.event.to_short();
    if let Ok((_, later)) = pruned(db, id, db.events[id].event.content_hash, usage) {
        law_lost_is_not_current(me, later, scale, record.generation, candidate, clock);
    }
}

/// A selected candidate is not current any more, by any clock, once an event
/// came by which its author deletes it.
pub proof fn law_deleted_is_not_current(
    me: Database,
    db: DbState,
    scale: Scale,
    record: IndexRecord,
    author: Option<RostraId>,
    now: Timestamp,
    after: Option<RetentionKey>,
    limit: nat,
    candidate: RetentionCandidate,
    deleter: VerifiedEvent,
    track_usage: bool,
    clock: RetentionClock,
)
    requires
        was_selected(me, db, scale, record, author, now, after, limit, candidate),
        graph_sound(db),
        deletions_sound(db),
        not_own_parent(deleter),
        !db.events.contains_key(deleter.id()),
        deletes(deleter, candidate.event.to_short()),
        deleter.event.author == candidate.author,
    ensures
        inserted(db, deleter, track_usage) matches Ok((_, later)) ==> candidate_current(
            me,
            later,
            scale,
            record.generation,
            candidate,
            clock,
        ) == Ok::<_, DbError>(false),
{
    law_selection_is_current(me, db, scale, record, author, now, after, limit, candidate);
    let id = candidate.event.to_short();
    if let Ok((_, later)) = inserted(db, deleter, track_usage) {
        law_insert_keeps_deletions(db, deleter, track_usage);
        lemma_inserted_events(db, deleter, track_usage);
        assert(later.events.contains_key(id));
        assert(later.events[id].event.author == candidate.author);
        assert(is_deleter(later, candidate.author, id, deleter.id()));
        assert(rightly_attributed(later, candidate.author, id, deleted_by_of(later, id)));
        law_lost_is_not_current(me, later, scale, record.generation, candidate, clock);
    }
}

}
