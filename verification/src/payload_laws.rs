//! What the bookkeeping of payloads keeps: references, usage and the fetch
//! queue agree with the events that are stored and the states of their
//! payloads.

use vstd::prelude::*;

use crate::content::{
    counts_positive, decremented, holds_reference, incremented, pruned, references, state_of,
};
use crate::event::{EventContentState, VerifiedEvent};
use crate::graph_laws::{has_own, states_of_stored};
use crate::ids::{ContentHash, RostraId, ShortEventId, Timestamp};
use crate::insert_event::{
    deleted_before, header_stored, inserted, own_parent, parent_deleted, parent_linked,
    parents_linked, placed, stored, Inserting,
};
use crate::process_content::{content_kept, content_rejected};
use crate::tables::{DbState, IdsDataUsageRecord};
use crate::usage::{bucket_of, usage_of, Bucket, EVENT_METADATA_SIZE};

verus! {

/// The stored events that hold a reference to a payload.
pub open spec fn holders(db: DbState, hash: ContentHash) -> Set<ShortEventId> {
    Set::new(
        |id: ShortEventId|
            db.events.contains_key(id) && db.events[id].event.content_hash == hash
                && holds_reference(state_of(db.events_content_state, id)),
    )
}

/// The references to each payload are counted: as many as stored events hold
/// one, with no row where none does.
pub open spec fn references_exact(db: DbState) -> bool {
    &&& db.events.dom().finite()
    &&& counts_positive(db.content_rc)
    &&& forall|hash: ContentHash| #[trigger]
        references(db.content_rc, hash) == holders(db, hash).len()
}

/// The stored events of an author.
pub open spec fn own_events(db: DbState, author: RostraId) -> Set<ShortEventId> {
    Set::new(|id: ShortEventId| has_own(db, author, id))
}

/// The stored events of an author whose payloads are in a bucket.
pub open spec fn members(db: DbState, author: RostraId, b: Bucket) -> Set<ShortEventId> {
    Set::new(
        |id: ShortEventId|
            has_own(db, author, id) && bucket_of(state_of(db.events_content_state, id)) == b,
    )
}

/// The bytes of the payloads of some events together.
pub open spec fn lens(events: Map<ShortEventId, VerifiedEvent>, set: Set<ShortEventId>) -> nat
    decreases set.len(),
    when set.finite()
{
    if set.len() == 0 {
        0
    } else {
        let id = set.choose();
        events[id].event.content_len as nat + lens(events, set.remove(id))
    }
}

/// The usage of an author is what follows from the events stored.
pub open spec fn usage_of_author_exact(db: DbState, author: RostraId) -> bool {
    let u = usage_of(db.ids_data_usage, author);
    let own = own_events(db, author);
    &&& u.current_metadata_num == own.len()
    &&& u.total_metadata_num == own.len()
    &&& u.total_payload_num == own.len()
    &&& u.current_metadata_size == EVENT_METADATA_SIZE * own.len()
    &&& u.total_metadata_size == EVENT_METADATA_SIZE * own.len()
    &&& u.total_content_size == lens(db.events, own)
    &&& forall|b: Bucket|
        u.num_in(b) == #[trigger] members(db, author, b).len() && u.size_in(b) == lens(
            db.events,
            members(db, author, b),
        )
}

/// The usage of each author is what follows from the events stored.
pub open spec fn usage_exact(db: DbState) -> bool {
    &&& db.events.dom().finite()
    &&& forall|author: RostraId| #[trigger] usage_of_author_exact(db, author)
}

/// Each row of the fetch queue is that of a missing payload at the time of its
/// next attempt, and each missing payload that is not stored has one.
pub open spec fn queue_sound(db: DbState) -> bool {
    &&& forall|k: (Timestamp, ShortEventId)| #[trigger]
        db.events_content_missing.contains_key(k) ==> next_attempt(db, k.1) == Some(k.0)
    &&& forall|id: ShortEventId|
        db.events.contains_key(id) && (#[trigger] next_attempt(db, id)) is Some && stored(
            db,
            db.events[id].event.content_hash,
        ) is None ==> db.events_content_missing.contains_key((next_attempt(db, id)->0, id))
}

/// When a missing payload is to be fetched.
pub open spec fn next_attempt(db: DbState, id: ShortEventId) -> Option<Timestamp> {
    match state_of(db.events_content_state, id) {
        Some(EventContentState::Missing { next_fetch_attempt, .. }) => Some(next_fetch_attempt),
        _ => None,
    }
}

pub proof fn lemma_lens_remove(
    events: Map<ShortEventId, VerifiedEvent>,
    set: Set<ShortEventId>,
    id: ShortEventId,
)
    requires
        set.finite(),
        set.contains(id),
    ensures
        lens(events, set) == events[id].event.content_len as nat + lens(events, set.remove(id)),
    decreases set.len(),
{
    let c = set.choose();
    if c != id {
        lemma_lens_remove(events, set.remove(c), id);
        lemma_lens_remove(events, set.remove(id), c);
        assert(set.remove(c).remove(id) =~= set.remove(id).remove(c));
    }
}

proof fn lemma_lens_insert(
    events: Map<ShortEventId, VerifiedEvent>,
    set: Set<ShortEventId>,
    id: ShortEventId,
)
    requires
        set.finite(),
        !set.contains(id),
    ensures
        lens(events, set.insert(id)) == events[id].event.content_len as nat + lens(events, set),
{
    lemma_lens_remove(events, set.insert(id), id);
    assert(set.insert(id).remove(id) =~= set);
}

proof fn lemma_lens_same(
    x: Map<ShortEventId, VerifiedEvent>,
    y: Map<ShortEventId, VerifiedEvent>,
    set: Set<ShortEventId>,
)
    requires
        set.finite(),
        forall|id: ShortEventId| #[trigger] set.contains(id) ==> x[id] == y[id],
    ensures
        lens(x, set) == lens(y, set),
    decreases set.len(),
{
    if set.len() > 0 {
        let id = set.choose();
        assert(set.contains(id));
        lemma_lens_same(x, y, set.remove(id));
    }
}

pub proof fn lemma_sets_finite(db: DbState)
    requires
        db.events.dom().finite(),
    ensures
        forall|hash: ContentHash| #[trigger] holders(db, hash).finite(),
        forall|a: RostraId| #[trigger] own_events(db, a).finite(),
        forall|a: RostraId, b: Bucket| #[trigger] members(db, a, b).finite(),
{
    assert forall|hash: ContentHash| #[trigger] holders(db, hash).finite() by {
        vstd::set_lib::lemma_set_subset_finite(db.events.dom(), holders(db, hash));
    }
    assert forall|a: RostraId| #[trigger] own_events(db, a).finite() by {
        vstd::set_lib::lemma_set_subset_finite(db.events.dom(), own_events(db, a));
    }
    assert forall|a: RostraId, b: Bucket| #[trigger] members(db, a, b).finite() by {
        vstd::set_lib::lemma_set_subset_finite(db.events.dom(), members(db, a, b));
    }
}

/// The same events are stored, and only the payload of this one is in another
/// state.
spec fn state_changed(db: DbState, after: DbState, id: ShortEventId) -> bool {
    &&& after.events == db.events
    &&& db.events.contains_key(id)
    &&& forall|x: ShortEventId|
        x != id ==> #[trigger] state_of(after.events_content_state, x) == state_of(
            db.events_content_state,
            x,
        )
}

/// The event is stored besides those that were, and its payload is in a state.
spec fn event_added(db: DbState, after: DbState, e: VerifiedEvent) -> bool {
    &&& !db.events.contains_key(e.id())
    &&& after.events == db.events.insert(e.id(), e)
    &&& forall|x: ShortEventId|
        x != e.id() ==> #[trigger] state_of(after.events_content_state, x) == state_of(
            db.events_content_state,
            x,
        )
}

proof fn lemma_references_released(db: DbState, after: DbState, id: ShortEventId)
    requires
        references_exact(db),
        state_changed(db, after, id),
        holds_reference(state_of(db.events_content_state, id)),
        !holds_reference(state_of(after.events_content_state, id)),
        decremented(db.content_rc, db.events[id].event.content_hash) matches Ok((_, rc))
            && after.content_rc == rc,
    ensures
        references_exact(after),
{
    let hash = db.events[id].event.content_hash;
    lemma_sets_finite(db);
    crate::content::law_references(db.content_rc, hash);
    assert forall|h: ContentHash| #[trigger] references(after.content_rc, h) == holders(
        after,
        h,
    ).len() by {
        if h == hash {
            assert(holders(after, h) =~= holders(db, h).remove(id));
            assert(holders(db, h).contains(id));
            assert(references(db.content_rc, h) == holders(db, h).len());
        } else {
            assert(holders(after, h) =~= holders(db, h));
            assert(references(db.content_rc, h) == holders(db, h).len());
        }
    }
}

proof fn lemma_references_kept(db: DbState, after: DbState, id: ShortEventId)
    requires
        references_exact(db),
        state_changed(db, after, id),
        holds_reference(state_of(db.events_content_state, id)) == holds_reference(
            state_of(after.events_content_state, id),
        ),
        after.content_rc == db.content_rc,
    ensures
        references_exact(after),
{
    assert forall|h: ContentHash| #[trigger] references(after.content_rc, h) == holders(
        after,
        h,
    ).len() by {
        assert(holders(after, h) =~= holders(db, h));
        assert(references(db.content_rc, h) == holders(db, h).len());
    }
}

proof fn lemma_references_added(db: DbState, after: DbState, e: VerifiedEvent)
    requires
        references_exact(db),
        event_added(db, after, e),
        if holds_reference(state_of(after.events_content_state, e.id())) {
            incremented(db.content_rc, e.event.content_hash) matches Ok((_, rc))
                && after.content_rc == rc
        } else {
            after.content_rc == db.content_rc
        },
    ensures
        references_exact(after),
{
    let hash = e.event.content_hash;
    lemma_sets_finite(db);
    crate::content::law_references(db.content_rc, hash);
    assert(after.events.dom() =~= db.events.dom().insert(e.id()));
    assert forall|h: ContentHash| #[trigger] references(after.content_rc, h) == holders(
        after,
        h,
    ).len() by {
        assert(references(db.content_rc, h) == holders(db, h).len());
        if h == hash && holds_reference(state_of(after.events_content_state, e.id())) {
            assert(holders(after, h) =~= holders(db, h).insert(e.id()));
            assert(!holders(db, h).contains(e.id()));
        } else {
            assert(holders(after, h) =~= holders(db, h));
        }
    }
}

proof fn lemma_usage_moved(db: DbState, after: DbState, id: ShortEventId)
    requires
        usage_exact(db),
        state_changed(db, after, id),
        ({
            let e = db.events[id].event;
            let from = bucket_of(state_of(db.events_content_state, id));
            let to = bucket_of(state_of(after.events_content_state, id));
            let moved = usage_of(db.ids_data_usage, e.author).moved(from, to, e.content_len);
            &&& from != to
            &&& moved is Some
            &&& after.ids_data_usage == db.ids_data_usage.insert(e.author, moved->0)
        }),
    ensures
        usage_exact(after),
{
    let e = db.events[id].event;
    let from = bucket_of(state_of(db.events_content_state, id));
    let to = bucket_of(state_of(after.events_content_state, id));
    lemma_sets_finite(db);
    assert forall|a: RostraId| #[trigger] usage_of_author_exact(after, a) by {
        assert(usage_of_author_exact(db, a));
        assert(own_events(after, a) =~= own_events(db, a));
        assert forall|b: Bucket|
            usage_of(after.ids_data_usage, a).num_in(b) == #[trigger] members(after, a, b).len()
                && usage_of(after.ids_data_usage, a).size_in(b) == lens(
                after.events,
                members(after, a, b),
            ) by {
            let was = members(db, a, b);
            assert(usage_of(db.ids_data_usage, a).num_in(b) == was.len());
            if a == e.author && b == from {
                assert(members(after, a, b) =~= was.remove(id));
                assert(was.contains(id));
                lemma_lens_remove(db.events, was, id);
            } else if a == e.author && b == to {
                assert(members(after, a, b) =~= was.insert(id));
                assert(!was.contains(id));
                lemma_lens_insert(db.events, was, id);
            } else {
                assert(members(after, a, b) =~= was);
            }
        }
    }
}

proof fn lemma_author_same(db: DbState, after: DbState, a: RostraId)
    requires
        usage_of_author_exact(db, a),
        after.events == db.events,
        usage_of(after.ids_data_usage, a) == usage_of(db.ids_data_usage, a),
        own_events(after, a) == own_events(db, a),
        forall|b: Bucket| #[trigger] members(after, a, b) == members(db, a, b),
    ensures
        usage_of_author_exact(after, a),
{
    let u = usage_of(db.ids_data_usage, a);
    assert forall|b: Bucket|
        u.num_in(b) == #[trigger] members(after, a, b).len() && u.size_in(b) == lens(
            after.events,
            members(after, a, b),
        ) by {
        assert(u.num_in(b) == members(db, a, b).len());
    }
}

proof fn lemma_usage_kept(db: DbState, after: DbState, id: ShortEventId)
    requires
        usage_exact(db),
        state_changed(db, after, id),
        bucket_of(state_of(db.events_content_state, id)) == bucket_of(
            state_of(after.events_content_state, id),
        ),
        after.ids_data_usage == db.ids_data_usage,
    ensures
        usage_exact(after),
{
    lemma_sets_finite(db);
    assert forall|a: RostraId| #[trigger] usage_of_author_exact(after, a) by {
        assert(usage_of_author_exact(db, a));
        assert(own_events(after, a) =~= own_events(db, a));
        assert forall|b: Bucket| #[trigger] members(after, a, b) == members(db, a, b) by {
            assert(members(after, a, b) =~= members(db, a, b));
        }
        lemma_author_same(db, after, a);
    }
}

proof fn lemma_usage_added(db: DbState, after: DbState, e: VerifiedEvent)
    requires
        usage_exact(db),
        event_added(db, after, e),
        ({
            let b = bucket_of(state_of(after.events_content_state, e.id()));
            let with_event = usage_of(db.ids_data_usage, e.event.author).with_event();
            &&& with_event is Some
            &&& with_event->0.with_payload(b, e.event.content_len) is Some
            &&& after.ids_data_usage == db.ids_data_usage.insert(
                e.event.author,
                with_event->0.with_payload(b, e.event.content_len)->0,
            )
        }),
    ensures
        usage_exact(after),
{
    let id = e.id();
    let to = bucket_of(state_of(after.events_content_state, id));
    lemma_sets_finite(db);
    assert(after.events.dom() =~= db.events.dom().insert(id));
    assert forall|a: RostraId| #[trigger] usage_of_author_exact(after, a) by {
        assert(usage_of_author_exact(db, a));
        let own = own_events(db, a);
        lemma_lens_same(db.events, after.events, own);
        if a == e.event.author {
            assert(own_events(after, a) =~= own.insert(id));
            assert(!own.contains(id));
            lemma_lens_insert(after.events, own, id);
            assert(EVENT_METADATA_SIZE * own.len() + EVENT_METADATA_SIZE == EVENT_METADATA_SIZE * (
            own.len() + 1)) by (nonlinear_arith);
        } else {
            assert(own_events(after, a) =~= own);
        }
        assert forall|b: Bucket|
            usage_of(after.ids_data_usage, a).num_in(b) == #[trigger] members(after, a, b).len()
                && usage_of(after.ids_data_usage, a).size_in(b) == lens(
                after.events,
                members(after, a, b),
            ) by {
            let was = members(db, a, b);
            lemma_lens_same(db.events, after.events, was);
            assert(usage_of(db.ids_data_usage, a).num_in(b) == was.len());
            if a == e.event.author && b == to {
                assert(members(after, a, b) =~= was.insert(id));
                assert(!was.contains(id));
                lemma_lens_insert(after.events, was, id);
            } else {
                assert(members(after, a, b) =~= was);
            }
        }
    }
}

/// Bookkeeping agrees with what is stored.
pub open spec fn bookkeeping_exact(db: DbState) -> bool {
    books_exact(db, true)
}

/// References and the fetch queue agree with what is stored, and so does usage
/// where it is tracked.
pub open spec fn books_exact(db: DbState, track_usage: bool) -> bool {
    &&& references_exact(db)
    &&& track_usage ==> usage_exact(db)
    &&& queue_sound(db)
}

proof fn lemma_parent_deleted(db: DbState, e: VerifiedEvent, parent: ShortEventId, track_usage: bool)
    requires
        books_exact(db, track_usage),
        own_parent(db, e, parent),
    ensures
        parent_deleted(db, e, parent, track_usage) matches Ok(after) ==> {
            &&& books_exact(after, track_usage)
            &&& after.events == db.events
            &&& after.content_store == db.content_store
        },
{
    if let Ok(after) = parent_deleted(db, e, parent, track_usage) {
        let state = state_of(db.events_content_state, parent);
        assert(state_changed(db, after, parent));
        if holds_reference(state) {
            lemma_references_released(db, after, parent);
        } else {
            lemma_references_kept(db, after, parent);
        }
        if track_usage {
            if state matches Some(EventContentState::Deleted { .. }) {
                lemma_usage_kept(db, after, parent);
            } else {
                lemma_usage_moved(db, after, parent);
            }
        }
        lemma_queue_released(db, after, parent);
    }
}

proof fn lemma_queue_released(db: DbState, after: DbState, id: ShortEventId)
    requires
        queue_sound(db),
        state_changed(db, after, id),
        next_attempt(after, id) is None,
        after.events_content_missing == crate::content::unqueued(
            db.events_content_missing,
            id,
            state_of(db.events_content_state, id),
        ),
        forall|hash: ContentHash| #[trigger]
            stored(db, hash) is Some ==> stored(after, hash) is Some,
    ensures
        queue_sound(after),
{
    assert forall|x: ShortEventId| x != id implies #[trigger] next_attempt(after, x)
        == next_attempt(db, x) by {
        assert(state_of(after.events_content_state, x) == state_of(db.events_content_state, x));
    }
    assert forall|k: (Timestamp, ShortEventId)| #[trigger]
        after.events_content_missing.contains_key(k) implies next_attempt(after, k.1) == Some(
        k.0,
    ) by {
        assert(db.events_content_missing.contains_key(k));
        assert(next_attempt(db, k.1) == Some(k.0));
    }
    assert forall|x: ShortEventId|
        after.events.contains_key(x) && (#[trigger] next_attempt(after, x)) is Some && stored(
            after,
            after.events[x].event.content_hash,
        ) is None implies after.events_content_missing.contains_key(
        (next_attempt(after, x)->0, x),
    ) by {
        assert(stored(db, db.events[x].event.content_hash) is None);
        assert(next_attempt(db, x) is Some);
    }
}

proof fn lemma_untouched(db: DbState, after: DbState, track_usage: bool)
    requires
        books_exact(db, track_usage),
        after.events == db.events,
        after.content_rc == db.content_rc,
        after.ids_data_usage == db.ids_data_usage,
        after.events_content_missing == db.events_content_missing,
        after.content_store == db.content_store,
        forall|id: ShortEventId| #[trigger]
            db.events.contains_key(id) ==> state_of(after.events_content_state, id) == state_of(
                db.events_content_state,
                id,
            ),
        forall|k: (Timestamp, ShortEventId)| #[trigger]
            db.events_content_missing.contains_key(k) ==> db.events.contains_key(k.1),
    ensures
        books_exact(after, track_usage),
{
    assert forall|h: ContentHash| #[trigger] references(after.content_rc, h) == holders(
        after,
        h,
    ).len() by {
        assert(holders(after, h) =~= holders(db, h));
        assert(references(db.content_rc, h) == holders(db, h).len());
    }
    if track_usage {
        assert forall|a: RostraId| #[trigger] usage_of_author_exact(after, a) by {
            assert(usage_of_author_exact(db, a));
            assert(own_events(after, a) =~= own_events(db, a));
            assert forall|b: Bucket| #[trigger] members(after, a, b) == members(db, a, b) by {
                assert(members(after, a, b) =~= members(db, a, b));
            }
            lemma_author_same(db, after, a);
        }
    }
    assert forall|id: ShortEventId| #[trigger] db.events.contains_key(id) implies next_attempt(
        after,
        id,
    ) == next_attempt(db, id) by {}
    assert forall|k: (Timestamp, ShortEventId)| #[trigger]
        after.events_content_missing.contains_key(k) implies next_attempt(after, k.1) == Some(
        k.0,
    ) by {
        assert(db.events_content_missing.contains_key(k));
        assert(db.events.contains_key(k.1));
        assert(next_attempt(db, k.1) == Some(k.0));
    }
    assert forall|x: ShortEventId|
        after.events.contains_key(x) && (#[trigger] next_attempt(after, x)) is Some && stored(
            after,
            after.events[x].event.content_hash,
        ) is None implies after.events_content_missing.contains_key(
        (next_attempt(after, x)->0, x),
    ) by {
        assert(db.events.contains_key(x));
        assert(next_attempt(db, x) is Some);
    }
}

proof fn lemma_queue_added(db: DbState, after: DbState, e: VerifiedEvent)
    requires
        queue_sound(db),
        event_added(db, after, e),
        next_attempt(db, e.id()) is None,
        after.events_content_missing == (if next_attempt(after, e.id()) is Some && stored(
            db,
            e.event.content_hash,
        ) is None {
            db.events_content_missing.insert((next_attempt(after, e.id())->0, e.id()), ())
        } else {
            db.events_content_missing
        }),
        forall|hash: ContentHash| #[trigger]
            stored(db, hash) is Some ==> stored(after, hash) is Some,
    ensures
        queue_sound(after),
{
    assert forall|x: ShortEventId| x != e.id() implies #[trigger] next_attempt(after, x)
        == next_attempt(db, x) by {
        assert(state_of(after.events_content_state, x) == state_of(db.events_content_state, x));
    }
    assert forall|k: (Timestamp, ShortEventId)| #[trigger]
        after.events_content_missing.contains_key(k) implies next_attempt(after, k.1) == Some(
        k.0,
    ) by {
        if db.events_content_missing.contains_key(k) {
            assert(next_attempt(db, k.1) == Some(k.0));
        }
    }
    assert forall|x: ShortEventId|
        after.events.contains_key(x) && (#[trigger] next_attempt(after, x)) is Some && stored(
            after,
            after.events[x].event.content_hash,
        ) is None implies after.events_content_missing.contains_key(
        (next_attempt(after, x)->0, x),
    ) by {
        assert(stored(db, after.events[x].event.content_hash) is None);
        if x != e.id() {
            assert(db.events.contains_key(x));
            assert(next_attempt(db, x) is Some);
        }
    }
}

proof fn lemma_enter_and_move(u: IdsDataUsageRecord, len: u32)
    ensures
        u.with_payload(Bucket::Missing, len) matches Some(v) ==> (v.moved(
            Bucket::Missing,
            Bucket::Current,
            len,
        ) matches Some(w) ==> u.with_payload(Bucket::Current, len) == Some(w)),
{
}

/// Rows of the queue are those of stored events.
spec fn queue_of_stored(db: DbState) -> bool {
    forall|k: (Timestamp, ShortEventId)| #[trigger]
        db.events_content_missing.contains_key(k) ==> db.events.contains_key(k.1)
}

proof fn lemma_parent_linked_books(
    s: Inserting,
    e: VerifiedEvent,
    parent: ShortEventId,
    is_aux: bool,
    track_usage: bool,
)
    requires
        books_exact(s.db, track_usage),
        queue_of_stored(s.db),
        !s.db.events.contains_key(e.id()),
    ensures
        parent_linked(s, e, parent, is_aux, track_usage) matches Ok(s1) ==> {
            &&& books_exact(s1.db, track_usage)
            &&& queue_of_stored(s1.db)
            &&& s1.db.events == s.db.events
            &&& state_of(s1.db.events_content_state, e.id()) == state_of(
                s.db.events_content_state,
                e.id(),
            )
        },
{
    if let Ok(s1) = parent_linked(s, e, parent, is_aux, track_usage) {
        if own_parent(s.db, e, parent) && e.event.deletes_parent_aux && is_aux {
            lemma_parent_deleted(s.db, e, parent, track_usage);
            let deleted = parent_deleted(s.db, e, parent, track_usage)->Ok_0;
            assert(queue_of_stored(deleted)) by {
                assert forall|k: (Timestamp, ShortEventId)| #[trigger]
                    deleted.events_content_missing.contains_key(
                        k,
                    ) implies deleted.events.contains_key(k.1) by {
                    assert(s.db.events_content_missing.contains_key(k));
                }
            }
            lemma_untouched(deleted, s1.db, track_usage);
        } else {
            lemma_untouched(s.db, s1.db, track_usage);
        }
    }
}

proof fn lemma_header_books(db: DbState, e: VerifiedEvent, is_deleted: bool, track_usage: bool)
    requires
        books_exact(db, track_usage),
        !db.events.contains_key(e.id()),
        is_deleted ==> bucket_of(state_of(db.events_content_state, e.id())) is Deleted,
        !is_deleted ==> state_of(db.events_content_state, e.id()) is None,
    ensures
        header_stored(db, e, is_deleted, track_usage) matches Ok(after) ==> books_exact(after, track_usage),
{
    reveal(header_stored);
    if let Ok(after) = header_stored(db, e, is_deleted, track_usage) {
        let author = e.event.author;
        assert(event_added(db, after, e));
        if track_usage {
            let with_event = usage_of(db.ids_data_usage, author).with_event();
            let u1 = db.ids_data_usage.insert(author, with_event->0);
            assert(usage_of(u1, author) == with_event->0);
            if is_deleted {
                let u2 = u1.insert(
                    author,
                    with_event->0.with_payload(Bucket::Deleted, e.event.content_len)->0,
                );
                assert(u2 =~= db.ids_data_usage.insert(author, u2[author]));
            } else {
                let u2 = u1.insert(
                    author,
                    with_event->0.with_payload(Bucket::Missing, e.event.content_len)->0,
                );
                assert(u2 =~= db.ids_data_usage.insert(author, u2[author]));
                if e.event.content_len == 0 {
                    lemma_enter_and_move(with_event->0, e.event.content_len);
                    let u3 = u2.insert(
                        author,
                        u2[author].moved(Bucket::Missing, Bucket::Current, e.event.content_len)->0,
                    );
                    assert(u3 =~= db.ids_data_usage.insert(author, u3[author]));
                }
            }
            lemma_usage_added(db, after, e);
        }
        lemma_references_added(db, after, e);
        lemma_queue_added(db, after, e);
    }
}

/// An insertion keeps the bookkeeping exact, whether the event is new, was
/// missing, deletes the payload of a parent or starts out deleted. Where usage
/// is not tracked, references and the queue are still kept exact.
pub proof fn law_insert_keeps_books(db: DbState, e: VerifiedEvent, track_usage: bool)
    requires
        books_exact(db, track_usage),
        states_of_stored(db),
    ensures
        inserted(db, e, track_usage) matches Ok((_, after)) ==> books_exact(after, track_usage),
{
    assert(queue_of_stored(db)) by {
        assert forall|k: (Timestamp, ShortEventId)| #[trigger]
            db.events_content_missing.contains_key(k) implies db.events.contains_key(k.1) by {
            assert(next_attempt(db, k.1) is Some);
            assert(db.events_content_state.contains_key(k.1));
        }
    }
    if let Ok((outcome, after)) = inserted(db, e, track_usage) {
        let known = DbState { ids_full: db.ids_full.insert(e.event.author, ()), ..db };
        lemma_untouched(db, known, track_usage);
        if !db.events.contains_key(e.id()) {
            let start = Inserting {
                db: placed(known, e),
                deleted_parent: None,
                reverted: None,
                missing: Seq::empty(),
            };
            reveal(placed);
            reveal(parents_linked);
            assert(!db.events_content_state.contains_key(e.id()));
            lemma_untouched(known, start.db, track_usage);
            let linked = parents_linked(start, e, track_usage)->Ok_0;
            match e.event.parent_aux {
                Some(parent) => {
                    lemma_parent_linked_books(start, e, parent, true, track_usage);
                    let s1 = parent_linked(start, e, parent, true, track_usage)->Ok_0;
                    if let Some(prev) = e.event.parent_prev {
                        if prev != parent {
                            lemma_parent_linked_books(s1, e, prev, false, track_usage);
                        }
                    }
                },
                None => {
                    if let Some(prev) = e.event.parent_prev {
                        lemma_parent_linked_books(start, e, prev, false, track_usage);
                    }
                },
            }
            lemma_header_books(linked.db, e, deleted_before(db, e), track_usage);
        }
    }
}

/// Pruning keeps the bookkeeping exact.
pub proof fn law_prune_keeps_books(db: DbState, id: ShortEventId)
    requires
        bookkeeping_exact(db),
        db.events.contains_key(id),
    ensures
        ({
            let e = db.events[id].event;
            pruned(db, id, e.content_hash, Some((e.author, e.content_len))) matches Ok((_, after))
                ==> bookkeeping_exact(after)
        }),
{
    let e = db.events[id].event;
    if let Ok((done, after)) = pruned(db, id, e.content_hash, Some((e.author, e.content_len))) {
        let state = state_of(db.events_content_state, id);
        if holds_reference(state) {
            assert(state_changed(db, after, id));
            lemma_references_released(db, after, id);
            lemma_usage_moved(db, after, id);
            lemma_queue_released(db, after, id);
        }
    }
}

/// With exact bookkeeping nothing is refused for want of a reference: a stored
/// event that holds one can always be pruned, unless a counter of its author
/// is full.
pub proof fn law_prune_not_refused(db: DbState, id: ShortEventId)
    requires
        bookkeeping_exact(db),
        db.events.contains_key(id),
    ensures
        ({
            let e = db.events[id].event;
            pruned(db, id, e.content_hash, Some((e.author, e.content_len))) matches Err(err)
                ==> err is Overflow && usage_of(db.ids_data_usage, e.author).left(
                bucket_of(state_of(db.events_content_state, id)),
                e.content_len,
            )->0.entered(Bucket::Pruned, e.content_len) is None
        }),
{
    let e = db.events[id].event;
    let state = state_of(db.events_content_state, id);
    if holds_reference(state) {
        lemma_sets_finite(db);
        crate::content::law_references(db.content_rc, e.content_hash);
        assert(holders(db, e.content_hash).contains(id));
        assert(references(db.content_rc, e.content_hash) == holders(db, e.content_hash).len());
        vstd::set_lib::lemma_len_subset(set![id], holders(db, e.content_hash));
        let b = bucket_of(state);
        let m = members(db, e.author, b);
        assert(usage_of_author_exact(db, e.author));
        assert(m.contains(id));
        lemma_lens_remove(db.events, m, id);
        vstd::set_lib::lemma_len_subset(set![id], m);
        assert(usage_of(db.ids_data_usage, e.author).num_in(b) == m.len());
    }
}

/// Bookkeeping is exact wherever the tables that it speaks of are the same.
pub proof fn lemma_books_same(db: DbState, after: DbState)
    requires
        bookkeeping_exact(db),
        states_of_stored(db),
        after.events == db.events,
        after.content_rc == db.content_rc,
        after.ids_data_usage == db.ids_data_usage,
        after.events_content_missing == db.events_content_missing,
        after.content_store == db.content_store,
        after.events_content_state == db.events_content_state,
    ensures
        bookkeeping_exact(after),
{
    assert forall|k: (Timestamp, ShortEventId)| #[trigger]
        db.events_content_missing.contains_key(k) implies db.events.contains_key(k.1) by {
        assert(next_attempt(db, k.1) is Some);
        assert(db.events_content_state.contains_key(k.1));
    }
    lemma_untouched(db, after, true);
}

/// A processed payload keeps the bookkeeping exact.
pub proof fn lemma_content_kept(
    db: DbState,
    e: VerifiedEvent,
    state: EventContentState,
    bytes: Seq<u8>,
    now: Timestamp,
)
    requires
        bookkeeping_exact(db),
        db.events.contains_key(e.id()),
        db.events[e.id()] == e,
        state_of(db.events_content_state, e.id()) == Some(state),
        state is Missing,
    ensures
        content_kept(db, e, state, bytes, now) matches Ok(after) ==> bookkeeping_exact(after),
{
    if let Ok(after) = content_kept(db, e, state, bytes, now) {
        assert(state_changed(db, after, e.id()));
        lemma_references_kept(db, after, e.id());
        lemma_usage_moved(db, after, e.id());
        lemma_queue_released(db, after, e.id());
    }
}

/// A payload that turns out invalid keeps the bookkeeping exact.
pub proof fn lemma_content_rejected(db: DbState, e: VerifiedEvent, state: EventContentState)
    requires
        bookkeeping_exact(db),
        db.events.contains_key(e.id()),
        db.events[e.id()] == e,
        state_of(db.events_content_state, e.id()) == Some(state),
        state is Missing,
    ensures
        content_rejected(db, e, state) matches Ok(after) ==> bookkeeping_exact(after),
{
    if let Ok(after) = content_rejected(db, e, state) {
        assert(state_changed(db, after, e.id()));
        lemma_references_released(db, after, e.id());
        lemma_usage_moved(db, after, e.id());
        lemma_queue_released(db, after, e.id());
    }
}


/// Bookkeeping follows from the events stored and the states of their
/// payloads: where these are the same, references and usage are too, in
/// whatever order events and payloads came.
pub proof fn law_books_order_independent(x: DbState, y: DbState)
    requires
        bookkeeping_exact(x),
        bookkeeping_exact(y),
        x.events == y.events,
        x.events_content_state == y.events_content_state,
    ensures
        x.content_rc == y.content_rc,
        forall|author: RostraId| #[trigger]
            usage_of(x.ids_data_usage, author) == usage_of(y.ids_data_usage, author),
{
    assert forall|hash: ContentHash| #[trigger]
        references(x.content_rc, hash) == references(y.content_rc, hash) by {
        assert(holders(x, hash) =~= holders(y, hash));
    }
    assert forall|hash: ContentHash|
        x.content_rc.contains_key(hash) == y.content_rc.contains_key(hash) && (
        x.content_rc.contains_key(hash) ==> x.content_rc[hash] == y.content_rc[hash]) by {
        assert(references(x.content_rc, hash) == references(y.content_rc, hash));
    }
    assert(x.content_rc =~= y.content_rc);
    assert forall|author: RostraId| #[trigger]
        usage_of(x.ids_data_usage, author) == usage_of(y.ids_data_usage, author) by {
        let u = usage_of(x.ids_data_usage, author);
        let v = usage_of(y.ids_data_usage, author);
        assert(usage_of_author_exact(x, author) && usage_of_author_exact(y, author));
        assert(own_events(x, author) =~= own_events(y, author));
        assert forall|b: Bucket| u.num_in(b) == v.num_in(b) && u.size_in(b) == v.size_in(b) by {
            assert(members(x, author, b) =~= members(y, author, b));
            assert(members(x, author, b).len() == members(y, author, b).len());
        }
        assert(u.num_in(Bucket::Current) == v.num_in(Bucket::Current));
        assert(u.num_in(Bucket::Missing) == v.num_in(Bucket::Missing));
        assert(u.num_in(Bucket::Deleted) == v.num_in(Bucket::Deleted));
        assert(u.num_in(Bucket::Pruned) == v.num_in(Bucket::Pruned));
        assert(u.num_in(Bucket::Invalid) == v.num_in(Bucket::Invalid));
    }
}

}
