//! Deletions that come in any order.

use vstd::prelude::*;

use crate::content::{holds_reference, references, state_of};
use crate::event::{EventContentState, VerifiedEvent};
use crate::graph_laws::{
    deleted_by_of, deletes, deletions_sound, graph_sound, is_deleter, is_last_deleter,
    law_insert_keeps_deletions, law_insert_keeps_graph, lemma_inserted_events, not_own_parent,
    rightly_attributed,
};
use crate::ids::{ShortEventId, Timestamp};
use crate::insert_event::inserted;
use crate::payload_laws::{books_exact, holders, law_insert_keeps_books, next_attempt};
use crate::tables::DbState;

verus! {

/// What is left once events were inserted one after the other, where none of
/// them was refused.
pub open spec fn all_inserted(
    db: DbState,
    events: Seq<VerifiedEvent>,
    track_usage: bool,
) -> Option<DbState>
    decreases events.len(),
{
    if events.len() == 0 {
        Some(db)
    } else {
        match all_inserted(db, events.drop_last(), track_usage) {
            None => None,
            Some(before) => match inserted(before, events.last(), track_usage) {
                Ok((_, after)) => Some(after),
                Err(_) => None,
            },
        }
    }
}

/// Events that are new to a database: none is stored yet, no two share an
/// identifier, and none is its own parent.
pub open spec fn new_events(db: DbState, events: Seq<VerifiedEvent>) -> bool {
    &&& forall|i: int|
        0 <= i < events.len() ==> !db.events.contains_key((#[trigger] events[i]).id())
            && not_own_parent(events[i])
    &&& forall|i: int, j: int|
        0 <= i < j < events.len() ==> (#[trigger] events[i]).id() != (#[trigger] events[j]).id()
}

/// The event asks for the payload of the other one to be deleted, and has the
/// same author.
pub open spec fn deletes_payload_of(d: VerifiedEvent, t: VerifiedEvent) -> bool {
    deletes(d, t.id()) && d.event.author == t.event.author
}

/// Insertions keep the database sound and store the events.
proof fn lemma_all_inserted(db: DbState, events: Seq<VerifiedEvent>, track_usage: bool)
    requires
        graph_sound(db),
        deletions_sound(db),
        books_exact(db, track_usage),
        new_events(db, events),
    ensures
        all_inserted(db, events, track_usage) matches Some(after) ==> {
            &&& graph_sound(after)
            &&& deletions_sound(after)
            &&& books_exact(after, track_usage)
            &&& forall|i: int|
                0 <= i < events.len() ==> after.events.contains_key((#[trigger] events[i]).id())
                    && after.events[events[i].id()] == events[i]
            &&& forall|id: ShortEventId| #[trigger]
                after.events.contains_key(id) ==> db.events.contains_key(id) && after.events[id]
                    == db.events[id] || exists|i: int|
                    0 <= i < events.len() && (#[trigger] events[i]).id() == id
        },
    decreases events.len(),
{
    if events.len() > 0 {
        let earlier = events.drop_last();
        let e = events.last();
        assert(new_events(db, earlier)) by {
            assert forall|i: int| 0 <= i < earlier.len() implies !db.events.contains_key(
                (#[trigger] earlier[i]).id(),
            ) && not_own_parent(earlier[i]) by {
                assert(earlier[i] == events[i]);
            }
            assert forall|i: int, j: int| 0 <= i < j < earlier.len() implies (
            #[trigger] earlier[i]).id() != (#[trigger] earlier[j]).id() by {
                assert(events[i].id() != events[j].id());
            }
        }
        lemma_all_inserted(db, earlier, track_usage);
        if let Some(after) = all_inserted(db, events, track_usage) {
            let before = all_inserted(db, earlier, track_usage)->0;
            assert(e == events[events.len() - 1]);
            assert(!before.events.contains_key(e.id())) by {
                if before.events.contains_key(e.id()) {
                    let i = choose|i: int|
                        0 <= i < earlier.len() && (#[trigger] earlier[i]).id() == e.id();
                    assert(events[i].id() != events[events.len() - 1].id());
                }
            }
            law_insert_keeps_graph(before, e, track_usage);
            law_insert_keeps_deletions(before, e, track_usage);
            law_insert_keeps_books(before, e, track_usage);
            lemma_inserted_events(before, e, track_usage);
            assert forall|i: int| 0 <= i < events.len() implies after.events.contains_key(
                (#[trigger] events[i]).id(),
            ) && after.events[events[i].id()] == events[i] by {
                if i < earlier.len() {
                    assert(earlier[i] == events[i]);
                    assert(before.events.contains_key(earlier[i].id()));
                }
            }
            assert forall|id: ShortEventId| #[trigger]
                after.events.contains_key(id) implies db.events.contains_key(id) && after.events[id]
                == db.events[id] || exists|i: int|
                0 <= i < events.len() && (#[trigger] events[i]).id() == id by {
                if id == e.id() {
                    assert(events[events.len() - 1].id() == id);
                } else {
                    assert(before.events.contains_key(id));
                    if !(db.events.contains_key(id) && after.events[id] == db.events[id]) {
                        let i = choose|i: int|
                            0 <= i < earlier.len() && (#[trigger] earlier[i]).id() == id;
                        assert(events[i].id() == id);
                    }
                }
            }
        }
    }
}

/// An event and the requests to delete its payload may come in any order, with
/// other events between them: once all of them are in, the payload is deleted
/// by the greatest of the requests in event order, the event holds no
/// reference to it, and it is not in the fetch queue. Nothing that comes
/// without such a request brings the payload back.
pub proof fn law_deleters_converge(
    db: DbState,
    events: Seq<VerifiedEvent>,
    track_usage: bool,
    t: int,
    d: int,
)
    requires
        graph_sound(db),
        deletions_sound(db),
        books_exact(db, track_usage),
        new_events(db, events),
        0 <= t < events.len(),
        0 <= d < events.len(),
        deletes_payload_of(events[d], events[t]),
        forall|i: int|
            0 <= i < events.len() && #[trigger] deletes_payload_of(events[i], events[t])
                ==> events[i].order().le(events[d].order()),
        forall|id: ShortEventId| #[trigger]
            db.events.contains_key(id) ==> !deletes_payload_of(db.events[id], events[t]),
    ensures
        all_inserted(db, events, track_usage) matches Some(after) ==> {
            let id = events[t].id();
            &&& state_of(after.events_content_state, id) == Some(
                EventContentState::Deleted { deleted_by: events[d].id() },
            )
            &&& forall|hash| !(#[trigger] holders(after, hash)).contains(id)
            &&& forall|hash| #[trigger]
                references(after.content_rc, hash) == holders(after, hash).len()
            &&& forall|at: Timestamp| !(#[trigger] after.events_content_missing.contains_key((at, id)))
        },
{
    lemma_all_inserted(db, events, track_usage);
    if let Some(after) = all_inserted(db, events, track_usage) {
        let target = events[t];
        let id = target.id();
        let author = target.event.author;
        let last = events[d].id();
        assert(after.events.contains_key(id) && after.events[id] == target);
        assert(after.events.contains_key(last) && after.events[last] == events[d]);
        assert(is_deleter(after, author, id, last));
        let by = deleted_by_of(after, id);
        assert(rightly_attributed(after, author, id, by));
        assert(by is Some);
        let found = by->0;
        assert(is_last_deleter(after, author, id, found));
        assert(after.events.contains_key(found));
        if db.events.contains_key(found) && after.events[found] == db.events[found] {
            assert(deletes_payload_of(db.events[found], target));
        }
        let i = choose|i: int| 0 <= i < events.len() && (#[trigger] events[i]).id() == found;
        assert(after.events[events[i].id()] == events[i]);
        assert(deletes_payload_of(events[i], events[t]));
        assert(after.events[found].id() == found);
        assert(found == last);
        assert(!holds_reference(state_of(after.events_content_state, id)));
        assert forall|at: Timestamp| !(#[trigger] after.events_content_missing.contains_key(
            (at, id),
        )) by {
            if after.events_content_missing.contains_key((at, id)) {
                assert(next_attempt(after, id) == Some(at));
            }
        }
    }
}

/// Events that come in one order or in another leave the same events, the same
/// graph and the same deletions.
pub proof fn law_insertions_commute(
    db: DbState,
    x: Seq<VerifiedEvent>,
    y: Seq<VerifiedEvent>,
    track_usage: bool,
)
    requires
        graph_sound(db),
        deletions_sound(db),
        books_exact(db, track_usage),
        new_events(db, x),
        new_events(db, y),
        forall|e: VerifiedEvent| x.contains(e) <==> #[trigger] y.contains(e),
    ensures
        match (all_inserted(db, x, track_usage), all_inserted(db, y, track_usage)) {
            (Some(a), Some(b)) => {
                &&& a.events == b.events
                &&& a.events_heads.dom() == b.events_heads.dom()
                &&& a.events_missing == b.events_missing
                &&& forall|id: ShortEventId| #[trigger]
                    a.events.contains_key(id) ==> deleted_by_of(a, id) == deleted_by_of(b, id)
            },
            _ => true,
        },
{
    lemma_all_inserted(db, x, track_usage);
    lemma_all_inserted(db, y, track_usage);
    if all_inserted(db, x, track_usage) is Some && all_inserted(db, y, track_usage) is Some {
        let a = all_inserted(db, x, track_usage)->0;
        let b = all_inserted(db, y, track_usage)->0;
        lemma_stays(db, x, track_usage);
        lemma_stays(db, y, track_usage);
        lemma_stored_of(db, x, y, a, b);
        lemma_stored_of(db, y, x, b, a);
        assert(a.events =~= b.events);
        crate::graph_laws::law_graph_order_independent(a, b);
    }
}

/// What was stored before the insertions still is.
proof fn lemma_stays(db: DbState, events: Seq<VerifiedEvent>, track_usage: bool)
    requires
        new_events(db, events),
    ensures
        all_inserted(db, events, track_usage) matches Some(after) ==> (forall|id: ShortEventId|
            #[trigger] db.events.contains_key(id) ==> after.events.contains_key(id)
                && after.events[id] == db.events[id]),
    decreases events.len(),
{
    if events.len() > 0 {
        let earlier = events.drop_last();
        assert forall|i: int| 0 <= i < earlier.len() implies !db.events.contains_key(
            (#[trigger] earlier[i]).id(),
        ) && not_own_parent(earlier[i]) by {
            assert(earlier[i] == events[i]);
        }
        assert forall|i: int, j: int| 0 <= i < j < earlier.len() implies (
        #[trigger] earlier[i]).id() != (#[trigger] earlier[j]).id() by {
            assert(events[i].id() != events[j].id());
        }
        lemma_stays(db, earlier, track_usage);
        if let Some(before) = all_inserted(db, earlier, track_usage) {
            assert(events.last() == events[events.len() - 1]);
            lemma_inserted_events(before, events.last(), track_usage);
        }
    }
}

proof fn lemma_stored_of(
    db: DbState,
    x: Seq<VerifiedEvent>,
    y: Seq<VerifiedEvent>,
    a: DbState,
    b: DbState,
)
    requires
        forall|e: VerifiedEvent| x.contains(e) ==> #[trigger] y.contains(e),
        forall|i: int|
            0 <= i < x.len() ==> a.events.contains_key((#[trigger] x[i]).id())
                && a.events[x[i].id()] == x[i],
        forall|i: int|
            0 <= i < y.len() ==> b.events.contains_key((#[trigger] y[i]).id())
                && b.events[y[i].id()] == y[i],
        forall|id: ShortEventId| #[trigger]
            a.events.contains_key(id) ==> db.events.contains_key(id) && a.events[id]
                == db.events[id] || exists|i: int|
                0 <= i < x.len() && (#[trigger] x[i]).id() == id,
        forall|id: ShortEventId| #[trigger]
            db.events.contains_key(id) ==> b.events.contains_key(id) && b.events[id]
                == db.events[id],
    ensures
        forall|id: ShortEventId| #[trigger]
            a.events.contains_key(id) ==> b.events.contains_key(id) && b.events[id] == a.events[id],
{
    assert forall|id: ShortEventId| #[trigger] a.events.contains_key(id) implies b.events.contains_key(
        id,
    ) && b.events[id] == a.events[id] by {
        if db.events.contains_key(id) && a.events[id] == db.events[id] {
        } else {
            let i = choose|i: int| 0 <= i < x.len() && (#[trigger] x[i]).id() == id;
            assert(x.contains(x[i]));
            assert(y.contains(x[i]));
            let j = choose|j: int| 0 <= j < y.len() && y[j] == x[i];
            assert(b.events[y[j].id()] == y[j]);
        }
    }
}

}
