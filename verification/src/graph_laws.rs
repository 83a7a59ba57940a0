//! What the event graph keeps, whatever comes in whatever order.

use vstd::prelude::*;

use crate::content::{attributed, state_of};
use crate::error::DbError;
use crate::event::{EventContentState, VerifiedEvent};
use crate::ids::{RostraId, ShortEventId};
use crate::insert_event::{
    deleted_before, header_stored, inserted, own_parent, parent_linked, parents_linked, placed,
    InsertOutcomeModel, Inserting,
};
use crate::tables::DbState;

verus! {

/// The event names the other one as a parent.
pub open spec fn is_child(e: VerifiedEvent, parent: ShortEventId) -> bool {
    e.event.parent_aux == Some(parent) || e.event.parent_prev == Some(parent)
}

/// The event asks for the payload of the other one to be deleted.
pub open spec fn deletes(e: VerifiedEvent, parent: ShortEventId) -> bool {
    e.event.deletes_parent_aux && e.event.parent_aux == Some(parent)
}

/// An event of the author is stored under the identifier.
pub open spec fn has_own(db: DbState, author: RostraId, id: ShortEventId) -> bool {
    db.events.contains_key(id) && db.events[id].event.author == author
}

/// A stored event of the author names the other one as a parent.
pub open spec fn refers(db: DbState, author: RostraId, parent: ShortEventId) -> bool {
    exists|id: ShortEventId| #[trigger]
        has_own(db, author, id) && is_child(db.events[id], parent)
}

/// A stored event of the author asks for the payload of the other one to be
/// deleted.
pub open spec fn is_deleter(
    db: DbState,
    author: RostraId,
    parent: ShortEventId,
    id: ShortEventId,
) -> bool {
    has_own(db, author, id) && deletes(db.events[id], parent)
}

/// Of the stored events of the author that ask for the payload of the other
/// one to be deleted, this one is the last in event order.
pub open spec fn is_last_deleter(
    db: DbState,
    author: RostraId,
    parent: ShortEventId,
    id: ShortEventId,
) -> bool {
    &&& is_deleter(db, author, parent, id)
    &&& forall|other: ShortEventId| #[trigger]
        is_deleter(db, author, parent, other) ==> db.events[other].order().le(
            db.events[id].order(),
        )
}

/// A deletion is attributed to the last event that asked for it, or there is
/// none.
pub open spec fn rightly_attributed(
    db: DbState,
    author: RostraId,
    parent: ShortEventId,
    by: Option<ShortEventId>,
) -> bool {
    match by {
        Some(id) => is_last_deleter(db, author, parent, id),
        None => forall|id: ShortEventId| !#[trigger] is_deleter(db, author, parent, id),
    }
}

/// Events are stored under their identifiers; the heads of an author are the
/// stored events that no stored event of the author names as a parent; the
/// missing ones are those that one names and that are not stored.
pub open spec fn graph_sound(db: DbState) -> bool {
    &&& forall|id: ShortEventId| #[trigger] db.events.contains_key(id) ==> db.events[id].id() == id
    &&& forall|k: (RostraId, ShortEventId)| #[trigger]
        db.events_heads.contains_key(k) <==> has_own(db, k.0, k.1) && !refers(db, k.0, k.1)
    &&& forall|k: (RostraId, ShortEventId)| #[trigger]
        db.events_missing.contains_key(k) <==> !has_own(db, k.0, k.1) && refers(db, k.0, k.1)
}

/// To whom the deletion of an event's payload is attributed.
pub open spec fn deleted_by_of(db: DbState, id: ShortEventId) -> Option<ShortEventId> {
    match state_of(db.events_content_state, id) {
        Some(EventContentState::Deleted { deleted_by }) => Some(deleted_by),
        _ => None,
    }
}

/// Only stored events have a payload state.
pub open spec fn states_of_stored(db: DbState) -> bool {
    forall|id: ShortEventId| #[trigger]
        db.events_content_state.contains_key(id) ==> db.events.contains_key(id)
}

/// The payload of a stored event is deleted if and only if a stored event of
/// its author asked for it, and the deletion is attributed to the last one
/// that did; likewise for events that are missing. Only stored events have a
/// payload state.
pub open spec fn deletions_sound(db: DbState) -> bool {
    &&& states_of_stored(db)
    &&& forall|id: ShortEventId| #[trigger]
        db.events.contains_key(id) ==> rightly_attributed(
            db,
            db.events[id].event.author,
            id,
            deleted_by_of(db, id),
        )
    &&& forall|k: (RostraId, ShortEventId)| #[trigger]
        db.events_missing.contains_key(k) ==> rightly_attributed(
            db,
            k.0,
            k.1,
            db.events_missing[k].deleted_by,
        )
}

/// No event is its own parent; its identifier is computed from its parents.
pub open spec fn not_own_parent(e: VerifiedEvent) -> bool {
    !is_child(e, e.id())
}

/// What a further request makes of an attribution.
spec fn attribution_step(
    db: DbState,
    e: VerifiedEvent,
    parent: ShortEventId,
    before: Option<ShortEventId>,
    after: Option<ShortEventId>,
) -> bool {
    attributed(
        db.events,
        before,
        if deletes(e, parent) {
            Some(e.order())
        } else {
            None
        },
    ) == Ok::<_, DbError>(after)
}

/// Only the deletions of the one event changed, as a further request makes
/// them.
spec fn deletion_step(before: DbState, after: DbState, e: VerifiedEvent, parent: ShortEventId) -> bool {
    &&& attribution_step(
        before,
        e,
        parent,
        deleted_by_of(before, parent),
        deleted_by_of(after, parent),
    )
    &&& forall|id: ShortEventId|
        id != parent ==> #[trigger] deleted_by_of(after, id) == deleted_by_of(before, id)
}

proof fn lemma_parent_linked(
    s: Inserting,
    e: VerifiedEvent,
    parent: ShortEventId,
    is_aux: bool,
    track_usage: bool,
)
    requires
        parent_linked(s, e, parent, is_aux, track_usage) is Ok,
        is_aux ==> e.event.parent_aux == Some(parent),
        !is_aux ==> e.event.parent_aux != Some(parent),
    ensures
        ({
            let before = s.db;
            let after = (parent_linked(s, e, parent, is_aux, track_usage)->Ok_0).db;
            let key = (e.event.author, parent);
            &&& after.events == before.events
            &&& after.events_heads == before.events_heads.remove(key)
            &&& forall|id: ShortEventId| #[trigger]
                after.events_content_state.contains_key(id)
                    ==> before.events_content_state.contains_key(id) || own_parent(before, e, id)
            &&& if own_parent(before, e, parent) {
                &&& after.events_missing == before.events_missing
                &&& if deletes(e, parent) {
                    deletion_step(before, after, e, parent)
                } else {
                    after.events_content_state == before.events_content_state
                }
            } else {
                &&& after.events_content_state == before.events_content_state
                &&& after.events_missing == before.events_missing.insert(
                    key,
                    after.events_missing[key],
                )
                &&& attribution_step(
                    before,
                    e,
                    parent,
                    missing_deleted_by(before, key),
                    after.events_missing[key].deleted_by,
                )
            }
        }),
{
}

/// To whom the deletion of a missing event's payload is attributed.
spec fn missing_deleted_by(db: DbState, key: (RostraId, ShortEventId)) -> Option<ShortEventId> {
    if db.events_missing.contains_key(key) {
        db.events_missing[key].deleted_by
    } else {
        None
    }
}

proof fn lemma_header_stored(db: DbState, e: VerifiedEvent, is_deleted: bool, track_usage: bool)
    requires
        header_stored(db, e, is_deleted, track_usage) is Ok,
    ensures
        ({
            let after = header_stored(db, e, is_deleted, track_usage)->Ok_0;
            &&& after.events == db.events.insert(e.id(), e)
            &&& after.events_heads == db.events_heads
            &&& after.events_missing == db.events_missing
            &&& forall|id: ShortEventId| #[trigger]
                after.events_content_state.contains_key(id)
                    ==> db.events_content_state.contains_key(id) || id == e.id()
            &&& is_deleted ==> after.events_content_state == db.events_content_state
            &&& !is_deleted && deleted_by_of(db, e.id()) is None ==> deleted_by_of(after, e.id()) is None
            &&& forall|id: ShortEventId|
                id != e.id() ==> #[trigger] deleted_by_of(after, id) == deleted_by_of(db, id)
        }),
{
    reveal(header_stored);
}

/// The tables of the graph after an insertion.
proof fn lemma_inserted_tables(db: DbState, e: VerifiedEvent, track_usage: bool)
    requires
        not_own_parent(e),
        inserted(db, e, track_usage) matches Ok((InsertOutcomeModel::Inserted { .. }, _)),
    ensures
        ({
            let after = (inserted(db, e, track_usage)->Ok_0).1;
            let author = e.event.author;
            let key = (author, e.id());
            &&& !db.events.contains_key(e.id())
            &&& after.events == db.events.insert(e.id(), e)
            &&& forall|k: (RostraId, ShortEventId)| #[trigger]
                after.events_heads.contains_key(k) <==> ((k == key
                    && !db.events_missing.contains_key(key)) || db.events_heads.contains_key(k))
                    && !(k.0 == author && is_child(e, k.1))
            &&& forall|k: (RostraId, ShortEventId)| #[trigger]
                after.events_missing.contains_key(k) <==> (db.events_missing.contains_key(k) && k
                    != key) || (k.0 == author && is_child(e, k.1) && !own_parent(db, e, k.1))
            &&& forall|k: (RostraId, ShortEventId)|
                #[trigger] after.events_missing.contains_key(k) ==> if k.0 == author && is_child(
                    e,
                    k.1,
                ) && !own_parent(db, e, k.1) {
                    attribution_step(
                        db,
                        e,
                        k.1,
                        missing_deleted_by(db, k),
                        after.events_missing[k].deleted_by,
                    )
                } else {
                    after.events_missing[k] == db.events_missing[k]
                }
            &&& forall|id: ShortEventId| #[trigger]
                after.events_content_state.contains_key(id)
                    ==> db.events_content_state.contains_key(id) || after.events.contains_key(id)
            &&& deleted_before(db, e) ==> deleted_by_of(after, e.id())
                == db.events_missing[key].deleted_by
            &&& !deleted_before(db, e) && deleted_by_of(db, e.id()) is None ==> deleted_by_of(
                after,
                e.id(),
            ) is None
            &&& forall|id: ShortEventId|
                id != e.id() ==> if own_parent(db, e, id) && deletes(e, id) {
                    attribution_step(
                        db,
                        e,
                        id,
                        deleted_by_of(db, id),
                        #[trigger] deleted_by_of(after, id),
                    )
                } else {
                    deleted_by_of(after, id) == deleted_by_of(db, id)
                }
        }),
{
    let known = DbState { ids_full: db.ids_full.insert(e.event.author, ()), ..db };
    let start = Inserting {
        db: placed(known, e),
        deleted_parent: None,
        reverted: None,
        missing: Seq::empty(),
    };
    reveal(placed);
    reveal(parents_linked);
    let linked = parents_linked(start, e, track_usage)->Ok_0;
    match e.event.parent_aux {
        Some(parent) => {
            lemma_parent_linked(start, e, parent, true, track_usage);
            let s1 = parent_linked(start, e, parent, true, track_usage)->Ok_0;
            if let Some(prev) = e.event.parent_prev {
                if prev != parent {
                    lemma_parent_linked(s1, e, prev, false, track_usage);
                }
            }
        },
        None => {
            if let Some(prev) = e.event.parent_prev {
                lemma_parent_linked(start, e, prev, false, track_usage);
            }
        },
    }
    lemma_header_stored(linked.db, e, deleted_before(db, e), track_usage);
}

/// An insertion stores an event that was not stored, and no other.
pub proof fn lemma_inserted_events(db: DbState, e: VerifiedEvent, track_usage: bool)
    requires
        not_own_parent(e),
    ensures
        inserted(db, e, track_usage) matches Ok((_, after)) ==> after.events == (
        if db.events.contains_key(e.id()) {
            db.events
        } else {
            db.events.insert(e.id(), e)
        }),
{
    if let Ok((InsertOutcomeModel::Inserted { .. }, _)) = inserted(db, e, track_usage) {
        lemma_inserted_tables(db, e, track_usage);
    }
}

proof fn lemma_stored_after(db: DbState, after: DbState, e: VerifiedEvent)
    requires
        !db.events.contains_key(e.id()),
        after.events == db.events.insert(e.id(), e),
    ensures
        forall|a: RostraId, id: ShortEventId| #[trigger]
            has_own(after, a, id) <==> has_own(db, a, id) || (a == e.event.author && id == e.id()),
        forall|a: RostraId, p: ShortEventId| #[trigger]
            refers(after, a, p) <==> refers(db, a, p) || (a == e.event.author && is_child(e, p)),
        forall|a: RostraId, p: ShortEventId, id: ShortEventId| #[trigger]
            is_deleter(after, a, p, id) <==> is_deleter(db, a, p, id) || (a == e.event.author && id
                == e.id() && deletes(e, p)),
{
    assert forall|a: RostraId, p: ShortEventId| #[trigger]
        refers(after, a, p) <==> refers(db, a, p) || (a == e.event.author && is_child(e, p)) by {
        if refers(db, a, p) {
            let id = choose|id: ShortEventId| #[trigger]
                has_own(db, a, id) && is_child(db.events[id], p);
            assert(has_own(after, a, id) && is_child(after.events[id], p));
        }
        if a == e.event.author && is_child(e, p) {
            assert(has_own(after, a, e.id()) && is_child(after.events[e.id()], p));
        }
        if refers(after, a, p) {
            let id = choose|id: ShortEventId| #[trigger]
                has_own(after, a, id) && is_child(after.events[id], p);
            if id != e.id() {
                assert(has_own(db, a, id) && is_child(db.events[id], p));
            }
        }
    }
}

/// A right attribution stays right when another event comes, as it is updated
/// by it.
proof fn lemma_attribution_kept(
    db: DbState,
    after: DbState,
    e: VerifiedEvent,
    parent: ShortEventId,
    before_by: Option<ShortEventId>,
    after_by: Option<ShortEventId>,
)
    requires
        graph_sound(db),
        !db.events.contains_key(e.id()),
        after.events == db.events.insert(e.id(), e),
        rightly_attributed(db, e.event.author, parent, before_by),
        attribution_step(db, e, parent, before_by, after_by),
    ensures
        rightly_attributed(after, e.event.author, parent, after_by),
{
    lemma_stored_after(db, after, e);
    let a = e.event.author;
    if deletes(e, parent) {
        let by = after_by->0;
        assert(is_deleter(after, a, parent, e.id()));
        if let Some(d) = before_by {
            assert(is_deleter(db, a, parent, d));
            assert(db.events.contains_key(d));
            assert(is_deleter(after, a, parent, d));
        }
        assert forall|other: ShortEventId| #[trigger]
            is_deleter(after, a, parent, other) implies after.events[other].order().le(
            after.events[by].order(),
        ) by {
            if other != e.id() {
                assert(is_deleter(db, a, parent, other));
            }
        }
    } else {
        match before_by {
            Some(d) => {
                assert(is_deleter(db, a, parent, d));
                assert(is_deleter(after, a, parent, d));
                assert forall|other: ShortEventId| #[trigger]
                    is_deleter(after, a, parent, other) implies after.events[other].order().le(
                    after.events[d].order(),
                ) by {
                    assert(is_deleter(db, a, parent, other));
                }
            },
            None => {},
        }
    }
}

/// An attribution by other events than the one that comes is not touched.
proof fn lemma_attribution_untouched(
    db: DbState,
    after: DbState,
    e: VerifiedEvent,
    author: RostraId,
    parent: ShortEventId,
    by: Option<ShortEventId>,
)
    requires
        !db.events.contains_key(e.id()),
        after.events == db.events.insert(e.id(), e),
        rightly_attributed(db, author, parent, by),
        !(author == e.event.author && deletes(e, parent)),
    ensures
        rightly_attributed(after, author, parent, by),
{
    lemma_stored_after(db, after, e);
    if let Some(d) = by {
        assert(is_deleter(db, author, parent, d));
        assert(is_deleter(after, author, parent, d));
        assert forall|other: ShortEventId| #[trigger]
            is_deleter(after, author, parent, other) implies after.events[other].order().le(
            after.events[d].order(),
        ) by {
            assert(is_deleter(db, author, parent, other));
        }
    }
}

/// An insertion keeps the graph sound: whatever comes, in whatever order, the
/// heads and the missing events are what follows from the events stored.
pub proof fn law_insert_keeps_graph(db: DbState, e: VerifiedEvent, track_usage: bool)
    requires
        graph_sound(db),
        not_own_parent(e),
    ensures
        inserted(db, e, track_usage) matches Ok((_, after)) ==> graph_sound(after),
{
    if let Ok((outcome, after)) = inserted(db, e, track_usage) {
        match outcome {
            InsertOutcomeModel::AlreadyPresent => {
                lemma_same_events(db, after);
            },
            InsertOutcomeModel::Inserted { .. } => {
                lemma_inserted_tables(db, e, track_usage);
                lemma_stored_after(db, after, e);
            },
        }
    }
}

/// What follows from the events stored is the same where they are.
pub proof fn lemma_same_events(db: DbState, after: DbState)
    requires
        db.events == after.events,
    ensures
        forall|a: RostraId, id: ShortEventId| #[trigger]
            has_own(after, a, id) <==> has_own(db, a, id),
        forall|a: RostraId, p: ShortEventId| #[trigger] refers(after, a, p) <==> refers(db, a, p),
        forall|a: RostraId, p: ShortEventId, by: Option<ShortEventId>| #[trigger]
            rightly_attributed(after, a, p, by) <==> rightly_attributed(db, a, p, by),
{
    assert forall|a: RostraId, p: ShortEventId| #[trigger] refers(after, a, p) <==> refers(
        db,
        a,
        p,
    ) by {
        if refers(db, a, p) {
            let id = choose|id: ShortEventId| #[trigger]
                has_own(db, a, id) && is_child(db.events[id], p);
            assert(has_own(after, a, id));
        }
        if refers(after, a, p) {
            let id = choose|id: ShortEventId| #[trigger]
                has_own(after, a, id) && is_child(after.events[id], p);
            assert(has_own(db, a, id));
        }
    }
    assert forall|a: RostraId, p: ShortEventId, by: Option<ShortEventId>| #[trigger]
        rightly_attributed(after, a, p, by) <==> rightly_attributed(db, a, p, by) by {
        if rightly_attributed(db, a, p, by) {
            lemma_same_deleters(db, after, a, p, by);
        }
        if rightly_attributed(after, a, p, by) {
            lemma_same_deleters(after, db, a, p, by);
        }
    }
}

proof fn lemma_same_deleters(
    x: DbState,
    y: DbState,
    a: RostraId,
    p: ShortEventId,
    by: Option<ShortEventId>,
)
    requires
        x.events == y.events,
        rightly_attributed(x, a, p, by),
    ensures
        rightly_attributed(y, a, p, by),
{
    match by {
        Some(d) => {
            assert(is_deleter(y, a, p, d));
            assert forall|other: ShortEventId| #[trigger]
                is_deleter(y, a, p, other) implies y.events[other].order().le(
                y.events[d].order(),
            ) by {
                assert(is_deleter(x, a, p, other));
            }
        },
        None => {
            assert forall|id: ShortEventId| !#[trigger] is_deleter(y, a, p, id) by {
                assert(!is_deleter(x, a, p, id));
            }
        },
    }
}

/// An insertion keeps deletions sound: a payload is deleted if and only if a
/// stored event of its author asked for it, whether the request came before
/// the event or after it, and it is attributed to the last request in event
/// order, whichever came first.
pub proof fn law_insert_keeps_deletions(db: DbState, e: VerifiedEvent, track_usage: bool)
    requires
        graph_sound(db),
        deletions_sound(db),
        not_own_parent(e),
    ensures
        inserted(db, e, track_usage) matches Ok((_, after)) ==> deletions_sound(after),
{
    if let Ok((outcome, after)) = inserted(db, e, track_usage) {
        match outcome {
            InsertOutcomeModel::AlreadyPresent => {
                lemma_same_events(db, after);
            },
            InsertOutcomeModel::Inserted { .. } => {
                lemma_inserted_tables(db, e, track_usage);
                lemma_stored_after(db, after, e);
                let author = e.event.author;
                let key = (author, e.id());
                assert forall|id: ShortEventId| #[trigger]
                    after.events.contains_key(id) implies rightly_attributed(
                    after,
                    after.events[id].event.author,
                    id,
                    deleted_by_of(after, id),
                ) by {
                    if id == e.id() {
                        if db.events_missing.contains_key(key) {
                            lemma_attribution_untouched(
                                db,
                                after,
                                e,
                                author,
                                id,
                                db.events_missing[key].deleted_by,
                            );
                        } else {
                            assert(!has_own(db, author, id));
                            assert(!refers(db, author, id));
                            assert forall|d: ShortEventId| !#[trigger]
                                is_deleter(after, author, id, d) by {
                                if is_deleter(db, author, id, d) {
                                    assert(has_own(db, author, d) && is_child(db.events[d], id));
                                }
                            }
                        }
                    } else {
                        assert(db.events.contains_key(id));
                        let a = db.events[id].event.author;
                        if own_parent(db, e, id) && deletes(e, id) {
                            lemma_attribution_kept(
                                db,
                                after,
                                e,
                                id,
                                deleted_by_of(db, id),
                                deleted_by_of(after, id),
                            );
                        } else {
                            assert(deleted_by_of(after, id) == deleted_by_of(db, id));
                            lemma_attribution_untouched(
                                db,
                                after,
                                e,
                                a,
                                id,
                                deleted_by_of(db, id),
                            );
                        }
                    }
                }
                assert forall|k: (RostraId, ShortEventId)| #[trigger]
                    after.events_missing.contains_key(k) implies rightly_attributed(
                    after,
                    k.0,
                    k.1,
                    after.events_missing[k].deleted_by,
                ) by {
                    let a = k.0;
                    if k.0 == author && is_child(e, k.1) && !own_parent(db, e, k.1) {
                        if !db.events_missing.contains_key(k) {
                            assert(!has_own(db, a, k.1));
                            assert(!refers(db, a, k.1));
                            assert forall|d: ShortEventId| !#[trigger]
                                is_deleter(db, a, k.1, d) by {
                                if is_deleter(db, a, k.1, d) {
                                    assert(has_own(db, a, d) && is_child(db.events[d], k.1));
                                }
                            }
                        }
                        lemma_attribution_kept(
                            db,
                            after,
                            e,
                            k.1,
                            missing_deleted_by(db, k),
                            after.events_missing[k].deleted_by,
                        );
                    } else {
                        assert(db.events_missing.contains_key(k));
                        assert(!has_own(db, k.0, k.1));
                        lemma_attribution_untouched(
                            db,
                            after,
                            e,
                            a,
                            k.1,
                            db.events_missing[k].deleted_by,
                        );
                    }
                }
            },
        }
    }
}

/// The graph does not depend on the order in which events came: where the same
/// events are stored, the heads and the missing events are the same, the same
/// payloads are deleted, and by the same events.
pub proof fn law_graph_order_independent(x: DbState, y: DbState)
    requires
        graph_sound(x),
        graph_sound(y),
        deletions_sound(x),
        deletions_sound(y),
        x.events == y.events,
    ensures
        x.events_heads.dom() == y.events_heads.dom(),
        x.events_missing == y.events_missing,
        forall|id: ShortEventId| #[trigger]
            x.events.contains_key(id) ==> deleted_by_of(x, id) == deleted_by_of(y, id),
{
    lemma_same_events(x, y);
    assert forall|k: (RostraId, ShortEventId)| x.events_heads.dom().contains(k)
        <==> y.events_heads.dom().contains(k) by {
        assert(x.events_heads.contains_key(k) <==> y.events_heads.contains_key(k));
    }
    assert(x.events_heads.dom() =~= y.events_heads.dom());
    assert forall|k: (RostraId, ShortEventId)| x.events_missing.contains_key(k)
        == y.events_missing.contains_key(k) && (x.events_missing.contains_key(k)
        ==> x.events_missing[k] == y.events_missing[k]) by {
        assert(x.events_missing.contains_key(k) <==> y.events_missing.contains_key(k));
        if x.events_missing.contains_key(k) {
            lemma_attribution_unique(
                x,
                k.0,
                k.1,
                x.events_missing[k].deleted_by,
                y.events_missing[k].deleted_by,
            );
        }
    }
    assert(x.events_missing =~= y.events_missing);
    assert forall|id: ShortEventId| #[trigger] x.events.contains_key(id) implies deleted_by_of(
        x,
        id,
    ) == deleted_by_of(y, id) by {
        assert(y.events.contains_key(id));
        lemma_attribution_unique(
            x,
            x.events[id].event.author,
            id,
            deleted_by_of(x, id),
            deleted_by_of(y, id),
        );
    }
}

proof fn lemma_attribution_unique(
    db: DbState,
    author: RostraId,
    parent: ShortEventId,
    a: Option<ShortEventId>,
    b: Option<ShortEventId>,
)
    requires
        graph_sound(db),
        rightly_attributed(db, author, parent, a),
        rightly_attributed(db, author, parent, b),
    ensures
        a == b,
{
    match (a, b) {
        (Some(x), Some(y)) => {
            assert(is_deleter(db, author, parent, x));
            assert(is_deleter(db, author, parent, y));
            assert(db.events.contains_key(x) && db.events.contains_key(y));
        },
        (Some(x), None) => {
            assert(is_deleter(db, author, parent, x));
        },
        (None, Some(y)) => {
            assert(is_deleter(db, author, parent, y));
        },
        (None, None) => {},
    }
}

/// An empty database is sound.
pub proof fn law_empty_graph(db: DbState)
    requires
        db.events.is_empty(),
        db.events_heads.is_empty(),
        db.events_missing.is_empty(),
        db.events_content_state.is_empty(),
    ensures
        graph_sound(db),
        deletions_sound(db),
{
    assert forall|id: ShortEventId| !#[trigger] db.events_content_state.contains_key(id) by {
        assert(!db.events_content_state.dom().contains(id));
    }
    assert forall|k: (RostraId, ShortEventId)| !#[trigger] has_own(db, k.0, k.1) by {}
    assert forall|a: RostraId, p: ShortEventId| !#[trigger] refers(db, a, p) by {}
    assert forall|k: (RostraId, ShortEventId)| !#[trigger] db.events_heads.contains_key(k) by {
        assert(!db.events_heads.dom().contains(k));
    }
    assert forall|k: (RostraId, ShortEventId)| !#[trigger] db.events_missing.contains_key(k) by {
        assert(!db.events_missing.dom().contains(k));
    }
}

}
