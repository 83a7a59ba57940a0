//! What the index of candidates keeps.

use vstd::prelude::*;

use crate::database::Database;
use crate::error::DbError;
use crate::ids::{EventId, RostraId, ShortEventId, Timestamp};
use crate::limits::PAYLOAD_MAINTENANCE_MAX;
use crate::listing::{
    ascending, at_most, behind, first_of, is_first_of, key_le, key_lt, lemma_key_asymmetric,
    lemma_key_irreflexive, lemma_key_total, lemma_pair_lt, lemma_sorted, lemma_u64_lt, sorted,
    span,
};
use crate::quota_pruning::RetentionClock;
use crate::retention::{
    IndexEntry, IndexRecord, IndexStage, RetentionGeneration, RetentionKey, RetentionPolicy,
};
use crate::retention_index::{
    candidate_current, candidates_of, candidates_selected, entry_added, entry_of, entry_removed,
    grace_promoted, index_configured, index_rebuilt, index_record, index_refreshed,
    lemma_retention_key_bounds, none_due, page_finite, page_keys, promoted_rows, rebuilt, row_event,
    row_promoted, waiting_entry, RetentionCandidate, Scale,
};
use crate::tables::DbState;
use crate::words::Words;

verus! {

/// The rows of the index that an event owns are there: a grace row while it
/// waits, both rows under its key once it is promoted; and the key is its own.
pub open spec fn entry_owned(db: DbState, id: ShortEventId) -> bool {
    let entry = db.content_retention_reverse[id];
    let own = (entry.author, entry.key);
    &&& entry.key.event.to_short() == id
    &&& if entry.promoted {
        &&& db.content_retention_global.contains_key(entry.key)
        &&& db.content_retention_global[entry.key] == id
        &&& db.content_retention_author.contains_key(own)
        &&& db.content_retention_author[own] == id
    } else {
        db.content_retention_grace.contains_key((entry.eligible_at, id))
    }
}

/// Every row of the index is owned by one event.
pub open spec fn index_owned(db: DbState) -> bool {
    &&& forall|id: ShortEventId| #[trigger]
        db.content_retention_reverse.contains_key(id) ==> entry_owned(db, id)
    &&& forall|k: RetentionKey| #[trigger]
        db.content_retention_global.contains_key(k) ==> {
            let id = db.content_retention_global[k];
            &&& db.content_retention_reverse.contains_key(id)
            &&& db.content_retention_reverse[id].promoted
            &&& db.content_retention_reverse[id].key == k
        }
    &&& forall|k: (RostraId, RetentionKey)| #[trigger]
        db.content_retention_author.contains_key(k) ==> {
            let id = db.content_retention_author[k];
            &&& db.content_retention_reverse.contains_key(id)
            &&& db.content_retention_reverse[id].promoted
            &&& db.content_retention_reverse[id].author == k.0
            &&& db.content_retention_reverse[id].key == k.1
        }
    &&& forall|k: (u64, ShortEventId)| #[trigger]
        db.content_retention_grace.contains_key(k) ==> {
            &&& db.content_retention_reverse.contains_key(k.1)
            &&& !db.content_retention_reverse[k.1].promoted
            &&& db.content_retention_reverse[k.1].eligible_at == k.0
        }
}

/// The index holds of an event what it is to hold of it.
pub open spec fn entry_fresh(
    me: Database,
    db: DbState,
    scale: Scale,
    generation: RetentionGeneration,
    id: ShortEventId,
) -> bool {
    match entry_of(me, db, scale, generation, id) {
        Ok(Some((entry, _))) => waiting_entry(db, id) == Some(entry),
        Ok(None) => waiting_entry(db, id) is None,
        Err(_) => false,
    }
}

/// As far as the index is built, it holds what it is to hold; of events
/// further on it holds that or nothing.
pub open spec fn index_built(me: Database, db: DbState, scale: Scale, record: IndexRecord) -> bool {
    match record.stage {
        IndexStage::Clearing => true,
        IndexStage::Events(cursor) => forall|id: ShortEventId|
            #![trigger entry_fresh(me, db, scale, record.generation, id)]
            entry_fresh(me, db, scale, record.generation, id) || (beyond(cursor, id)
                && !db.content_retention_reverse.contains_key(id)),
        IndexStage::Ready => forall|id: ShortEventId| #[trigger]
            entry_fresh(me, db, scale, record.generation, id),
    }
}

/// The event was not reached yet.
pub open spec fn beyond(cursor: Option<ShortEventId>, id: ShortEventId) -> bool {
    match cursor {
        Some(c) => key_lt(c, id),
        None => true,
    }
}

/// Every row of an empty index is owned.
pub proof fn law_empty_index(db: DbState)
    requires
        db.content_retention_author.is_empty(),
        db.content_retention_global.is_empty(),
        db.content_retention_grace.is_empty(),
        db.content_retention_reverse.is_empty(),
    ensures
        index_owned(db),
{
    assert forall|id: ShortEventId| !#[trigger] db.content_retention_reverse.contains_key(id) by {
        assert(!db.content_retention_reverse.dom().contains(id));
    }
    assert forall|k: RetentionKey| !#[trigger] db.content_retention_global.contains_key(k) by {
        assert(!db.content_retention_global.dom().contains(k));
    }
    assert forall|k: (RostraId, RetentionKey)| !#[trigger] db.content_retention_author.contains_key(k) by {
        assert(!db.content_retention_author.dom().contains(k));
    }
    assert forall|k: (u64, ShortEventId)| !#[trigger] db.content_retention_grace.contains_key(k) by {
        assert(!db.content_retention_grace.dom().contains(k));
    }
}

/// Where every row is owned, an event can always be taken out of the index,
/// and every row stays owned.
pub proof fn law_remove_keeps_owned(db: DbState, id: ShortEventId)
    requires
        index_owned(db),
    ensures
        entry_removed(db, id) is Ok,
        index_owned(entry_removed(db, id)->Ok_0),
        entry_removed(db, id)->Ok_0.content_retention_reverse == db.content_retention_reverse.remove(id),
{
    if db.content_retention_reverse.contains_key(id) {
        assert(entry_owned(db, id));
        let after = entry_removed(db, id)->Ok_0;
        assert forall|x: ShortEventId| #[trigger]
            after.content_retention_reverse.contains_key(x) implies entry_owned(after, x) by {
            assert(db.content_retention_reverse.contains_key(x));
            assert(entry_owned(db, x));
        }
        assert forall|k: RetentionKey| #[trigger] after.content_retention_global.contains_key(k) implies {
            let x = after.content_retention_global[k];
            &&& after.content_retention_reverse.contains_key(x)
            &&& after.content_retention_reverse[x].promoted
            &&& after.content_retention_reverse[x].key == k
        } by {
            assert(db.content_retention_global.contains_key(k));
        }
        assert forall|k: (RostraId, RetentionKey)| #[trigger]
            after.content_retention_author.contains_key(k) implies {
            let x = after.content_retention_author[k];
            &&& after.content_retention_reverse.contains_key(x)
            &&& after.content_retention_reverse[x].promoted
            &&& after.content_retention_reverse[x].author == k.0
            &&& after.content_retention_reverse[x].key == k.1
        } by {
            assert(db.content_retention_author.contains_key(k));
        }
    } else {
        assert(db.content_retention_reverse.remove(id) =~= db.content_retention_reverse);
    }
}

/// Bringing the index up to date with an event keeps every row owned, and the
/// index holds of the event what it is to hold; what it holds of others is not
/// touched. It is refused only where nothing can be said of the event.
pub proof fn law_refresh(me: Database, db: DbState, scale: Scale, id: ShortEventId)
    requires
        index_owned(db),
        index_record(db) matches Some(record) && !(record.stage is Clearing),
    ensures
        ({
            let generation = (index_record(db)->0).generation;
            match index_refreshed(me, db, scale, id) {
                Ok(after) => {
                    &&& index_owned(after)
                    &&& entry_fresh(me, after, scale, generation, id)
                    &&& index_record(after) == index_record(db)
                    &&& forall|x: ShortEventId|
                        x != id ==> #[trigger] waiting_entry(after, x) == waiting_entry(db, x)
                    &&& forall|x: ShortEventId| #[trigger]
                        entry_of(me, after, scale, generation, x) == entry_of(
                            me,
                            db,
                            scale,
                            generation,
                            x,
                        )
                },
                Err(e) => entry_of(me, db, scale, generation, id) == Err::<
                    Option<(IndexEntry, EventId)>,
                    _,
                >(e),
            }
        }),
{
    let generation = (index_record(db)->0).generation;
    law_remove_keeps_owned(db, id);
    let cleared = entry_removed(db, id)->Ok_0;
    if let Ok(Some((entry, event))) = entry_of(me, db, scale, generation, id) {
        if waiting_entry(db, id) != Some(entry) {
            let after = entry_added(cleared, id, entry);
            assert(entry.key.event.to_short() == id);
            assert forall|x: ShortEventId| #[trigger]
                after.content_retention_reverse.contains_key(x) implies entry_owned(after, x) by {
                if x != id {
                    assert(cleared.content_retention_reverse.contains_key(x));
                    assert(entry_owned(cleared, x));
                }
            }
            assert forall|k: RetentionKey| #[trigger]
                after.content_retention_global.contains_key(k) implies {
                let x = after.content_retention_global[k];
                &&& after.content_retention_reverse.contains_key(x)
                &&& after.content_retention_reverse[x].promoted
                &&& after.content_retention_reverse[x].key == k
            } by {
                assert(cleared.content_retention_global.contains_key(k));
            }
            assert forall|k: (RostraId, RetentionKey)| #[trigger]
                after.content_retention_author.contains_key(k) implies {
                let x = after.content_retention_author[k];
                &&& after.content_retention_reverse.contains_key(x)
                &&& after.content_retention_reverse[x].promoted
                &&& after.content_retention_reverse[x].author == k.0
                &&& after.content_retention_reverse[x].key == k.1
            } by {
                assert(cleared.content_retention_author.contains_key(k));
            }
            assert forall|k: (u64, ShortEventId)| #[trigger]
                after.content_retention_grace.contains_key(k) implies {
                &&& after.content_retention_reverse.contains_key(k.1)
                &&& !after.content_retention_reverse[k.1].promoted
                &&& after.content_retention_reverse[k.1].eligible_at == k.0
            } by {
                if k != (entry.eligible_at, id) {
                    assert(cleared.content_retention_grace.contains_key(k));
                }
            }
            assert(index_owned(after));
        }
    }
}

/// Bringing the index up to date with an event twice is the same as once.
pub proof fn law_refresh_idempotent(me: Database, db: DbState, scale: Scale, id: ShortEventId)
    requires
        index_owned(db),
    ensures
        index_refreshed(me, db, scale, id) matches Ok(after) ==> index_refreshed(
            me,
            after,
            scale,
            id,
        ) == Ok::<_, DbError>(after),
{
    if let Some(record) = index_record(db) {
        if !(record.stage is Clearing) {
            law_refresh(me, db, scale, id);
            if let Ok(after) = index_refreshed(me, db, scale, id) {
                let generation = record.generation;
                assert(entry_of(me, after, scale, generation, id) == entry_of(
                    me,
                    db,
                    scale,
                    generation,
                    id,
                ));
            }
        }
    }
}

/// Promoting a candidate keeps every row owned, and what the index holds of it
/// but for the promotion.
pub proof fn law_promotion_keeps_owned(db: DbState, deadline: u64, id: ShortEventId)
    requires
        index_owned(db),
        db.content_retention_grace.contains_key((deadline, id)),
    ensures
        row_promoted(db, deadline, id) matches Ok(after) && index_owned(after) && (forall|
            x: ShortEventId,
        | #[trigger] waiting_entry(after, x) == waiting_entry(db, x)),
{
    let after = row_promoted(db, deadline, id)->Ok_0;
    let entry = db.content_retention_reverse[id];
    assert(entry_owned(db, id));
    assert forall|x: ShortEventId| #[trigger]
        after.content_retention_reverse.contains_key(x) implies entry_owned(after, x) by {
        assert(db.content_retention_reverse.contains_key(x));
        assert(entry_owned(db, x));
    }
    assert forall|k: RetentionKey| #[trigger] after.content_retention_global.contains_key(k) implies {
        let x = after.content_retention_global[k];
        &&& after.content_retention_reverse.contains_key(x)
        &&& after.content_retention_reverse[x].promoted
        &&& after.content_retention_reverse[x].key == k
    } by {
        if k != entry.key {
            assert(db.content_retention_global.contains_key(k));
        }
    }
    assert forall|k: (RostraId, RetentionKey)| #[trigger]
        after.content_retention_author.contains_key(k) implies {
        let x = after.content_retention_author[k];
        &&& after.content_retention_reverse.contains_key(x)
        &&& after.content_retention_reverse[x].promoted
        &&& after.content_retention_reverse[x].author == k.0
        &&& after.content_retention_reverse[x].key == k.1
    } by {
        if k != (entry.author, entry.key) {
            assert(db.content_retention_author.contains_key(k));
        }
    }
    assert forall|k: (u64, ShortEventId)| #[trigger] after.content_retention_grace.contains_key(k) implies {
        &&& after.content_retention_reverse.contains_key(k.1)
        &&& !after.content_retention_reverse[k.1].promoted
        &&& after.content_retention_reverse[k.1].eligible_at == k.0
    } by {
        assert(db.content_retention_grace.contains_key(k));
    }
}

/// A promotion visits no more rows than it may and leaves every row owned; it
/// is never refused. Where it visited fewer, nothing that is due is left.
pub proof fn law_promotion_bounded(db: DbState, now: Timestamp, n: nat)
    requires
        index_owned(db),
        db.content_retention_grace.dom().finite(),
    ensures
        promoted_rows(db, now, n) matches Ok((after, visited)) && {
            &&& visited <= n
            &&& index_owned(after)
            &&& visited < n ==> none_due(after, now)
            &&& after.events == db.events
            &&& after.events_content_state == db.events_content_state
            &&& after.events_retention_origins == db.events_retention_origins
            &&& after.content_retention_state == db.content_retention_state
            &&& forall|x: ShortEventId| #[trigger] waiting_entry(after, x) == waiting_entry(db, x)
        },
    decreases n,
{
    if n > 0 {
        match first_of(db.content_retention_grace.dom()) {
            Some((deadline, id)) if deadline <= now.secs => {
                let k = (deadline, id);
                assert(is_first_of(db.content_retention_grace.dom(), k)) by {
                    assert(exists|x: (u64, ShortEventId)|
                        is_first_of(db.content_retention_grace.dom(), x));
                }
                assert(db.content_retention_grace.contains_key(k));
                law_promotion_keeps_owned(db, deadline, id);
                let after = row_promoted(db, deadline, id)->Ok_0;
                assert(after.content_retention_grace.dom() =~= db.content_retention_grace.dom().remove(k));
                law_promotion_bounded(after, now, (n - 1) as nat);
            },
            Some((deadline, id)) => {
                let f = (deadline, id);
                assert(is_first_of(db.content_retention_grace.dom(), f)) by {
                    assert(exists|x: (u64, ShortEventId)|
                        is_first_of(db.content_retention_grace.dom(), x));
                }
                assert forall|k: (u64, ShortEventId)| #[trigger]
                    db.content_retention_grace.contains_key(k) implies now.secs < k.0 by {
                    assert(db.content_retention_grace.dom().contains(k));
                    lemma_pair_lt(k.0, k.1, deadline, id);
                    lemma_u64_lt(k.0, deadline);
                }
            },
            None => {
                lemma_no_first(db.content_retention_grace.dom());
                assert forall|k: (u64, ShortEventId)| #[trigger]
                    db.content_retention_grace.contains_key(k) implies now.secs < k.0 by {
                    assert(db.content_retention_grace.dom().contains(k));
                }
            },
        }
    }
}

/// A finite set with no first key is empty.
pub proof fn lemma_no_first<K: Words>(set: Set<K>)
    requires
        set.finite(),
        first_of(set) is None,
    ensures
        forall|k: K| !#[trigger] set.contains(k),
{
    lemma_sorted(set);
    let s = sorted(set);
    if s.len() > 0 {
        assert(s.contains(s[0]));
        assert forall|k: K| #[trigger] set.contains(k) implies key_le(s[0], k) by {
            assert(s.contains(k));
            let p = choose|p: int| 0 <= p < s.len() && s[p] == k;
            lemma_key_irreflexive(s[0]);
            if p > 0 {
                assert(key_lt(s[0], s[p]));
                lemma_key_asymmetric(s[0], s[p]);
            }
        }
        assert(is_first_of(set, s[0]));
    }
    assert forall|k: K| !#[trigger] set.contains(k) by {
        if set.contains(k) {
            assert(s.contains(k));
        }
    }
}

/// Building the index on visits no more rows than it may, keeps every row
/// owned, and what is built stays built: once the index is ready, it holds of
/// every event what it is to hold.
pub proof fn law_rebuild_builds(
    me: Database,
    db: DbState,
    scale: Scale,
    record: IndexRecord,
    n: nat,
)
    requires
        index_owned(db),
        index_built(me, db, scale, record),
        db.events.dom().finite(),
        db.content_retention_reverse.dom().finite(),
        record.generation.holder == me.self_id,
        index_record(db) matches Some(r) && r.generation == record.generation && (r.stage
            is Clearing <==> record.stage is Clearing),
    ensures
        rebuilt(me, db, scale, record, n) matches Ok(((after_record, after), visited)) ==> {
            &&& visited <= n
            &&& index_owned(after)
            &&& index_built(me, after, scale, after_record)
            &&& after_record.generation == record.generation
        },
    decreases n, if record.stage is Clearing { 1nat } else { 0nat },
{
    if n > 0 {
        match record.stage {
            IndexStage::Clearing => match first_of(db.content_retention_reverse.dom()) {
                None => {
                    let next = IndexRecord { stage: IndexStage::Events(None), ..record };
                    let started = DbState {
                        content_retention_state: db.content_retention_state.insert((), next),
                        ..db
                    };
                    lemma_no_first(db.content_retention_reverse.dom());
                    assert forall|id: ShortEventId| !#[trigger]
                        started.content_retention_reverse.contains_key(id) by {
                        assert(!db.content_retention_reverse.dom().contains(id));
                    }
                    assert(index_owned(started));
                    law_rebuild_builds(me, started, scale, next, n);
                },
                Some(id) => {
                    law_remove_keeps_owned(db, id);
                    let after = entry_removed(db, id)->Ok_0;
                    assert(after.content_retention_reverse.dom() =~= db.content_retention_reverse.dom().remove(id));
                    law_rebuild_builds(me, after, scale, record, (n - 1) as nat);
                },
            },
            IndexStage::Events(cursor) => match first_of(behind(db.events, cursor)) {
                None => {
                    vstd::set_lib::lemma_set_subset_finite(
                        db.events.dom(),
                        behind(db.events, cursor),
                    );
                    lemma_no_first(behind(db.events, cursor));
                    assert forall|id: ShortEventId| #[trigger]
                        entry_fresh(me, db, scale, record.generation, id) by {
                        if !entry_fresh(me, db, scale, record.generation, id) {
                            assert(!behind(db.events, cursor).contains(id));
                        }
                    }
                },
                Some(id) => {
                    law_refresh(me, db, scale, id);
                    if let Ok(after) = index_refreshed(me, db, scale, id) {
                        let next = IndexRecord { stage: IndexStage::Events(Some(id)), ..record };
                        lemma_step_built(me, db, after, scale, record, cursor, id);
                        assert(after.events == db.events);
                        assert(after.content_retention_reverse.dom().finite()) by {
                            assert(after.content_retention_reverse.dom().subset_of(
                                db.content_retention_reverse.dom().insert(id),
                            )) by {
                                assert forall|x: ShortEventId| #[trigger]
                                    after.content_retention_reverse.dom().contains(
                                        x,
                                    ) implies db.content_retention_reverse.dom().insert(id).contains(x) by {
                                    assert(x != id ==> waiting_entry(after, x) == waiting_entry(
                                        db,
                                        x,
                                    ));
                                }
                            }
                            vstd::set_lib::lemma_set_subset_finite(
                                db.content_retention_reverse.dom().insert(id),
                                after.content_retention_reverse.dom(),
                            );
                        }
                        law_rebuild_builds(me, after, scale, next, (n - 1) as nat);
                    }
                },
            },
            IndexStage::Ready => {},
        }
    }
}


/// One more event is indexed.
proof fn lemma_step_built(
    me: Database,
    db: DbState,
    after: DbState,
    scale: Scale,
    record: IndexRecord,
    cursor: Option<ShortEventId>,
    id: ShortEventId,
)
    requires
        record.stage == IndexStage::Events(cursor),
        record.generation.holder == me.self_id,
        index_built(me, db, scale, record),
        is_first_of(behind(db.events, cursor), id),
        entry_fresh(me, after, scale, record.generation, id),
        forall|x: ShortEventId|
            x != id ==> #[trigger] waiting_entry(after, x) == waiting_entry(db, x),
        forall|x: ShortEventId| #[trigger]
            entry_of(me, after, scale, record.generation, x) == entry_of(
                me,
                db,
                scale,
                record.generation,
                x,
            ),
    ensures
        index_built(
            me,
            after,
            scale,
            IndexRecord { stage: IndexStage::Events(Some(id)), ..record },
        ),
{
    let generation = record.generation;
    assert forall|x: ShortEventId|
        #![trigger entry_fresh(me, after, scale, generation, x)]
        entry_fresh(me, after, scale, generation, x) || (beyond(Some(id), x)
            && !after.content_retention_reverse.contains_key(x)) by {
        if x != id {
            assert(waiting_entry(after, x) == waiting_entry(db, x));
            assert(entry_of(me, after, scale, generation, x) == entry_of(
                me,
                db,
                scale,
                generation,
                x,
            ));
            if !entry_fresh(me, db, scale, generation, x) {
                assert(db.events.contains_key(x));
                assert(behind(db.events, cursor).contains(x));
                lemma_key_total(id, x);
            }
        }
    }
}

/// Asking for the index keeps every row owned. A generation that is asked for
/// again goes on from where it was; another one starts anew.
pub proof fn law_configure_keeps_built(
    me: Database,
    db: DbState,
    scale: Scale,
    policy: RetentionPolicy,
)
    requires
        index_owned(db),
        index_record(db) matches Some(record) ==> index_built(me, db, scale, record),
    ensures
        ({
            let ((progress, changed), after) = index_configured(me, db, policy);
            &&& index_owned(after)
            &&& index_record(after) matches Some(record) && {
                &&& index_built(me, after, scale, record)
                &&& record.generation == (RetentionGeneration { policy, holder: me.self_id })
                &&& changed ==> !progress.ready
            }
            &&& !changed <==> index_record(after) == index_record(db)
            &&& index_configured(me, after, policy).0.1 == false
        }),
{
    let ((progress, changed), after) = index_configured(me, db, policy);
    let record = index_record(after)->0;
    assert(index_built(me, after, scale, record)) by {
        if !changed {
            lemma_built_same(me, db, after, scale, record);
        }
    }
}

/// What is built stays built where what the index holds and what it is to
/// hold stay the same.
proof fn lemma_built_same(
    me: Database,
    db: DbState,
    after: DbState,
    scale: Scale,
    record: IndexRecord,
)
    requires
        index_built(me, db, scale, record),
        after.events == db.events,
        after.events_content_state == db.events_content_state,
        after.events_retention_origins == db.events_retention_origins,
        forall|x: ShortEventId| #[trigger] waiting_entry(after, x) == waiting_entry(db, x),
    ensures
        index_built(me, after, scale, record),
{
    let generation = record.generation;
    assert forall|x: ShortEventId| #[trigger]
        entry_fresh(me, after, scale, generation, x) == entry_fresh(me, db, scale, generation, x)
            && after.content_retention_reverse.contains_key(x) == db.content_retention_reverse.contains_key(
            x,
        ) by {
        assert(waiting_entry(after, x) == waiting_entry(db, x));
    }
    match record.stage {
        IndexStage::Clearing => {},
        IndexStage::Events(cursor) => {
            assert forall|x: ShortEventId|
                #![trigger entry_fresh(me, after, scale, generation, x)]
                entry_fresh(me, after, scale, generation, x) || (beyond(cursor, x)
                    && !after.content_retention_reverse.contains_key(x)) by {
                assert(entry_fresh(me, db, scale, generation, x) || beyond(cursor, x));
            }
        },
        IndexStage::Ready => {
            assert forall|x: ShortEventId| #[trigger]
                entry_fresh(me, after, scale, generation, x) by {
                assert(entry_fresh(me, db, scale, generation, x));
            }
        },
    }
}

/// A selection gives at most as many candidates as it looked at rows, in
/// ascending order of keys, and each of them is an event that the index is to
/// hold under that key and whose time has come.
pub proof fn law_candidates_eligible(
    me: Database,
    db: DbState,
    scale: Scale,
    generation: RetentionGeneration,
    author: Option<RostraId>,
    now: Timestamp,
    keys: Seq<RetentionKey>,
)
    requires
        ascending(keys),
    ensures
        candidates_of(me, db, scale, generation, author, now, keys) matches Ok(found) ==> {
            &&& found.len() <= keys.len()
            &&& ascending(found.map_values(|c: RetentionCandidate| c.key))
            &&& forall|i: int|
                0 <= i < found.len() ==> keys.contains((#[trigger] found[i]).key) && candidate_due(
                    me,
                    db,
                    scale,
                    generation,
                    author,
                    now,
                    found[i],
                )
        },
    decreases keys.len(),
{
    if keys.len() > 0 {
        let before = keys.drop_last();
        law_candidates_eligible(me, db, scale, generation, author, now, before);
        if let Ok(found) = candidates_of(me, db, scale, generation, author, now, keys) {
            let earlier = candidates_of(me, db, scale, generation, author, now, before)->Ok_0;
            assert forall|i: int| 0 <= i < found.len() implies keys.contains(
                (#[trigger] found[i]).key,
            ) && candidate_due(me, db, scale, generation, author, now, found[i]) by {
                if i < earlier.len() {
                    assert(found[i] == earlier[i]);
                    assert(before.contains(earlier[i].key));
                    let j = choose|j: int| 0 <= j < before.len() && before[j] == earlier[i].key;
                    assert(keys[j] == earlier[i].key);
                } else {
                    assert(keys[keys.len() - 1] == found[i].key);
                }
            }
            let f = |c: RetentionCandidate| c.key;
            assert forall|i: int, j: int| 0 <= i < j < found.len() implies key_lt(
                #[trigger] found.map_values(f)[i],
                #[trigger] found.map_values(f)[j],
            ) by {
                if j < earlier.len() {
                    assert(earlier.map_values(f)[i] == found.map_values(f)[i]);
                    assert(earlier.map_values(f)[j] == found.map_values(f)[j]);
                } else {
                    assert(found[i] == earlier[i]);
                    assert(before.contains(earlier[i].key));
                    let k = choose|k: int| 0 <= k < before.len() && before[k] == earlier[i].key;
                    assert(keys[k] == earlier[i].key);
                    assert(key_lt(keys[k], keys[keys.len() - 1]));
                }
            }
        }
    }
}

/// The event is one that the index is to hold under the candidate's key, of
/// the author asked for, and its time has come.
pub open spec fn candidate_due(
    me: Database,
    db: DbState,
    scale: Scale,
    generation: RetentionGeneration,
    author: Option<RostraId>,
    now: Timestamp,
    candidate: RetentionCandidate,
) -> bool {
    &&& entry_of(me, db, scale, generation, row_event(db, author, candidate.key)) matches Ok(
        Some((entry, event)),
    ) && {
        &&& event == candidate.event
        &&& entry.author == candidate.author
        &&& entry.key == candidate.key
        &&& entry.eligible_at <= now.secs
    }
    &&& author is Some ==> author == Some(candidate.author)
}


/// A promotion leaves the index as complete as it was.
pub proof fn law_promotion_keeps_built(
    me: Database,
    db: DbState,
    scale: Scale,
    record: IndexRecord,
    now: Timestamp,
    n: nat,
)
    requires
        index_owned(db),
        index_built(me, db, scale, record),
        db.content_retention_grace.dom().finite(),
    ensures
        promoted_rows(db, now, n) matches Ok((after, _)) && index_built(me, after, scale, record),
{
    law_promotion_bounded(db, now, n);
    let (after, _) = promoted_rows(db, now, n)->Ok_0;
    lemma_built_same(me, db, after, scale, record);
}

/// The key is that of a promoted row, of an author or of all.
pub open spec fn is_promoted(db: DbState, author: Option<RostraId>, key: RetentionKey) -> bool {
    match author {
        None => db.content_retention_global.contains_key(key),
        Some(author) => db.content_retention_author.contains_key((author, key)),
    }
}

/// Where the index is complete, a selection among promoted rows is not
/// refused, and what it gives is current.
pub proof fn law_selected_are_current(
    me: Database,
    db: DbState,
    scale: Scale,
    record: IndexRecord,
    author: Option<RostraId>,
    now: Timestamp,
    keys: Seq<RetentionKey>,
)
    requires
        index_owned(db),
        index_record(db) == Some(record),
        record.stage is Ready,
        index_built(me, db, scale, record),
        forall|i: int| 0 <= i < keys.len() ==> is_promoted(db, author, #[trigger] keys[i]),
    ensures
        candidates_of(me, db, scale, record.generation, author, now, keys) matches Ok(found) && (
        forall|i: int|
            0 <= i < found.len() ==> candidate_current(
                me,
                db,
                scale,
                record.generation,
                #[trigger] found[i],
                RetentionClock::Trusted(now),
            ) == Ok::<_, DbError>(true)),
    decreases keys.len(),
{
    let generation = record.generation;
    if keys.len() > 0 {
        let before = keys.drop_last();
        law_selected_are_current(me, db, scale, record, author, now, before);
        let key = keys[keys.len() - 1];
        assert(is_promoted(db, author, key));
        let id = row_event(db, author, key);
        assert(db.content_retention_reverse.contains_key(id));
        assert(entry_owned(db, id));
        assert(entry_fresh(me, db, scale, generation, id));
        let earlier = candidates_of(me, db, scale, generation, author, now, before)->Ok_0;
        let found = candidates_of(me, db, scale, generation, author, now, keys)->Ok_0;
        assert forall|i: int| 0 <= i < found.len() implies candidate_current(
            me,
            db,
            scale,
            generation,
            #[trigger] found[i],
            RetentionClock::Trusted(now),
        ) == Ok::<_, DbError>(true) by {
            if i < earlier.len() {
                assert(found[i] == earlier[i]);
            } else {
                assert(found[i].event.to_short() == id);
            }
        }
    }
}


/// A call that builds the index keeps every row owned and leaves the index
/// built as far as it says; it says no more than it did. Once it says that the
/// index is ready, the index holds of every event what it is to hold.
pub proof fn law_rebuild_keeps_index(me: Database, db: DbState, scale: Scale, limit: nat)
    requires
        index_owned(db),
        index_record(db) matches Some(record) && record.generation.holder == me.self_id
            && index_built(me, db, scale, record),
        db.events.dom().finite(),
        db.content_retention_reverse.dom().finite(),
    ensures
        index_rebuilt(me, db, scale, limit) matches Ok((told, after)) ==> {
            &&& index_owned(after)
            &&& index_record(after) matches Some(next) && {
                &&& index_built(me, after, scale, next)
                &&& told matches Some(progress) && progress.visited <= limit && progress.ready == (
                next.stage is Ready) && progress.generation == next.generation
            }
        },
{
    let record = index_record(db)->0;
    law_rebuild_builds(me, db, scale, record, limit);
    if let Ok((_, after)) = index_rebuilt(me, db, scale, limit) {
        let ((next, built), visited) = rebuilt(me, db, scale, record, limit)->Ok_0;
        assert(index_owned(after));
        lemma_built_same(me, built, after, scale, next);
    }
}

/// A call that promotes candidates keeps every row owned and the index as
/// complete as it was, is refused only for its limit, and visits no more rows
/// than that.
pub proof fn law_promotion_keeps_index(
    me: Database,
    db: DbState,
    scale: Scale,
    clock: RetentionClock,
    limit: nat,
)
    requires
        index_owned(db),
        index_record(db) matches Some(record) ==> index_built(me, db, scale, record),
        db.content_retention_grace.dom().finite(),
        limit <= PAYLOAD_MAINTENANCE_MAX,
    ensures
        grace_promoted(db, clock, limit) matches Ok((told, after)) && {
            &&& index_owned(after)
            &&& index_record(after) == index_record(db)
            &&& index_record(db) matches Some(record) ==> index_built(me, after, scale, record)
            &&& told matches Some(progress) ==> progress.visited <= limit
        },
{
    if let Some(record) = index_record(db) {
        if let RetentionClock::Trusted(now) = clock {
            law_promotion_bounded(db, now, limit);
            law_promotion_keeps_built(me, db, scale, record, now, limit);
        }
    }
}

/// The index may hold a row of the event: it is a post of another user with a
/// payload that is processed and of some length, it is known how old it is and
/// when it was first processed, and its grace ends.
pub open spec fn may_be_indexed(
    me: Database,
    db: DbState,
    policy: RetentionPolicy,
    id: ShortEventId,
) -> bool {
    &&& db.events.contains_key(id)
    &&& db.events[id].event.kind is SocialPost
    &&& db.events[id].event.author != me.self_id
    &&& db.events[id].event.content_len > 0
    &&& !db.events_content_state.contains_key(id)
    &&& db.events_retention_origins.contains_key(id)
    &&& db.events_retention_origins[id].materialized_at matches Some(first) && first.secs
        + policy.grace_seconds <= u64::MAX
}

/// Once the index is ready it has a row of just the events that may have one,
/// and the row is made of the stored event and its age alone: its author, the
/// score that the computation gives for the policy, the full identifier, the
/// storing account, the length of the payload and the local age, the identifier
/// again to tell equal scores apart, and the time at which grace and age have
/// both passed.
pub proof fn law_rows_scored(
    me: Database,
    db: DbState,
    scale: Scale,
    record: IndexRecord,
    id: ShortEventId,
)
    requires
        index_built(me, db, scale, record),
        record.stage is Ready,
    ensures
        db.content_retention_reverse.contains_key(id) <==> may_be_indexed(
            me,
            db,
            record.generation.policy,
            id,
        ),
        db.content_retention_reverse.contains_key(id) ==> {
            let row = db.content_retention_reverse[id];
            let e = db.events[id];
            let origins = db.events_retention_origins[id];
            let score = scale(
                record.generation.policy,
                e.event_id,
                me.self_id,
                e.event.content_len,
                origins.effective_timestamp,
            );
            let over = origins.materialized_at->0.secs + record.generation.policy.grace_seconds;
            &&& row.author == e.event.author
            &&& row.key.score_hi == score.0
            &&& row.key.score_lo == score.1
            &&& row.key.event == e.event_id
            &&& over <= row.eligible_at
            &&& origins.effective_timestamp.secs <= row.eligible_at
            &&& row.eligible_at == over || row.eligible_at == origins.effective_timestamp.secs
        },
{
    assert(entry_fresh(me, db, scale, record.generation, id));
}

/// Bringing the index up to date with one event gives it such a row, or takes
/// its row away, whatever the index held of it.
pub proof fn law_refreshed_row_scored(me: Database, db: DbState, scale: Scale, id: ShortEventId)
    requires
        index_owned(db),
        index_record(db) matches Some(record) && !(record.stage is Clearing)
            && record.generation.holder == me.self_id,
        db.events.contains_key(id) ==> db.events[id].id() == id,
    ensures
        index_refreshed(me, db, scale, id) matches Ok(after) && {
            let policy = (index_record(db)->0).generation.policy;
            &&& after.content_retention_reverse.contains_key(id) <==> may_be_indexed(
                me,
                db,
                policy,
                id,
            )
            &&& after.content_retention_reverse.contains_key(id) ==> {
                let row = after.content_retention_reverse[id];
                let e = db.events[id];
                let origins = db.events_retention_origins[id];
                let score = scale(
                    policy,
                    e.event_id,
                    me.self_id,
                    e.event.content_len,
                    origins.effective_timestamp,
                );
                let over = origins.materialized_at->0.secs + policy.grace_seconds;
                &&& row.author == e.event.author
                &&& row.key.score_hi == score.0
                &&& row.key.score_lo == score.1
                &&& row.key.event == e.event_id
                &&& row.eligible_at == (if over <= origins.effective_timestamp.secs {
                    origins.effective_timestamp.secs as int
                } else {
                    over
                })
            }
            &&& after.content_retention_reverse.remove(id) == db.content_retention_reverse.remove(
                id,
            )
        },
{
    law_refresh(me, db, scale, id);
    law_remove_keeps_owned(db, id);
    if let Ok(after) = index_refreshed(me, db, scale, id) {
        assert(after.content_retention_reverse.remove(id)
            =~= db.content_retention_reverse.remove(id));
    }
}

/// The event of a candidate: a post of another user, of the length and age by
/// which it was scored.
pub open spec fn rightly_scored(
    me: Database,
    db: DbState,
    scale: Scale,
    policy: RetentionPolicy,
    now: Timestamp,
    c: RetentionCandidate,
) -> bool {
    let id = c.event.to_short();
    let e = db.events[id];
    let origins = db.events_retention_origins[id];
    &&& may_be_indexed(me, db, policy, id)
    &&& e.event_id == c.event
    &&& e.event.author == c.author
    &&& c.key.event == c.event
    &&& (c.key.score_hi, c.key.score_lo) == scale(
        policy,
        c.event,
        me.self_id,
        e.event.content_len,
        origins.effective_timestamp,
    )
    &&& origins.materialized_at->0.secs + policy.grace_seconds <= now.secs
    &&& origins.effective_timestamp.secs <= now.secs
}

/// A selection gives the promoted rows behind the place asked for, the least
/// keys first, at most as many as asked for: every row up to the place that it
/// names is among them unless its time has not come, each is rightly scored,
/// and they are the author's where one was asked for.
pub proof fn law_selection_least_first(
    me: Database,
    db: DbState,
    scale: Scale,
    record: IndexRecord,
    author: Option<RostraId>,
    now: Timestamp,
    after: Option<RetentionKey>,
    limit: nat,
)
    requires
        index_owned(db),
        index_record(db) == Some(record),
        record.stage is Ready,
        index_built(me, db, scale, record),
        limit <= PAYLOAD_MAINTENANCE_MAX,
        page_finite(db, author, after),
    ensures
        candidates_selected(
            me,
            db,
            scale,
            record.generation,
            author,
            RetentionClock::Trusted(now),
            after,
            limit,
        ) matches Ok(page) && {
            let found = page.candidates;
            &&& page.ready
            &&& found.len() <= page.visited <= limit
            &&& forall|i: int, j: int|
                0 <= i < j < found.len() ==> key_lt(
                    (#[trigger] found[i]).key,
                    (#[trigger] found[j]).key,
                )
            &&& forall|i: int|
                0 <= i < found.len() ==> {
                    &&& rightly_scored(
                        me,
                        db,
                        scale,
                        record.generation.policy,
                        now,
                        #[trigger] found[i],
                    )
                    &&& author matches Some(a) ==> found[i].author == a
                    &&& after matches Some(k) ==> key_lt(k, found[i].key)
                }
            &&& forall|id: ShortEventId|
                (#[trigger] db.content_retention_reverse.contains_key(id)) && {
                    let row = db.content_retention_reverse[id];
                    &&& row.promoted
                    &&& row.eligible_at <= now.secs
                    &&& author matches Some(a) ==> row.author == a
                    &&& after matches Some(k) ==> key_lt(k, row.key)
                    &&& page.visited < limit || (page.scanned_through matches Some(last) && key_le(
                        row.key,
                        last,
                    ))
                } ==> exists|i: int|
                    0 <= i < found.len() && (#[trigger] found[i]).key
                        == db.content_retention_reverse[id].key
        },
{
    let generation = record.generation;
    let keys = page_keys(db, author, after, limit);
    lemma_page_keys(db, author, after, limit);
    law_selected_are_current(me, db, scale, record, author, now, keys);
    law_candidates_eligible(me, db, scale, generation, author, now, keys);
    lemma_candidates_all(me, db, scale, generation, author, now, keys);
    let found = candidates_of(me, db, scale, generation, author, now, keys)->Ok_0;
    let f = |c: RetentionCandidate| c.key;
    assert forall|i: int, j: int| 0 <= i < j < found.len() implies key_lt(
        (#[trigger] found[i]).key,
        (#[trigger] found[j]).key,
    ) by {
        assert(key_lt(found.map_values(f)[i], found.map_values(f)[j]));
    }
    assert forall|i: int| 0 <= i < found.len() implies {
        &&& rightly_scored(me, db, scale, generation.policy, now, #[trigger] found[i])
        &&& author matches Some(a) ==> found[i].author == a
        &&& after matches Some(k) ==> key_lt(k, found[i].key)
    } by {
        assert(candidate_due(me, db, scale, generation, author, now, found[i]));
        assert(keys.contains(found[i].key));
        let p = choose|p: int| 0 <= p < keys.len() && keys[p] == found[i].key;
        assert(is_promoted(db, author, keys[p]));
    }
    assert forall|id: ShortEventId|
        (#[trigger] db.content_retention_reverse.contains_key(id)) && {
            let row = db.content_retention_reverse[id];
            &&& row.promoted
            &&& row.eligible_at <= now.secs
            &&& author matches Some(a) ==> row.author == a
            &&& after matches Some(k) ==> key_lt(k, row.key)
            &&& keys.len() < limit || (keys.len() > 0 && key_le(row.key, keys.last()))
                || keys.len() == 0 && (after matches Some(last) && key_le(row.key, last))
        } implies exists|i: int|
        0 <= i < found.len() && (#[trigger] found[i]).key
            == db.content_retention_reverse[id].key by {
        let row = db.content_retention_reverse[id];
        assert(entry_owned(db, id));
        assert(is_promoted(db, author, row.key));
        assert(row_event(db, author, row.key) == id);
        assert(keys.contains(row.key));
        assert(entry_fresh(me, db, scale, generation, id));
        assert(candidate_listed(me, db, scale, generation, author, now, row.key));
    }
}

/// The keys of a page are those of promoted rows behind the place asked for, in
/// order, and none before the last of them is left out.
proof fn lemma_page_keys(
    db: DbState,
    author: Option<RostraId>,
    after: Option<RetentionKey>,
    limit: nat,
)
    requires
        page_finite(db, author, after),
    ensures
        ({
            let keys = page_keys(db, author, after, limit);
            &&& ascending(keys)
            &&& keys.len() <= limit
            &&& forall|i: int|
                0 <= i < keys.len() ==> is_promoted(db, author, #[trigger] keys[i]) && (
                after matches Some(k) ==> key_lt(k, keys[i]))
            &&& forall|key: RetentionKey| #[trigger]
                is_promoted(db, author, key) && (after matches Some(k) ==> key_lt(k, key)) && (
                keys.len() < limit || keys.len() > 0 && key_le(key, keys.last()))
                    ==> keys.contains(key)
        }),
{
    let (lo, hi) = (RetentionKey::spec_zero(), RetentionKey::spec_max());
    let keys = page_keys(db, author, after, limit);
    match author {
        None => {
            let set = span(db.content_retention_global, after, lo, hi);
            lemma_sorted(set);
            let all = sorted(set);
            assert forall|i: int| 0 <= i < keys.len() implies is_promoted(
                db,
                author,
                #[trigger] keys[i],
            ) && (after matches Some(k) ==> key_lt(k, keys[i])) by {
                assert(all.contains(all[i]));
            }
            assert forall|key: RetentionKey| #[trigger]
                is_promoted(db, author, key) && (after matches Some(k) ==> key_lt(k, key)) && (
                keys.len() < limit || keys.len() > 0 && key_le(
                    key,
                    keys.last(),
                )) implies keys.contains(key) by {
                lemma_retention_key_bounds(key);
                assert(set.contains(key));
                assert(all.contains(key));
                let p = choose|p: int| 0 <= p < all.len() && all[p] == key;
                if p >= keys.len() {
                    assert(key_lt(all[keys.len() - 1], all[p]));
                }
                assert(keys[p] == key);
            }
        },
        Some(a) => {
            let from = match after {
                Some(key) => Some((a, key)),
                None => None,
            };
            let set = span(db.content_retention_author, from, (a, lo), (a, hi));
            lemma_sorted(set);
            let all = sorted(set);
            let pairs = at_most(all, limit);
            lemma_key_irreflexive(a);
            assert forall|i: int| 0 <= i < pairs.len() implies (#[trigger] pairs[i]).0 == a
                && db.content_retention_author.contains_key(pairs[i]) && (
            after matches Some(k) ==> key_lt(k, pairs[i].1)) by {
                assert(all.contains(all[i]));
                let k = all[i];
                lemma_pair_lt(k.0, k.1, a, lo);
                lemma_pair_lt(a, hi, k.0, k.1);
                lemma_key_total(k.0, a);
                if let Some(key) = after {
                    lemma_pair_lt(a, key, k.0, k.1);
                }
            }
            assert forall|i: int| 0 <= i < keys.len() implies is_promoted(
                db,
                author,
                #[trigger] keys[i],
            ) && (after matches Some(k) ==> key_lt(k, keys[i])) by {
                assert(pairs[i] == (a, keys[i]));
            }
            assert forall|i: int, j: int| 0 <= i < j < keys.len() implies key_lt(
                #[trigger] keys[i],
                #[trigger] keys[j],
            ) by {
                assert(pairs[i] == (a, keys[i]));
                assert(pairs[j] == (a, keys[j]));
                assert(key_lt(all[i], all[j]));
                lemma_pair_lt(a, keys[i], a, keys[j]);
            }
            assert forall|key: RetentionKey| #[trigger]
                is_promoted(db, author, key) && (after matches Some(k) ==> key_lt(k, key)) && (
                keys.len() < limit || keys.len() > 0 && key_le(
                    key,
                    keys.last(),
                )) implies keys.contains(key) by {
                let pair = (a, key);
                lemma_retention_key_bounds(key);
                lemma_pair_lt(a, key, a, lo);
                lemma_pair_lt(a, hi, a, key);
                if let Some(k) = after {
                    lemma_pair_lt(a, k, a, key);
                }
                assert(set.contains(pair));
                assert(all.contains(pair));
                let p = choose|p: int| 0 <= p < all.len() && all[p] == pair;
                if p >= keys.len() {
                    let last = keys.len() - 1;
                    assert(pairs[last] == (a, keys[last]));
                    assert(key_lt(all[last], all[p]));
                    lemma_pair_lt(a, keys[last], a, key);
                }
                assert(keys[p] == key);
            }
        },
    }
}

/// The row under the key is of an event whose time has come.
spec fn candidate_listed(
    me: Database,
    db: DbState,
    scale: Scale,
    generation: RetentionGeneration,
    author: Option<RostraId>,
    now: Timestamp,
    key: RetentionKey,
) -> bool {
    entry_of(me, db, scale, generation, row_event(db, author, key)) matches Ok(Some((entry, _)))
        && entry.eligible_at <= now.secs
}

proof fn lemma_candidates_all(
    me: Database,
    db: DbState,
    scale: Scale,
    generation: RetentionGeneration,
    author: Option<RostraId>,
    now: Timestamp,
    keys: Seq<RetentionKey>,
)
    ensures
        candidates_of(me, db, scale, generation, author, now, keys) matches Ok(found) ==> forall|
            key: RetentionKey,
        | #[trigger]
            candidate_listed(me, db, scale, generation, author, now, key) && keys.contains(key)
                ==> exists|i: int| 0 <= i < found.len() && (#[trigger] found[i]).key == key,
    decreases keys.len(),
{
    if keys.len() > 0 {
        let before = keys.drop_last();
        lemma_candidates_all(me, db, scale, generation, author, now, before);
        if let Ok(found) = candidates_of(me, db, scale, generation, author, now, keys) {
            let earlier = candidates_of(me, db, scale, generation, author, now, before)->Ok_0;
            assert forall|key: RetentionKey| #[trigger]
                candidate_listed(me, db, scale, generation, author, now, key) && keys.contains(
                    key,
                ) implies exists|i: int|
                0 <= i < found.len() && (#[trigger] found[i]).key == key by {
                let p = choose|p: int| 0 <= p < keys.len() && keys[p] == key;
                if p < before.len() {
                    assert(before[p] == key);
                    let i = choose|i: int|
                        0 <= i < earlier.len() && (#[trigger] earlier[i]).key == key;
                    assert(found[i].key == key);
                } else {
                    assert(found[found.len() - 1].key == key);
                }
            }
        }
    }
}

/// A promotion promotes only candidates whose time has come, those whose time
/// came first before the others, and leaves every other candidate and every
/// promoted one as it is.
pub proof fn law_only_due_promoted(db: DbState, now: Timestamp, n: nat)
    requires
        index_owned(db),
        db.content_retention_grace.dom().finite(),
    ensures
        promoted_rows(db, now, n) matches Ok((after, _)) && {
            &&& forall|id: ShortEventId| #[trigger]
                after.content_retention_reverse.contains_key(id)
                    <==> db.content_retention_reverse.contains_key(id)
            &&& forall|id: ShortEventId| #[trigger]
                after.content_retention_reverse.contains_key(id) ==> {
                    let was = db.content_retention_reverse[id];
                    let is = after.content_retention_reverse[id];
                    &&& is == (IndexEntry { promoted: is.promoted, ..was })
                    &&& was.promoted ==> is.promoted
                    &&& is.promoted && !was.promoted ==> was.eligible_at <= now.secs
                    &&& is.promoted && !was.promoted ==> forall|k: (u64, ShortEventId)| #[trigger]
                        after.content_retention_grace.contains_key(k) ==> key_lt(
                            (was.eligible_at, id),
                            k,
                        )
                }
            &&& after == (DbState {
                content_retention_author: after.content_retention_author,
                content_retention_global: after.content_retention_global,
                content_retention_grace: after.content_retention_grace,
                content_retention_reverse: after.content_retention_reverse,
                ..db
            })
            &&& forall|k: (u64, ShortEventId)| #[trigger]
                after.content_retention_grace.contains_key(k)
                    ==> db.content_retention_grace.contains_key(k)
        },
    decreases n,
{
    if n > 0 {
        match first_of(db.content_retention_grace.dom()) {
            Some((deadline, id)) if deadline <= now.secs => {
                let k = (deadline, id);
                assert(is_first_of(db.content_retention_grace.dom(), k)) by {
                    assert(exists|x: (u64, ShortEventId)|
                        is_first_of(db.content_retention_grace.dom(), x));
                }
                assert(db.content_retention_grace.contains_key(k));
                law_promotion_keeps_owned(db, deadline, id);
                let mid = row_promoted(db, deadline, id)->Ok_0;
                assert(mid.content_retention_grace.dom() =~= db.content_retention_grace.dom().remove(k));
                law_only_due_promoted(mid, now, (n - 1) as nat);
                let (after, _) = promoted_rows(db, now, n)->Ok_0;
                assert forall|x: ShortEventId| #[trigger]
                    after.content_retention_reverse.contains_key(x) implies {
                    let was = db.content_retention_reverse[x];
                    let is = after.content_retention_reverse[x];
                    &&& is == (IndexEntry { promoted: is.promoted, ..was })
                    &&& was.promoted ==> is.promoted
                    &&& is.promoted && !was.promoted ==> was.eligible_at <= now.secs
                    &&& is.promoted && !was.promoted ==> forall|g: (u64, ShortEventId)| #[trigger]
                        after.content_retention_grace.contains_key(g) ==> key_lt(
                            (was.eligible_at, x),
                            g,
                        )
                } by {
                    assert(mid.content_retention_reverse.contains_key(x));
                    if x == id {
                        assert forall|g: (u64, ShortEventId)| #[trigger]
                            after.content_retention_grace.contains_key(g) implies key_lt(k, g) by {
                            assert(mid.content_retention_grace.contains_key(g));
                            assert(db.content_retention_grace.dom().contains(g));
                            lemma_key_total(k, g);
                        }
                    }
                }
                assert forall|g: (u64, ShortEventId)| #[trigger]
                    after.content_retention_grace.contains_key(
                        g,
                    ) implies db.content_retention_grace.contains_key(g) by {
                    assert(mid.content_retention_grace.contains_key(g));
                }
            },
            _ => {},
        }
    }
}

/// Building the index on visits as many rows as it may, unless the index is
/// ready before; where it is ready already, nothing changes. It changes nothing
/// but the index.
pub proof fn law_rebuild_progresses(
    me: Database,
    db: DbState,
    scale: Scale,
    record: IndexRecord,
    n: nat,
)
    ensures
        rebuilt(me, db, scale, record, n) matches Ok(((next, after), visited)) ==> {
            &&& visited == n || next.stage is Ready
            &&& record.stage is Ready ==> next == record && after == db && visited == 0
            &&& next.generation == record.generation
            &&& only_index(db, after)
        },
    decreases n, if record.stage is Clearing { 1nat } else { 0nat },
{
    if n > 0 {
        match record.stage {
            IndexStage::Clearing => match first_of(db.content_retention_reverse.dom()) {
                None => {
                    let next = IndexRecord { stage: IndexStage::Events(None), ..record };
                    let started = DbState {
                        content_retention_state: db.content_retention_state.insert((), next),
                        ..db
                    };
                    law_rebuild_progresses(me, started, scale, next, n);
                },
                Some(id) => {
                    if let Ok(after) = entry_removed(db, id) {
                        law_rebuild_progresses(me, after, scale, record, (n - 1) as nat);
                    }
                },
            },
            IndexStage::Events(cursor) => match first_of(behind(db.events, cursor)) {
                None => {},
                Some(id) => {
                    if let Ok(after) = index_refreshed(me, db, scale, id) {
                        law_index_alone(me, db, scale, id);
                        let next = IndexRecord { stage: IndexStage::Events(Some(id)), ..record };
                        law_rebuild_progresses(me, after, scale, next, (n - 1) as nat);
                    }
                },
            },
            IndexStage::Ready => {},
        }
    }
}

/// Nothing but the index changed.
pub open spec fn only_index(db: DbState, after: DbState) -> bool {
    after == (DbState {
        content_retention_author: after.content_retention_author,
        content_retention_global: after.content_retention_global,
        content_retention_grace: after.content_retention_grace,
        content_retention_reverse: after.content_retention_reverse,
        content_retention_state: after.content_retention_state,
        ..db
    })
}

/// Keeping the index up to date with an event changes nothing but the index.
pub proof fn law_index_alone(me: Database, db: DbState, scale: Scale, id: ShortEventId)
    ensures
        index_refreshed(me, db, scale, id) matches Ok(after) ==> only_index(db, after),
{
}

/// A call that promotes candidates does nothing before the index is ready or
/// without a trusted clock; asking for another policy starts the index anew,
/// for the storing account, and the same policy goes on as it was.
pub proof fn law_index_calls(
    me: Database,
    db: DbState,
    policy: RetentionPolicy,
    clock: RetentionClock,
    limit: nat,
)
    requires
        limit <= PAYLOAD_MAINTENANCE_MAX,
    ensures
        ({
            let idle = clock is Untrusted || !db.content_retention_state.contains_key(())
                || !(db.content_retention_state[()].stage is Ready);
            idle ==> (grace_promoted(db, clock, limit) matches Ok((_, after)) && after == db)
        }),
        ({
            let ((progress, changed), after) = index_configured(me, db, policy);
            let same = db.content_retention_state.contains_key(())
                && db.content_retention_state[()].generation.policy == policy
                && db.content_retention_state[()].generation.holder == me.self_id;
            let row = after.content_retention_state[()];
            &&& changed <==> !same
            &&& after.content_retention_state.contains_key(())
            &&& same ==> row == db.content_retention_state[()]
            &&& !same ==> row.stage is Clearing && row.generation.policy == policy
                && row.generation.holder == me.self_id
            &&& progress.generation == row.generation
            &&& progress.ready == (row.stage is Ready)
            &&& progress.visited == 0
            &&& after == (DbState { content_retention_state: after.content_retention_state, ..db })
        }),
{
}

/// A selection gives nothing, and says that it is not ready, without a trusted
/// clock or before the index is complete for the generation asked for; nothing
/// is due just where every waiting candidate has its time ahead; and a limit
/// above what one call visits is refused by every call.
pub proof fn law_selection_idle(
    me: Database,
    db: DbState,
    scale: Scale,
    generation: RetentionGeneration,
    author: Option<RostraId>,
    clock: RetentionClock,
    now: Timestamp,
    after: Option<RetentionKey>,
    limit: nat,
)
    ensures
        limit <= PAYLOAD_MAINTENANCE_MAX && (clock is Untrusted
            || !db.content_retention_state.contains_key(())
            || db.content_retention_state[()].generation != generation
            || !(db.content_retention_state[()].stage is Ready)) ==> (candidates_selected(
            me,
            db,
            scale,
            generation,
            author,
            clock,
            after,
            limit,
        ) matches Ok(page) && !page.ready && page.candidates.len() == 0 && page.visited == 0
            && page.scanned_through == after && page.generation == generation),
        none_due(db, now) <==> !exists|k: (u64, ShortEventId)| #[trigger]
            db.content_retention_grace.contains_key(k) && k.0 <= now.secs,
        limit > PAYLOAD_MAINTENANCE_MAX ==> {
            &&& candidates_selected(
                me,
                db,
                scale,
                generation,
                author,
                clock,
                after,
                limit,
            ) matches Err(e) && e is PayloadMaintenanceLimit
            &&& index_rebuilt(me, db, scale, limit) matches Err(e) && e is PayloadMaintenanceLimit
            &&& grace_promoted(db, clock, limit) matches Err(e) && e is PayloadMaintenanceLimit
        },
{
}

/// A call that builds the index says how many rows it visited, as many as it
/// may unless the index is ready, and keeps how far it came; before an index was
/// asked for it does nothing. Nothing but the index changes.
pub proof fn law_rebuild_told(me: Database, db: DbState, scale: Scale, limit: nat)
    requires
        limit <= PAYLOAD_MAINTENANCE_MAX,
    ensures
        !db.content_retention_state.contains_key(()) ==> (index_rebuilt(
            me,
            db,
            scale,
            limit,
        ) matches Ok((told, after)) && told is None && after == db),
        db.content_retention_state.contains_key(()) ==> (index_rebuilt(
            me,
            db,
            scale,
            limit,
        ) matches Ok((told, after)) ==> {
            let row = after.content_retention_state[()];
            &&& told matches Some(progress) && (progress.visited == limit || progress.ready)
                && progress.ready == (row.stage is Ready) && progress.generation == row.generation
            &&& row.generation == db.content_retention_state[()].generation
            &&& only_index(db, after)
        }),
{
    if db.content_retention_state.contains_key(()) {
        let record = db.content_retention_state[()];
        law_rebuild_progresses(me, db, scale, record, limit);
        lemma_rebuild_bounded(me, db, scale, record, limit);
    }
}

proof fn lemma_rebuild_bounded(
    me: Database,
    db: DbState,
    scale: Scale,
    record: IndexRecord,
    n: nat,
)
    ensures
        rebuilt(me, db, scale, record, n) matches Ok((_, visited)) ==> visited <= n,
    decreases n, if record.stage is Clearing { 1nat } else { 0nat },
{
    if n > 0 {
        match record.stage {
            IndexStage::Clearing => match first_of(db.content_retention_reverse.dom()) {
                None => {
                    let next = IndexRecord { stage: IndexStage::Events(None), ..record };
                    let started = DbState {
                        content_retention_state: db.content_retention_state.insert((), next),
                        ..db
                    };
                    lemma_rebuild_bounded(me, started, scale, next, n);
                },
                Some(id) => {
                    if let Ok(after) = entry_removed(db, id) {
                        lemma_rebuild_bounded(me, after, scale, record, (n - 1) as nat);
                    }
                },
            },
            IndexStage::Events(cursor) => match first_of(behind(db.events, cursor)) {
                None => {},
                Some(id) => {
                    if let Ok(after) = index_refreshed(me, db, scale, id) {
                        let next = IndexRecord { stage: IndexStage::Events(Some(id)), ..record };
                        lemma_rebuild_bounded(me, after, scale, next, (n - 1) as nat);
                    }
                },
            },
            IndexStage::Ready => {},
        }
    }
}

}
