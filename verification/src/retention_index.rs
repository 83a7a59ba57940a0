//! Which payloads could be given up, in order. The index is advice: whoever
//! gives a payload up looks again at everything that decides it.

use vstd::prelude::*;

use crate::content::state_of;
use crate::database::Database;
use crate::error::{left, ran, unread, DbError, DbResult, Effect};
use crate::event::EventKind;
use crate::ids::{
    lemma_rostra_id_bounds, lemma_short_id_bounds, EventId, RostraId, ShortEventId, Timestamp,
};
use crate::limits::{Limit, PAYLOAD_MAINTENANCE_MAX};
use crate::listing::{
    at_most, behind, first_of, is_first_of, key_le, key_lt, lemma_first_of, lemma_key_irreflexive,
    lemma_key_total, lemma_pair_lt, lemma_sorted, lemma_u64_lt, sorted, span,
};
use crate::quota_pruning::RetentionClock;
use crate::retention::{
    IndexEntry, IndexRecord, IndexStage, RetentionGeneration, RetentionKey, RetentionPolicy,
};
use crate::table::{is_first_after, is_first_from, keys_of, Value};
use crate::tables::{DbState, Tables};
use crate::words::Words;

verus! {

/// How payloads are scored: by policy, event, storing account, length and
/// local age.
pub type Scale = spec_fn(RetentionPolicy, EventId, RostraId, u32, Timestamp) -> (u64, u64);

/// A score computation gives one score for the same things.
pub open spec fn is_scale<F: Fn(RetentionPolicy, EventId, RostraId, u32, Timestamp) -> (u64, u64)>(
    score: F,
) -> bool {
    &&& forall|p: RetentionPolicy, e: EventId, h: RostraId, n: u32, t: Timestamp|
        call_requires(score, (p, e, h, n, t))
    &&& forall|
        p: RetentionPolicy,
        e: EventId,
        h: RostraId,
        n: u32,
        t: Timestamp,
        a: (u64, u64),
        b: (u64, u64),
    |
        call_ensures(score, (p, e, h, n, t), a) && call_ensures(score, (p, e, h, n, t), b)
            ==> a == b
}

/// The scores that a computation gives.
pub open spec fn scale_of<F: Fn(RetentionPolicy, EventId, RostraId, u32, Timestamp) -> (u64, u64)>(
    score: F,
) -> Scale {
    |p: RetentionPolicy, e: EventId, h: RostraId, n: u32, t: Timestamp|
        choose|s: (u64, u64)| call_ensures(score, (p, e, h, n, t), s)
}

/// The key of a payload: its score, and the event to tell equal scores apart.
pub open spec fn key_in(
    scale: Scale,
    policy: RetentionPolicy,
    event: EventId,
    holder: RostraId,
    len: u32,
    age: Timestamp,
) -> RetentionKey {
    let (score_hi, score_lo) = scale(policy, event, holder, len, age);
    RetentionKey { score_hi, score_lo, event }
}

/// The generation and progress of the index, once it was asked for.
pub open spec fn index_record(db: DbState) -> Option<IndexRecord> {
    if db.content_retention_state.contains_key(()) {
        Some(db.content_retention_state[()])
    } else {
        None
    }
}

/// What the index is to hold of an event, waiting at first: the processed,
/// non-empty posts of others whose age and first processing are known. An
/// event is not a candidate where its grace never ends.
pub open spec fn entry_of(
    me: Database,
    db: DbState,
    scale: Scale,
    generation: RetentionGeneration,
    id: ShortEventId,
) -> Result<Option<(IndexEntry, EventId)>, DbError> {
    let e = db.events[id];
    let origins = db.events_retention_origins[id];
    if generation.holder != me.self_id {
        Err(DbError::PayloadAccountingInvariant)
    } else if !db.events.contains_key(id) || e.event.author == me.self_id || !(e.event.kind
        is SocialPost) || e.event.content_len == 0 || state_of(db.events_content_state, id) is Some
        || !db.events_retention_origins.contains_key(id) || origins.materialized_at is None {
        Ok(None)
    } else {
        let deadline = generation.policy.deadline(origins.materialized_at->0);
        let age = origins.effective_timestamp;
        if deadline > u64::MAX {
            Ok(None)
        } else if e.id() != id {
            Err(DbError::PayloadAccountingInvariant)
        } else {
            Ok(
                Some(
                    (
                        IndexEntry {
                            author: e.event.author,
                            key: key_in(
                                scale,
                                generation.policy,
                                e.event_id,
                                me.self_id,
                                e.event.content_len,
                                age,
                            ),
                            eligible_at: if deadline <= age.secs {
                                age.secs
                            } else {
                                deadline as u64
                            },
                            promoted: false,
                        },
                        e.event_id,
                    ),
                ),
            )
        }
    }
}

/// The row of an event goes, and the rows that it owns: its grace row, or
/// both rows under its key. They must be there.
pub open spec fn entry_removed(db: DbState, id: ShortEventId) -> Result<DbState, DbError> {
    if !db.content_retention_reverse.contains_key(id) {
        Ok(db)
    } else {
        let entry = db.content_retention_reverse[id];
        let own = (entry.author, entry.key);
        let unlisted = DbState { content_retention_reverse: db.content_retention_reverse.remove(id), ..db };
        if entry.promoted {
            if db.content_retention_global.contains_key(entry.key) && db.content_retention_global[entry.key] == id
                && db.content_retention_author.contains_key(own) && db.content_retention_author[own] == id {
                Ok(
                    DbState {
                        content_retention_global: db.content_retention_global.remove(entry.key),
                        content_retention_author: db.content_retention_author.remove(own),
                        ..unlisted
                    },
                )
            } else {
                Err(DbError::PayloadAccountingInvariant)
            }
        } else if db.content_retention_grace.contains_key((entry.eligible_at, id)) {
            Ok(
                DbState {
                    content_retention_grace: db.content_retention_grace.remove((entry.eligible_at, id)),
                    ..unlisted
                },
            )
        } else {
            Err(DbError::PayloadAccountingInvariant)
        }
    }
}

/// The row of an event, as if it were waiting.
pub open spec fn waiting_entry(db: DbState, id: ShortEventId) -> Option<IndexEntry> {
    if db.content_retention_reverse.contains_key(id) {
        Some(IndexEntry { promoted: false, ..db.content_retention_reverse[id] })
    } else {
        None
    }
}

/// An event starts to wait.
pub open spec fn entry_added(db: DbState, id: ShortEventId, entry: IndexEntry) -> DbState {
    DbState {
        content_retention_grace: db.content_retention_grace.insert((entry.eligible_at, id), ()),
        content_retention_reverse: db.content_retention_reverse.insert(id, entry),
        ..db
    }
}

/// The index is brought up to date with an event. Nothing is done before the
/// rows of the old generation are gone.
pub open spec fn index_refreshed(
    me: Database,
    db: DbState,
    scale: Scale,
    id: ShortEventId,
) -> Result<DbState, DbError> {
    match index_record(db) {
        None => Ok(db),
        Some(record) => if record.stage is Clearing {
            Ok(db)
        } else {
            match entry_of(me, db, scale, record.generation, id) {
                Err(e) => Err(e),
                Ok(None) => entry_removed(db, id),
                Ok(Some((entry, _))) => if waiting_entry(db, id) == Some(entry) {
                    Ok(db)
                } else {
                    match entry_removed(db, id) {
                        Err(e) => Err(e),
                        Ok(cleared) => Ok(entry_added(cleared, id, entry)),
                    }
                },
            }
        },
    }
}

/// How far the index is.
#[derive(Debug, Clone, Copy, PartialEq, Eq, Structural)]
pub struct RetentionIndexProgress {
    /// What it is built for.
    pub generation: RetentionGeneration,
    /// Every event was indexed.
    pub ready: bool,
    /// Rows that the call visited.
    pub visited: usize,
}

/// A payload that could be given up.
#[derive(Debug, Clone, Copy, PartialEq, Eq, Structural)]
pub struct RetentionCandidate {
    pub event: EventId,
    /// Whose payload it is.
    pub author: RostraId,
    pub key: RetentionKey,
}

/// A page of candidates.
#[derive(Debug)]
pub struct RetentionCandidates {
    /// What the keys belong to.
    pub generation: RetentionGeneration,
    /// The index is complete for that generation, and the clock was trusted.
    pub ready: bool,
    /// Rows that were looked at, those that are not eligible any more too.
    pub visited: usize,
    /// The last key that was looked at.
    pub scanned_through: Option<RetentionKey>,
    /// Those that are eligible, in ascending order of keys.
    pub candidates: Vec<RetentionCandidate>,
}

/// What progress a record stands for.
pub open spec fn progress_of(record: IndexRecord, visited: usize) -> RetentionIndexProgress {
    RetentionIndexProgress {
        generation: record.generation,
        ready: record.stage is Ready,
        visited,
    }
}

/// Another generation starts with the removal of the old one's rows; the same
/// one goes on from where it was. The result says whether it is another.
pub open spec fn index_configured(me: Database, db: DbState, policy: RetentionPolicy) -> (
    (RetentionIndexProgress, bool),
    DbState,
) {
    let generation = RetentionGeneration { policy, holder: me.self_id };
    let fresh = IndexRecord { generation, stage: IndexStage::Clearing };
    let (record, changed) = match index_record(db) {
        Some(record) => if record.generation == generation {
            (record, false)
        } else {
            (fresh, true)
        },
        None => (fresh, true),
    };
    (
        (progress_of(record, 0), changed),
        DbState { content_retention_state: db.content_retention_state.insert((), record), ..db },
    )
}

/// The index is complete for the given generation.
pub open spec fn index_ready(db: DbState, generation: RetentionGeneration) -> bool {
    index_record(db) matches Some(record) && record.generation == generation && record.stage
        is Ready
}

/// Every waiting candidate waits on.
pub open spec fn none_due(db: DbState, now: Timestamp) -> bool {
    forall|k: (u64, ShortEventId)| #[trigger] db.content_retention_grace.contains_key(k) ==> now.secs < k.0
}

/// A candidate as selected before still stands: the index is complete, the
/// clock is trusted, the event is still to be indexed as it was, its time has
/// come, and all rows of a promoted candidate are there.
pub open spec fn candidate_current(
    me: Database,
    db: DbState,
    scale: Scale,
    generation: RetentionGeneration,
    candidate: RetentionCandidate,
    clock: RetentionClock,
) -> Result<bool, DbError> {
    let id = candidate.event.to_short();
    match clock {
        RetentionClock::Trusted(now) if index_ready(db, generation) => match entry_of(
            me,
            db,
            scale,
            generation,
            id,
        ) {
            Err(e) => Err(e),
            Ok(None) => Ok(false),
            Ok(Some((entry, event))) => {
                let own = (entry.author, entry.key);
                Ok(
                    {
                        &&& event == candidate.event
                        &&& entry.author == candidate.author
                        &&& entry.key == candidate.key
                        &&& entry.eligible_at <= now.secs
                        &&& db.content_retention_reverse.contains_key(id)
                        &&& db.content_retention_reverse[id] == (IndexEntry { promoted: true, ..entry })
                        &&& db.content_retention_global.contains_key(entry.key)
                        &&& db.content_retention_global[entry.key] == id
                        &&& db.content_retention_author.contains_key(own)
                        &&& db.content_retention_author[own] == id
                    },
                )
            },
        },
        _ => Ok(false),
    }
}

/// A number of visits is added to a result.
pub open spec fn visited_more<T>(n: nat, res: Result<(T, nat), DbError>) -> Result<
    (T, nat),
    DbError,
> {
    match res {
        Ok((t, m)) => Ok((t, n + m)),
        Err(e) => Err(e),
    }
}

/// The index is built for at most `n` rows: first those of the old generation
/// are removed, then events are indexed in order of their identifiers.
pub open spec fn rebuilt(me: Database, db: DbState, scale: Scale, record: IndexRecord, n: nat) -> Result<
    ((IndexRecord, DbState), nat),
    DbError,
>
    decreases n, if record.stage is Clearing { 1nat } else { 0nat },
{
    if n == 0 {
        Ok(((record, db), 0))
    } else {
        match record.stage {
            IndexStage::Clearing => match first_of(db.content_retention_reverse.dom()) {
                None => {
                    let record = IndexRecord { stage: IndexStage::Events(None), ..record };
                    let started = DbState {
                        content_retention_state: db.content_retention_state.insert((), record),
                        ..db
                    };
                    rebuilt(me, started, scale, record, n)
                },
                Some(id) => match entry_removed(db, id) {
                    Err(e) => Err(e),
                    Ok(after) => visited_more(
                        1,
                        rebuilt(me, after, scale, record, (n - 1) as nat),
                    ),
                },
            },
            IndexStage::Events(cursor) => match first_of(behind(db.events, cursor)) {
                None => Ok(((IndexRecord { stage: IndexStage::Ready, ..record }, db), 0)),
                Some(id) => match index_refreshed(me, db, scale, id) {
                    Err(e) => Err(e),
                    Ok(after) => visited_more(
                        1,
                        rebuilt(
                            me,
                            after,
                            scale,
                            IndexRecord { stage: IndexStage::Events(Some(id)), ..record },
                            (n - 1) as nat,
                        ),
                    ),
                },
            },
            IndexStage::Ready => Ok(((record, db), 0)),
        }
    }
}

/// What a call that builds the index does.
pub open spec fn index_rebuilt(me: Database, db: DbState, scale: Scale, limit: nat) -> Effect<
    Option<RetentionIndexProgress>,
    DbState,
> {
    if limit > PAYLOAD_MAINTENANCE_MAX {
        Err(DbError::PayloadMaintenanceLimit)
    } else {
        match index_record(db) {
            None => Ok((None, db)),
            Some(record) => match rebuilt(me, db, scale, record, limit) {
                Err(e) => Err(e),
                Ok(((record, built), visited)) => Ok(
                    (
                        Some(progress_of(record, visited as usize)),
                        DbState {
                            content_retention_state: built.content_retention_state.insert((), record),
                            ..built
                        },
                    ),
                ),
            },
        }
    }
}

/// A waiting candidate whose time has come gets its rows under its key.
pub open spec fn row_promoted(db: DbState, deadline: u64, id: ShortEventId) -> Result<
    DbState,
    DbError,
> {
    let entry = db.content_retention_reverse[id];
    if !db.content_retention_reverse.contains_key(id) || entry.promoted || entry.eligible_at != deadline {
        Err(DbError::PayloadAccountingInvariant)
    } else {
        Ok(
            DbState {
                content_retention_grace: db.content_retention_grace.remove((deadline, id)),
                content_retention_global: db.content_retention_global.insert(entry.key, id),
                content_retention_author: db.content_retention_author.insert((entry.author, entry.key), id),
                content_retention_reverse: db.content_retention_reverse.insert(
                    id,
                    IndexEntry { promoted: true, ..entry },
                ),
                ..db
            },
        )
    }
}

/// At most `n` candidates whose time has come are promoted, the earliest
/// first.
pub open spec fn promoted_rows(db: DbState, now: Timestamp, n: nat) -> Result<
    (DbState, nat),
    DbError,
>
    decreases n,
{
    if n == 0 {
        Ok((db, 0))
    } else {
        match first_of(db.content_retention_grace.dom()) {
            Some((deadline, id)) if deadline <= now.secs => match row_promoted(db, deadline, id) {
                Err(e) => Err(e),
                Ok(after) => visited_more(1, promoted_rows(after, now, (n - 1) as nat)),
            },
            _ => Ok((db, 0)),
        }
    }
}

/// What a call that promotes candidates does: nothing without a complete
/// index and a trusted clock.
pub open spec fn grace_promoted(db: DbState, clock: RetentionClock, limit: nat) -> Effect<
    Option<RetentionIndexProgress>,
    DbState,
> {
    if limit > PAYLOAD_MAINTENANCE_MAX {
        Err(DbError::PayloadMaintenanceLimit)
    } else {
        match index_record(db) {
            None => Ok((None, db)),
            Some(record) => match clock {
                RetentionClock::Trusted(now) if record.stage is Ready => match promoted_rows(
                    db,
                    now,
                    limit,
                ) {
                    Err(e) => Err(e),
                    Ok((after, visited)) => Ok(
                        (Some(progress_of(record, visited as usize)), after),
                    ),
                },
                _ => Ok((Some(progress_of(record, 0)), db)),
            },
        }
    }
}

/// The keys of promoted candidates, of an author or of all, behind one, at
/// most `n` of them.
pub open spec fn page_keys(
    db: DbState,
    author: Option<RostraId>,
    after: Option<RetentionKey>,
    n: nat,
) -> Seq<RetentionKey> {
    let (lo, hi) = (RetentionKey::spec_zero(), RetentionKey::spec_max());
    match author {
        None => at_most(sorted(span(db.content_retention_global, after, lo, hi)), n),
        Some(author) => {
            let after = match after {
                Some(key) => Some((author, key)),
                None => None,
            };
            at_most(
                sorted(span(db.content_retention_author, after, (author, lo), (author, hi))),
                n,
            ).map_values(|k: (RostraId, RetentionKey)| k.1)
        },
    }
}

/// There are finitely many such keys.
pub open spec fn page_finite(
    db: DbState,
    author: Option<RostraId>,
    after: Option<RetentionKey>,
) -> bool {
    let (lo, hi) = (RetentionKey::spec_zero(), RetentionKey::spec_max());
    match author {
        None => span(db.content_retention_global, after, lo, hi).finite(),
        Some(author) => span(
            db.content_retention_author,
            match after {
                Some(key) => Some((author, key)),
                None => None,
            },
            (author, lo),
            (author, hi),
        ).finite(),
    }
}

/// The event that a promoted row names.
pub open spec fn row_event(db: DbState, author: Option<RostraId>, key: RetentionKey) -> ShortEventId {
    match author {
        None => db.content_retention_global[key],
        Some(author) => db.content_retention_author[(author, key)],
    }
}

/// The candidates behind promoted rows, less those whose time has not come by
/// this clock. Each row must be what the index is to hold of its event.
pub open spec fn candidates_of(
    me: Database,
    db: DbState,
    scale: Scale,
    generation: RetentionGeneration,
    author: Option<RostraId>,
    now: Timestamp,
    keys: Seq<RetentionKey>,
) -> Result<Seq<RetentionCandidate>, DbError>
    decreases keys.len(),
{
    if keys.len() == 0 {
        Ok(Seq::empty())
    } else {
        let key = keys.last();
        match candidates_of(me, db, scale, generation, author, now, keys.drop_last()) {
            Err(e) => Err(e),
            Ok(found) => match entry_of(me, db, scale, generation, row_event(db, author, key)) {
                Err(e) => Err(e),
                Ok(None) => Err(DbError::PayloadAccountingInvariant),
                Ok(Some((entry, event))) => if entry.key != key || (author is Some && author
                    != Some(entry.author)) {
                    Err(DbError::PayloadAccountingInvariant)
                } else if entry.eligible_at <= now.secs {
                    Ok(found.push(RetentionCandidate { event, author: entry.author, key }))
                } else {
                    Ok(found)
                },
            },
        }
    }
}

/// A page of candidates as plain values.
pub ghost struct CandidatesModel {
    pub generation: RetentionGeneration,
    pub ready: bool,
    pub visited: usize,
    pub scanned_through: Option<RetentionKey>,
    pub candidates: Seq<RetentionCandidate>,
}

impl View for RetentionCandidates {
    type V = CandidatesModel;

    open spec fn view(&self) -> CandidatesModel {
        CandidatesModel {
            generation: self.generation,
            ready: self.ready,
            visited: self.visited,
            scanned_through: self.scanned_through,
            candidates: self.candidates@,
        }
    }
}

/// What a selection gives: nothing without a complete index of the generation
/// and a trusted clock.
pub open spec fn candidates_selected(
    me: Database,
    db: DbState,
    scale: Scale,
    generation: RetentionGeneration,
    author: Option<RostraId>,
    clock: RetentionClock,
    after: Option<RetentionKey>,
    limit: nat,
) -> Result<CandidatesModel, DbError> {
    let nothing = CandidatesModel {
        generation,
        ready: false,
        visited: 0,
        scanned_through: after,
        candidates: Seq::empty(),
    };
    if limit > PAYLOAD_MAINTENANCE_MAX {
        Err(DbError::PayloadMaintenanceLimit)
    } else {
        match clock {
            RetentionClock::Trusted(now) if index_ready(db, generation) => {
                let keys = page_keys(db, author, after, limit);
                match candidates_of(me, db, scale, generation, author, now, keys) {
                    Err(e) => Err(e),
                    Ok(candidates) => Ok(
                        CandidatesModel {
                            generation,
                            ready: true,
                            visited: keys.len() as usize,
                            scanned_through: if keys.len() > 0 {
                                Some(keys.last())
                            } else {
                                after
                            },
                            candidates,
                        },
                    ),
                }
            },
            _ => Ok(nothing),
        }
    }
}

impl IndexRecord {
    fn progress(self, visited: usize) -> (res: RetentionIndexProgress)
        ensures
            res == progress_of(self, visited),
    {
        RetentionIndexProgress {
            generation: self.generation,
            ready: self.is_ready(),
            visited,
        }
    }

    fn is_ready(&self) -> (res: bool)
        ensures
            res == (self.stage is Ready),
    {
        match self.stage {
            IndexStage::Ready => true,
            _ => false,
        }
    }
}

impl Database {
    /// The generation and progress of the index.
    pub fn retention_record_tx(db: &Tables<'_>) -> (res: DbResult<Option<IndexRecord>>)
        ensures
            match res {
                Ok(record) => record == index_record(db@),
                Err(e) => e.is_fault(),
            },
            unread(res) ==> !db.intact(),
    {
        db.content_retention_state.get(&())
    }

    /// Whether the least candidate can be told: the index is complete for the
    /// generation and nothing is due for promotion.
    pub fn retention_selection_ready_tx(
        generation: RetentionGeneration,
        now: Timestamp,
        db: &Tables<'_>,
    ) -> (res: DbResult<bool>)
        ensures
            match res {
                Ok(ready) => ready == (index_ready(db@, generation) && none_due(db@, now)),
                Err(e) => e.is_fault(),
            },
            unread(res) ==> !db.intact(),
    {
        let record = match Self::retention_record_tx(db)? {
            Some(record) => record,
            None => return Ok(false),
        };
        if record.generation != generation || !record.is_ready() {
            return Ok(false);
        }
        let first = db.content_retention_grace.first_from(&(0, ShortEventId::zero()))?;
        proof {
            lemma_grace_bounds(db@);
            assert forall|k: (u64, ShortEventId)|
                #[trigger] db@.content_retention_grace.contains_key(k) implies match first {
                Some((f, _)) => f.0 <= k.0,
                None => false,
            } by {
                match first {
                    Some((f, _)) => {
                        lemma_pair_lt(k.0, k.1, f.0, f.1);
                        lemma_u64_lt(k.0, f.0);
                    },
                    None => {},
                }
            }
        }
        match first {
            Some((key, _)) => {
                assert(db@.content_retention_grace.contains_key(key));
                Ok(key.0 > now.secs)
            },
            None => Ok(true),
        }
    }

    /// Asks for an index of the given policy; see [`index_configured`].
    pub fn configure_retention_index(
        &self,
        policy: RetentionPolicy,
        db: &mut Tables<'_>,
    ) -> (res: DbResult<(RetentionIndexProgress, bool)>)
        ensures
            crate::error::did(res, final(db)@, index_configured(*self, old(db)@, policy)),
            unread(res) ==> !old(db).intact(),
            res is Ok && old(db).intact() ==> final(db).intact(),
    {
        let generation = RetentionGeneration::new(policy, self.self_id);
        let (record, changed) = match Self::retention_record_tx(db)? {
            Some(record) if record.generation == generation => (record, false),
            _ => (IndexRecord { generation, stage: IndexStage::Clearing }, true),
        };
        db.content_retention_state.insert(&(), &record)?;
        Ok((record.progress(0), changed))
    }

    /// How far the index is, once it was asked for.
    pub fn retention_index_progress(db: &Tables<'_>) -> (res: DbResult<
        Option<RetentionIndexProgress>,
    >)
        ensures
            match res {
                Ok(progress) => progress == match index_record(db@) {
                    Some(record) => Some(progress_of(record, 0)),
                    None => None,
                },
                Err(e) => e.is_fault(),
            },
            unread(res) ==> !db.intact(),
    {
        match Self::retention_record_tx(db)? {
            Some(record) => Ok(Some(record.progress(0))),
            None => Ok(None),
        }
    }

    /// What the index is to hold of an event; see [`entry_of`].
    pub fn derive_retention_entry_tx<
        F: Fn(RetentionPolicy, EventId, RostraId, u32, Timestamp) -> (u64, u64),
    >(
        &self,
        generation: RetentionGeneration,
        id: ShortEventId,
        score: &F,
        db: &Tables<'_>,
    ) -> (res: DbResult<Option<(IndexEntry, EventId)>>)
        requires
            is_scale(*score),
        ensures
            match res {
                Ok(entry) => entry_of(*self, db@, scale_of(*score), generation, id) == Ok::<
                    _,
                    DbError,
                >(entry),
                Err(e) => e.is_fault() || entry_of(
                    *self,
                    db@,
                    scale_of(*score),
                    generation,
                    id,
                ) == Err::<Option<(IndexEntry, EventId)>, _>(e),
            },
            unread(res) ==> !db.intact(),
    {
        if generation.holder != self.self_id {
            return Err(DbError::PayloadAccountingInvariant);
        }
        let event = match db.events.get(&id)? {
            Some(event) => event,
            None => return Ok(None),
        };
        if event.event.author == self.self_id || event.event.kind != EventKind::SocialPost
            || event.event.content_len == 0 || db.events_content_state.contains(&id)? {
            return Ok(None);
        }
        let origins = match db.events_retention_origins.get(&id)? {
            Some(origins) => origins,
            None => return Ok(None),
        };
        let first = match origins.materialized_at {
            Some(first) => first,
            None => return Ok(None),
        };
        let deadline: u64 = match first.secs.checked_add(generation.policy.grace_seconds as u64) {
            Some(deadline) => deadline,
            None => return Ok(None),
        };
        if event.short_id() != id {
            return Err(DbError::PayloadAccountingInvariant);
        }
        let age = origins.effective_timestamp;
        let (score_hi, score_lo): (u64, u64) = score(
            generation.policy,
            event.event_id,
            self.self_id,
            event.event.content_len,
            age,
        );
        assert(scale_of(*score)(
            generation.policy,
            event.event_id,
            self.self_id,
            event.event.content_len,
            age,
        ) == (score_hi, score_lo));
        Ok(
            Some(
                (
                    IndexEntry {
                        author: event.event.author,
                        key: RetentionKey { score_hi, score_lo, event: event.event_id },
                        eligible_at: if deadline <= age.secs {
                            age.secs
                        } else {
                            deadline
                        },
                        promoted: false,
                    },
                    event.event_id,
                ),
            ),
        )
    }

    /// Takes an event out of the index; see [`entry_removed`].
    pub fn remove_retention_entry_tx(id: ShortEventId, db: &mut Tables<'_>) -> (res: DbResult<()>)
        ensures
            left(res, final(db)@, entry_removed(old(db)@, id)),
            unread(res) ==> !old(db).intact(),
            res is Ok && old(db).intact() ==> final(db).intact(),
    {
        let entry = match db.content_retention_reverse.take(&id)? {
            Some(entry) => entry,
            None => {
                assert(db.content_retention_reverse@ =~= old(db)@.content_retention_reverse);
                return Ok(());
            },
        };
        if entry.promoted {
            let global_id = db.content_retention_global.take(&entry.key)?;
            let author_id = db.content_retention_author.take(&(entry.author, entry.key))?;
            if global_id != Some(id) || author_id != Some(id) {
                return Err(DbError::PayloadAccountingInvariant);
            }
        } else {
            if db.content_retention_grace.take(&(entry.eligible_at, id))?.is_none() {
                return Err(DbError::PayloadAccountingInvariant);
            }
        }
        Ok(())
    }

    /// Brings the index up to date with an event; see [`index_refreshed`].
    pub fn refresh_retention_index_tx<
        F: Fn(RetentionPolicy, EventId, RostraId, u32, Timestamp) -> (u64, u64),
    >(&self, id: ShortEventId, score: &F, db: &mut Tables<'_>) -> (res: DbResult<()>)
        requires
            is_scale(*score),
        ensures
            left(res, final(db)@, index_refreshed(*self, old(db)@, scale_of(*score), id)),
            unread(res) ==> !old(db).intact(),
            res is Ok && old(db).intact() ==> final(db).intact(),
    {
        let record = match Self::retention_record_tx(db)? {
            Some(record) => record,
            None => return Ok(()),
        };
        if let IndexStage::Clearing = record.stage {
            return Ok(());
        }
        let next = self.derive_retention_entry_tx(record.generation, id, score, db)?;
        let old_entry = db.content_retention_reverse.get(&id)?;
        if let (Some(entry), Some((next, _))) = (old_entry, next) {
            if (IndexEntry { promoted: false, ..entry }) == next {
                return Ok(());
            }
        }
        Self::remove_retention_entry_tx(id, db)?;
        if let Some((entry, _)) = next {
            db.content_retention_grace.insert(&(entry.eligible_at, id), &())?;
            db.content_retention_reverse.insert(&id, &entry)?;
        }
        Ok(())
    }

    /// Whether a candidate still stands; see [`candidate_current`].
    pub fn retention_candidate_is_current<
        F: Fn(RetentionPolicy, EventId, RostraId, u32, Timestamp) -> (u64, u64),
    >(
        &self,
        generation: RetentionGeneration,
        candidate: RetentionCandidate,
        clock: RetentionClock,
        score: &F,
        db: &Tables<'_>,
    ) -> (res: DbResult<bool>)
        requires
            is_scale(*score),
        ensures
            match res {
                Ok(current) => candidate_current(
                    *self,
                    db@,
                    scale_of(*score),
                    generation,
                    candidate,
                    clock,
                ) == Ok::<_, DbError>(current),
                Err(e) => e.is_fault() || candidate_current(
                    *self,
                    db@,
                    scale_of(*score),
                    generation,
                    candidate,
                    clock,
                ) == Err::<bool, _>(e),
            },
            unread(res) ==> !db.intact(),
    {
        let record = match Self::retention_record_tx(db)? {
            Some(record) => record,
            None => return Ok(false),
        };
        if record.generation != generation || !record.is_ready() {
            return Ok(false);
        }
        let now = match clock {
            RetentionClock::Trusted(now) => now,
            RetentionClock::Untrusted => return Ok(false),
        };
        let id = candidate.event.to_short();
        let (entry, event) = match self.derive_retention_entry_tx(generation, id, score, db)? {
            Some(found) => found,
            None => return Ok(false),
        };
        if event != candidate.event || entry.author != candidate.author || entry.key
            != candidate.key || now.secs < entry.eligible_at {
            return Ok(false);
        }
        match db.content_retention_reverse.get(&id)? {
            Some(indexed) => if indexed != (IndexEntry { promoted: true, ..entry }) {
                return Ok(false);
            },
            None => return Ok(false),
        }
        let global_id = db.content_retention_global.get(&entry.key)?;
        let author_id = db.content_retention_author.get(&(entry.author, entry.key))?;
        Ok(global_id == Some(id) && author_id == Some(id))
    }

    /// Builds the index on, at most `limit` rows of it; see
    /// [`index_rebuilt`]. No payload is read.
    pub fn rebuild_retention_index<
        F: Fn(RetentionPolicy, EventId, RostraId, u32, Timestamp) -> (u64, u64),
    >(&self, limit: Limit, score: &F, db: &mut Tables<'_>) -> (res: DbResult<
        Option<RetentionIndexProgress>,
    >)
        requires
            is_scale(*score),
        ensures
            ran(res, final(db)@, index_rebuilt(*self, old(db)@, scale_of(*score), limit@)),
            unread(res) ==> !old(db).intact(),
            res is Ok && old(db).intact() ==> final(db).intact(),
    {
        Self::retention_limit(limit)?;
        let mut record = match Self::retention_record_tx(db)? {
            Some(record) => record,
            None => return Ok(None),
        };
        let max: usize = limit.get();
        let mut visited: usize = 0;
        let ghost scale = scale_of(*score);
        let ghost want = rebuilt(*self, db@, scale, record, max as nat);
        while visited < max
            invariant
                is_scale(*score),
                scale == scale_of(*score),
                visited <= max,
                visited_more(
                    visited as nat,
                    rebuilt(*self, db@, scale, record, (max - visited) as nat),
                ) == want,
                want == rebuilt(*self, old(db)@, scale, index_record(old(db)@)->0, max as nat),
                old(db).intact() ==> db.intact(),
                index_record(old(db)@) is Some,
                max == limit@,
                max <= PAYLOAD_MAINTENANCE_MAX,
            ensures
                want == Ok::<_, DbError>(((record, db@), visited as nat)),
                old(db).intact() ==> db.intact(),
            decreases
                    max - visited,
                    if record.stage is Clearing {
                        2nat
                    } else if record.stage is Events {
                        1nat
                    } else {
                        0nat
                    },
        {
            match record.stage {
                IndexStage::Clearing => {
                    let first = db.content_retention_reverse.first_from(&ShortEventId::zero())?;
                    proof {
                        lemma_first_short(db@.content_retention_reverse, first);
                    }
                    match first {
                        None => {
                            record.stage = IndexStage::Events(None);
                            db.content_retention_state.insert(&(), &record)?;
                            continue;
                        },
                        Some((id, _)) => {
                            Self::remove_retention_entry_tx(id, db)?;
                        },
                    }
                },
                IndexStage::Events(cursor) => {
                    let next = match &cursor {
                        Some(id) => db.events.first_after(id)?,
                        None => db.events.first_from(&ShortEventId::zero())?,
                    };
                    proof {
                        lemma_next_short(db@.events, cursor, next);
                    }
                    match next {
                        None => {
                            record.stage = IndexStage::Ready;
                            break;
                        },
                        Some((id, _)) => {
                            self.refresh_retention_index_tx(id, score, db)?;
                            record.stage = IndexStage::Events(Some(id));
                        },
                    }
                },
                IndexStage::Ready => {
                    break;
                },
            }
            visited = visited + 1;
        }
        db.content_retention_state.insert(&(), &record)?;
        Ok(Some(record.progress(visited)))
    }

    /// Promotes candidates whose time has come, at most `limit` of them; see
    /// [`grace_promoted`]. Fewer than that were left to promote where fewer
    /// were visited.
    pub fn promote_retention_grace(
        clock: RetentionClock,
        limit: Limit,
        db: &mut Tables<'_>,
    ) -> (res: DbResult<Option<RetentionIndexProgress>>)
        ensures
            ran(res, final(db)@, grace_promoted(old(db)@, clock, limit@)),
            unread(res) ==> !old(db).intact(),
            res is Ok && old(db).intact() ==> final(db).intact(),
    {
        Self::retention_limit(limit)?;
        let record = match Self::retention_record_tx(db)? {
            Some(record) => record,
            None => return Ok(None),
        };
        let now = match clock {
            RetentionClock::Trusted(now) => now,
            RetentionClock::Untrusted => return Ok(Some(record.progress(0))),
        };
        if !record.is_ready() {
            return Ok(Some(record.progress(0)));
        }
        let max: usize = limit.get();
        let mut visited: usize = 0;
        let ghost want = promoted_rows(db@, now, max as nat);
        while visited < max
            invariant
                visited <= max,
                visited_more(
                    visited as nat,
                    promoted_rows(db@, now, (max - visited) as nat),
                ) == want,
                want == promoted_rows(old(db)@, now, max as nat),
                old(db).intact() ==> db.intact(),
                index_record(old(db)@) == Some(record),
                record.stage is Ready,
                clock == RetentionClock::Trusted(now),
                max == limit@,
                max <= PAYLOAD_MAINTENANCE_MAX,
            ensures
                want == Ok::<_, DbError>((db@, visited as nat)),
                old(db).intact() ==> db.intact(),
            decreases max - visited,
        {
            let first = db.content_retention_grace.first_from(&(0, ShortEventId::zero()))?;
            proof {
                lemma_grace_bounds(db@);
                match first {
                    Some((key, _)) => {
                        assert(is_first_of(db@.content_retention_grace.dom(), key));
                        lemma_first_of(db@.content_retention_grace.dom(), key);
                    },
                    None => {
                        assert(forall|k: (u64, ShortEventId)|
                            !#[trigger] db@.content_retention_grace.dom().contains(k));
                    },
                }
            }
            let (deadline, id): (u64, ShortEventId) = match first {
                Some((key, _)) => key,
                None => {
                    break;
                },
            };
            if deadline > now.secs {
                break;
            }
            let entry = match db.content_retention_reverse.get(&id)? {
                Some(entry) => entry,
                None => return Err(DbError::PayloadAccountingInvariant),
            };
            if entry.promoted || entry.eligible_at != deadline {
                return Err(DbError::PayloadAccountingInvariant);
            }
            db.content_retention_grace.remove(&(deadline, id))?;
            db.content_retention_global.insert(&entry.key, &id)?;
            db.content_retention_author.insert(&(entry.author, entry.key), &id)?;
            db.content_retention_reverse.insert(&id, &IndexEntry { promoted: true, ..entry })?;
            visited = visited + 1;
        }
        Ok(Some(record.progress(visited)))
    }

    fn candidate_rows_tx(
        author: Option<RostraId>,
        after: Option<RetentionKey>,
        limit: usize,
        db: &Tables<'_>,
    ) -> (res: DbResult<Vec<(RetentionKey, ShortEventId)>>)
        ensures
            match res {
                Ok(rows) => {
                    &&& rows@.map_values(|row: (RetentionKey, ShortEventId)| row.0) == page_keys(
                        db@,
                        author,
                        after,
                        limit as nat,
                    )
                    &&& page_finite(db@, author, after)
                    &&& forall|i: int|
                        0 <= i < rows@.len() ==> (#[trigger] rows@[i]).1 == row_event(
                            db@,
                            author,
                            rows@[i].0,
                        )
                },
                Err(e) => e.is_fault(),
            },
            unread(res) ==> !db.intact(),
    {
        let (lo, hi) = (RetentionKey::zero(), RetentionKey::max());
        match author {
            None => {
                proof {
                    if let Some(key) = after {
                        lemma_retention_key_bounds(key);
                    }
                }
                let rows = db.content_retention_global.page_after(after, &lo, &hi, limit)?;
                proof {
                    assert(rows@.map_values(|row: (RetentionKey, ShortEventId)| row.0)
                        =~= keys_of(rows@));
                }
                Ok(rows)
            },
            Some(author) => {
                let from = match after {
                    Some(key) => Some((author, key)),
                    None => None,
                };
                proof {
                    if let Some(key) = after {
                        lemma_retention_key_bounds(key);
                        lemma_pair_lt(author, key, author, lo);
                        lemma_key_irreflexive(author);
                    }
                }
                let found = db.content_retention_author.page_after(
                    from,
                    &(author, lo),
                    &(author, hi),
                    limit,
                )?;
                let mut rows: Vec<(RetentionKey, ShortEventId)> = Vec::new();
                let mut i: usize = 0;
                while i < found.len()
                    invariant
                        i <= found.len(),
                        rows.len() == i,
                        forall|j: int|
                            0 <= j < i ==> #[trigger] rows@[j] == (found@[j].0.1, found@[j].1),
                    decreases found.len() - i,
                {
                    rows.push((found[i].0.1, found[i].1));
                    i = i + 1;
                }
                proof {
                    let set = span(db@.content_retention_author, from, (author, lo), (author, hi));
                    lemma_sorted(set);
                    assert(keys_of(found@) == at_most(sorted(set), limit as nat));
                    assert forall|j: int| 0 <= j < found@.len() implies (#[trigger] found@[j]).0.0
                        == author by {
                        let k = keys_of(found@)[j];
                        assert(k == found@[j].0);
                        assert(keys_of(found@).len() == found@.len());
                        assert(at_most(sorted(set), limit as nat)[j] == sorted(set)[j]);
                        assert(sorted(set).contains(k));
                        assert(set.contains(k));
                        lemma_pair_lt(k.0, k.1, author, lo);
                        lemma_pair_lt(author, hi, k.0, k.1);
                        lemma_key_total(k.0, author);
                    }
                    assert(rows@.map_values(|row: (RetentionKey, ShortEventId)| row.0) =~= keys_of(
                        found@,
                    ).map_values(|k: (RostraId, RetentionKey)| k.1));
                }
                Ok(rows)
            },
        }
    }

    /// Selects candidates, at most `limit` of them, of an author or of all,
    /// with keys behind `after`; see [`candidates_selected`].
    pub fn select_retention_candidates<
        F: Fn(RetentionPolicy, EventId, RostraId, u32, Timestamp) -> (u64, u64),
    >(
        &self,
        generation: RetentionGeneration,
        author: Option<RostraId>,
        clock: RetentionClock,
        after: Option<RetentionKey>,
        limit: Limit,
        score: &F,
        db: &Tables<'_>,
    ) -> (res: DbResult<RetentionCandidates>)
        requires
            is_scale(*score),
        ensures
            match res {
                Ok(page) => candidates_selected(
                    *self,
                    db@,
                    scale_of(*score),
                    generation,
                    author,
                    clock,
                    after,
                    limit@,
                ) == Ok::<_, DbError>(page@),
                Err(e) => e.is_fault() || candidates_selected(
                    *self,
                    db@,
                    scale_of(*score),
                    generation,
                    author,
                    clock,
                    after,
                    limit@,
                ) == Err::<CandidatesModel, _>(e),
            },
            res matches Ok(page) ==> (page@.ready ==> page_finite(db@, author, after)),
            unread(res) ==> !db.intact(),
    {
        Self::retention_limit(limit)?;
        let mut page = RetentionCandidates {
            generation,
            ready: false,
            visited: 0,
            scanned_through: after,
            candidates: Vec::new(),
        };
        assert(page.candidates@ =~= Seq::empty());
        let record = match Self::retention_record_tx(db)? {
            Some(record) => record,
            None => return Ok(page),
        };
        let now = match clock {
            RetentionClock::Trusted(now) => now,
            RetentionClock::Untrusted => return Ok(page),
        };
        if record.generation != generation || !record.is_ready() {
            return Ok(page);
        }
        page.ready = true;
        let rows = Self::candidate_rows_tx(author, after, limit.get(), db)?;
        let ghost keys = page_keys(db@, author, after, limit@);
        let ghost scale = scale_of(*score);
        let mut i: usize = 0;
        proof {
            assert(keys.take(0) =~= Seq::empty());
        }
        while i < rows.len()
            invariant
                is_scale(*score),
                scale == scale_of(*score),
                keys == rows@.map_values(|row: (RetentionKey, ShortEventId)| row.0),
                forall|j: int|
                    0 <= j < rows@.len() ==> (#[trigger] rows@[j]).1 == row_event(
                        db@,
                        author,
                        rows@[j].0,
                    ),
                i <= rows.len(),
                page.generation == generation,
                page.ready,
                page.visited == i,
                page.scanned_through == (if i > 0 {
                    Some(keys[i - 1])
                } else {
                    after
                }),
                candidates_of(*self, db@, scale, generation, author, now, keys.take(i as int))
                    == Ok::<_, DbError>(page.candidates@),
                index_ready(db@, generation),
                clock == RetentionClock::Trusted(now),
                keys == page_keys(db@, author, after, limit@),
                limit@ <= PAYLOAD_MAINTENANCE_MAX,
            decreases rows.len() - i,
        {
            let (key, id): (RetentionKey, ShortEventId) = rows[i];
            proof {
                assert(keys[i as int] == key);
                assert(keys.take(i + 1).drop_last() =~= keys.take(i as int));
                assert(keys.take(i + 1).last() == key);
            }
            page.visited = page.visited + 1;
            page.scanned_through = Some(key);
            match self.derive_retention_entry_tx(generation, id, score, db) {
                Err(e) => {
                    proof {
                        if !e.is_fault() {
                            lemma_candidates_fail(
                                *self,
                                db@,
                                scale,
                                generation,
                                author,
                                now,
                                keys,
                                i + 1,
                            );
                        }
                    }
                    return Err(e);
                },
                Ok(None) => {
                    proof {
                        lemma_candidates_fail(
                            *self,
                            db@,
                            scale,
                            generation,
                            author,
                            now,
                            keys,
                            i + 1,
                        );
                    }
                    return Err(DbError::PayloadAccountingInvariant);
                },
                Ok(Some((entry, event))) => {
                    let other_author = match author {
                        Some(author) => author != entry.author,
                        None => false,
                    };
                    if entry.key != key || other_author {
                        proof {
                            lemma_candidates_fail(
                                *self,
                                db@,
                                scale,
                                generation,
                                author,
                                now,
                                keys,
                                i + 1,
                            );
                        }
                        return Err(DbError::PayloadAccountingInvariant);
                    }
                    if entry.eligible_at <= now.secs {
                        page.candidates.push(
                            RetentionCandidate { event, author: entry.author, key },
                        );
                    }
                },
            }
            i = i + 1;
        }
        proof {
            assert(keys.take(i as int) =~= keys);
        }
        Ok(page)
    }
}

/// Every waiting row is behind the least key.
proof fn lemma_grace_bounds(db: DbState)
    ensures
        forall|k: (u64, ShortEventId)| #[trigger] db.content_retention_grace.contains_key(k) ==> key_le(
            (0u64, ShortEventId::spec_zero()),
            k,
        ),
{
    assert forall|k: (u64, ShortEventId)|
        #[trigger] db.content_retention_grace.contains_key(k) implies key_le(
        (0u64, ShortEventId::spec_zero()),
        k,
    ) by {
        lemma_pair_lt(k.0, k.1, 0u64, ShortEventId::spec_zero());
        lemma_u64_lt(k.0, 0);
        lemma_short_id_bounds(k.1);
    }
}

/// The least and the greatest key enclose every other.
pub proof fn lemma_retention_key_bounds(x: RetentionKey)
    ensures
        key_le(RetentionKey::spec_zero(), x),
        key_le(x, RetentionKey::spec_max()),
{
    let z = RetentionKey::spec_zero();
    let m = RetentionKey::spec_max();
    let (xe, ze, me) = (
        RostraId { bytes: x.event.bytes },
        RostraId { bytes: z.event.bytes },
        RostraId { bytes: m.event.bytes },
    );
    lemma_rostra_id_bounds(xe);
    assert(xe.words() == x.event.words());
    assert(ze.words() == z.event.words());
    assert(me.words() == m.event.words());
    lemma_pair_lt(x.score_hi, (x.score_lo, x.event), z.score_hi, (z.score_lo, z.event));
    lemma_pair_lt(x.score_lo, x.event, z.score_lo, z.event);
    lemma_pair_lt(m.score_hi, (m.score_lo, m.event), x.score_hi, (x.score_lo, x.event));
    lemma_pair_lt(m.score_lo, m.event, x.score_lo, x.event);
    lemma_u64_lt(x.score_hi, z.score_hi);
    lemma_u64_lt(x.score_lo, z.score_lo);
    lemma_u64_lt(m.score_hi, x.score_hi);
    lemma_u64_lt(m.score_lo, x.score_lo);
}

proof fn lemma_first_short<V: Value>(
    m: Map<ShortEventId, V::Model>,
    first: Option<(ShortEventId, V)>,
)
    requires
        match first {
            Some((key, _)) => is_first_from(m, ShortEventId::spec_zero(), key),
            None => forall|k: ShortEventId| #[trigger]
                m.contains_key(k) ==> key_lt(k, ShortEventId::spec_zero()),
        },
    ensures
        first_of(m.dom()) == match first {
            Some((key, _)) => Some(key),
            None => None,
        },
{
    assert forall|k: ShortEventId| #[trigger] m.dom().contains(k) implies key_le(
        ShortEventId::spec_zero(),
        k,
    ) by {
        lemma_short_id_bounds(k);
    }
    match first {
        Some((key, _)) => {
            assert(is_first_of(m.dom(), key));
            lemma_first_of(m.dom(), key);
        },
        None => {
            assert(forall|k: ShortEventId| !#[trigger] m.dom().contains(k));
        },
    }
}

proof fn lemma_next_short<V: Value>(
    m: Map<ShortEventId, V::Model>,
    cursor: Option<ShortEventId>,
    next: Option<(ShortEventId, V)>,
)
    requires
        match (cursor, next) {
            (None, Some((key, _))) => is_first_from(m, ShortEventId::spec_zero(), key),
            (Some(c), Some((key, _))) => is_first_after(m, c, key),
            (None, None) => forall|k: ShortEventId| #[trigger]
                m.contains_key(k) ==> key_lt(k, ShortEventId::spec_zero()),
            (Some(c), None) => forall|k: ShortEventId| #[trigger]
                m.contains_key(k) ==> key_le(k, c),
        },
    ensures
        first_of(behind(m, cursor)) == match next {
            Some((key, _)) => Some(key),
            None => None,
        },
{
    let set = behind(m, cursor);
    assert forall|k: ShortEventId| #[trigger] m.contains_key(k) implies key_le(
        ShortEventId::spec_zero(),
        k,
    ) by {
        lemma_short_id_bounds(k);
    }
    match next {
        Some((key, _)) => {
            assert forall|k: ShortEventId| #[trigger] set.contains(k) implies key_le(key, k) by {
                assert(m.contains_key(k));
            }
            assert(is_first_of(set, key));
            lemma_first_of(set, key);
        },
        None => {
            assert forall|k: ShortEventId| !#[trigger] set.contains(k) by {
                if set.contains(k) {
                    assert(m.contains_key(k));
                }
            }
        },
    }
}

/// A row that is not what it should be fails every page that it is on.
proof fn lemma_candidates_fail(
    me: Database,
    db: DbState,
    scale: Scale,
    generation: RetentionGeneration,
    author: Option<RostraId>,
    now: Timestamp,
    keys: Seq<RetentionKey>,
    n: int,
)
    requires
        0 <= n <= keys.len(),
        candidates_of(me, db, scale, generation, author, now, keys.take(n)) is Err,
    ensures
        candidates_of(me, db, scale, generation, author, now, keys) == Err::<
            Seq<RetentionCandidate>,
            _,
        >(DbError::PayloadAccountingInvariant),
    decreases keys.len(),
{
    if keys.len() == 0 {
        assert(keys.take(n) =~= keys);
    } else if n == keys.len() {
        assert(keys.take(n) =~= keys);
        if candidates_of(me, db, scale, generation, author, now, keys.drop_last()) is Err {
            assert(keys.drop_last().take(keys.len() - 1) =~= keys.drop_last());
            lemma_candidates_fail(
                me,
                db,
                scale,
                generation,
                author,
                now,
                keys.drop_last(),
                keys.len() - 1,
            );
        }
    } else {
        assert(keys.drop_last().take(n) =~= keys.take(n));
        lemma_candidates_fail(me, db, scale, generation, author, now, keys.drop_last(), n);
    }
}

}
