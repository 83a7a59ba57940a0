//! What events are called, how they and rows are ordered, what states of
//! payloads count as, and what the outcome of an operation says.

use vstd::prelude::*;

use crate::account::is_next_to;
use crate::content::holds_reference;
use crate::error::{did, left, ran, DbError, DbResult, Effect};
use crate::event::EventContentState;
use crate::ids::{
    lemma_order_key, lemma_timestamp_key, EventId, EventOrder, ShortEventId, Timestamp,
};
use crate::latest::{latest_kept, LatestEventValue};
use crate::limits::{PayloadRuntimeLimits, PAYLOAD_MAINTENANCE_MAX};
use crate::listing::{key_le, key_lt, lemma_key_irreflexive, lemma_pair_lt, lemma_u64_lt};
use crate::payload::Action;
use crate::process_content::{
    content_ran, processed, stepped, ContentOutcome, ProcessEventError, ProcessEventResult,
};
use crate::retention::RetentionKey;
use crate::tables::{DbState, IdsDataUsageRecord};
use crate::usage::{bucket_of, Bucket};
use crate::words::Words;

verus! {

/// An event is stored under the leading half of its identifier, so two events
/// share a name just where those halves are the same.
pub proof fn law_names_of_events(a: EventId, b: EventId)
    ensures
        a.spec_to_short().hi == a.bytes.a,
        a.spec_to_short().lo == a.bytes.b,
        a.spec_to_short() == b.spec_to_short() <==> a.bytes.a == b.bytes.a && a.bytes.b
            == b.bytes.b,
{
}

/// Events are ordered by the time at which they were written, and those of one
/// time by their names: of two different places one is before the other, and
/// what is before is so for whatever comes behind.
pub proof fn law_events_ordered(a: EventOrder, b: EventOrder, c: EventOrder)
    ensures
        a.timestamp.secs < b.timestamp.secs ==> a.lt(b) && !b.lt(a),
        a.timestamp == b.timestamp && a.event_id.hi < b.event_id.hi ==> a.lt(b) && !b.lt(a),
        a.timestamp == b.timestamp && a.event_id.hi == b.event_id.hi && a.event_id.lo
            < b.event_id.lo ==> a.lt(b) && !b.lt(a),
        !a.lt(a),
        a.lt(b) && b.lt(c) ==> a.lt(c),
        a == b || a.lt(b) || b.lt(a),
        a.le(b) <==> a == b || a.lt(b),
{
}

/// A payload that was processed counts to what is there, one in any other state
/// to that state; references are held by those that were processed and those
/// that are waited for.
pub proof fn law_states_count(state: EventContentState)
    ensures
        bucket_of(None) is Current,
        state is Missing <==> bucket_of(Some(state)) is Missing,
        state is Deleted <==> bucket_of(Some(state)) is Deleted,
        state is Pruned <==> bucket_of(Some(state)) is Pruned,
        state is Invalid <==> bucket_of(Some(state)) is Invalid,
        holds_reference(None),
        holds_reference(Some(state)) <==> state is Missing,
{
}

/// A payload that goes from one state to another leaves the amounts of the one
/// and adds to those of the other, by its length and by one; no other amount
/// changes. A new one adds to all payloads known of too. An envelope counts
/// with its fixed size.
pub proof fn law_amounts_moved(u: IdsDataUsageRecord, from: Bucket, to: Bucket, len: u32)
    requires
        from != to,
    ensures
        u.moved(from, to, len) matches Some(v) ==> {
            &&& v.size_in(from) == u.size_in(from) - len
            &&& v.num_in(from) == u.num_in(from) - 1
            &&& v.size_in(to) == u.size_in(to) + len
            &&& v.num_in(to) == u.num_in(to) + 1
            &&& forall|b: Bucket|
                b != from && b != to ==> #[trigger] v.size_in(b) == u.size_in(b) && v.num_in(b)
                    == u.num_in(b)
            &&& v.total_content_size == u.total_content_size
            &&& v.total_payload_num == u.total_payload_num
            &&& v.current_metadata_size == u.current_metadata_size
            &&& v.total_metadata_size == u.total_metadata_size
            &&& v.current_metadata_num == u.current_metadata_num
            &&& v.total_metadata_num == u.total_metadata_num
        },
        u.with_payload(to, len) matches Some(v) ==> {
            &&& v.size_in(to) == u.size_in(to) + len
            &&& v.num_in(to) == u.num_in(to) + 1
            &&& forall|b: Bucket|
                b != to ==> #[trigger] v.size_in(b) == u.size_in(b) && v.num_in(b) == u.num_in(b)
            &&& v.total_content_size == u.total_content_size + len
            &&& v.total_payload_num == u.total_payload_num + 1
        },
        u.with_event() matches Some(v) ==> {
            &&& v.current_metadata_size == u.current_metadata_size + 192
            &&& v.total_metadata_size == u.total_metadata_size + 192
            &&& v.current_metadata_num == u.current_metadata_num + 1
            &&& v.total_metadata_num == u.total_metadata_num + 1
            &&& forall|b: Bucket| #[trigger]
                v.size_in(b) == u.size_in(b) && v.num_in(b) == u.num_in(b)
        },
        u.size_in(Bucket::Current) == u.current_content_size,
        u.num_in(Bucket::Current) == u.current_payload_num,
        u.size_in(Bucket::Missing) == u.missing_payload_size,
        u.num_in(Bucket::Missing) == u.missing_payload_num,
        u.size_in(Bucket::Deleted) == u.deleted_payload_size,
        u.num_in(Bucket::Deleted) == u.deleted_payload_num,
        u.size_in(Bucket::Pruned) == u.pruned_payload_size,
        u.num_in(Bucket::Pruned) == u.pruned_payload_num,
        u.size_in(Bucket::Invalid) == u.invalid_payload_size,
        u.num_in(Bucket::Invalid) == u.invalid_payload_num,
{
}

/// A value is stored just where nothing is stored under its key or what is
/// stored is from an earlier event; whether it was is told, and no other key is
/// touched.
pub proof fn law_latest_told<K: Words, V: LatestEventValue>(
    m: Map<K, V::Model>,
    key: K,
    value: V::Model,
)
    ensures
        ({
            let (told, after) = latest_kept::<K, V>(m, key, value);
            &&& told <==> (m.contains_key(key) ==> V::order_of(m[key]).lt(V::order_of(value)))
            &&& after == (if told {
                m.insert(key, value)
            } else {
                m
            })
        }),
{
}

/// Rows are kept in the order of what their keys stand for: times by their
/// seconds, events by their names as numbers, and candidates by their scores as
/// numbers, those of one score by their identifiers.
pub proof fn law_rows_ordered(
    t: Timestamp,
    s: Timestamp,
    x: ShortEventId,
    y: ShortEventId,
    k: RetentionKey,
    l: RetentionKey,
)
    ensures
        key_lt(t, s) <==> t.secs < s.secs,
        key_lt(x, y) <==> x.hi < y.hi || x.hi == y.hi && x.lo < y.lo,
        key_lt((t, x), (s, y)) <==> t.secs < s.secs || t == s && key_lt(x, y),
        key_lt((t, x.hi), (s, y.hi)) <==> t.secs < s.secs || t == s && x.hi < y.hi,
        k.score_hi < l.score_hi ==> key_lt(k, l) && !key_lt(l, k),
        k.score_hi == l.score_hi && k.score_lo < l.score_lo ==> key_lt(k, l) && !key_lt(l, k),
        k.score_hi == l.score_hi && k.score_lo == l.score_lo ==> (key_lt(k, l) <==> key_lt(
            k.event,
            l.event,
        )),
{
    lemma_timestamp_key(t, s);
    lemma_order_key(
        EventOrder { timestamp: t, event_id: x },
        EventOrder { timestamp: t, event_id: y },
    );
    lemma_pair_lt(t, x, t, y);
    lemma_key_irreflexive(t);
    lemma_pair_lt(t, x, s, y);
    lemma_pair_lt(t, x.hi, s, y.hi);
    lemma_u64_lt(x.hi, y.hi);
    lemma_pair_lt(k.score_hi, (k.score_lo, k.event), l.score_hi, (l.score_lo, l.event));
    lemma_pair_lt(l.score_hi, (l.score_lo, l.event), k.score_hi, (k.score_lo, k.event));
    lemma_pair_lt(k.score_lo, k.event, l.score_lo, l.event);
    lemma_pair_lt(l.score_lo, l.event, k.score_lo, k.event);
    lemma_u64_lt(k.score_hi, l.score_hi);
    lemma_u64_lt(l.score_hi, k.score_hi);
    lemma_u64_lt(k.score_lo, l.score_lo);
    lemma_u64_lt(l.score_lo, k.score_lo);
}

/// An operation that gave a result did what was wanted, with that result and
/// that state; one that failed did so because the storage failed, or because
/// that is what was wanted. Only a failure to open, read, write or understand a
/// row is one of the storage.
pub proof fn law_outcomes_told<T, S>(
    res: DbResult<T>,
    done: DbResult<()>,
    after: S,
    want: Effect<T, S>,
    left_want: Result<S, DbError>,
    sure: (T, S),
)
    ensures
        ran(res, after, want) && res is Ok ==> want is Ok && want->Ok_0 == (res->Ok_0, after),
        ran(res, after, want) && res is Err ==> res->Err_0 is Table || res->Err_0 is Row
            || res->Err_0 is Malformed || (want is Err && want->Err_0 == res->Err_0),
        did(res, after, sure) && res is Ok ==> sure == (res->Ok_0, after),
        did(res, after, sure) && res is Err ==> res->Err_0 is Table || res->Err_0 is Row
            || res->Err_0 is Malformed,
        left(done, after, left_want) && done is Ok ==> left_want is Ok && left_want->Ok_0 == after,
        left(done, after, left_want) && done is Err ==> done->Err_0 is Table || done->Err_0 is Row
            || done->Err_0 is Malformed || (left_want is Err && left_want->Err_0 == done->Err_0),
{
}

/// The same holds of what processing a payload gave: a result, that the payload
/// is not what its kind asks for, or an error.
pub proof fn law_processing_told<T: View, S>(
    res: ProcessEventResult<T>,
    step: DbResult<Option<T>>,
    after: S,
    want: Effect<Option<T::V>, S>,
    taken: DbResult<(ContentOutcome, Vec<Action>)>,
    db: DbState,
    wanted: Effect<(ContentOutcome, Seq<Action>), DbState>,
)
    ensures
        processed(res, after, want) ==> match res {
            Ok(value) => want is Ok && want->Ok_0 == (Some(value@), after),
            Err(ProcessEventError::Invalid) => want is Ok && want->Ok_0 == (None::<T::V>, after),
            Err(ProcessEventError::Db(e)) => e is Table || e is Row || e is Malformed || (want
                is Err && want->Err_0 == e),
        },
        stepped(step, after, want) ==> match step {
            Ok(Some(value)) => want is Ok && want->Ok_0 == (Some(value@), after),
            Ok(None) => want is Ok && want->Ok_0 == (None::<T::V>, after),
            Err(e) => e is Table || e is Row || e is Malformed || (want is Err && want->Err_0 == e),
        },
        content_ran(taken, db, wanted) ==> match taken {
            Ok((outcome, actions)) => wanted is Ok && wanted->Ok_0 == ((outcome, actions@), db),
            Err(e) => e is Table || e is Row || e is Malformed || (wanted is Err && wanted->Err_0
                == e),
        },
{
}

/// The allowances of a turn can be enforced just where none is zero and no more
/// rows are allowed than one call visits.
pub proof fn law_allowances_valid(l: PayloadRuntimeLimits)
    ensures
        l.valid() <==> l.operations@ <= PAYLOAD_MAINTENANCE_MAX && l.bytes != 0 && l.gc_bytes != 0
            && l.time != 0,
{
}

/// The key next to a place is one of the table, and no other lies between them;
/// it is on the side looked at first wherever there is one on that side.
pub proof fn law_next_to<K: Words, M>(m: Map<K, M>, pivot: K, upwards: bool, key: K)
    requires
        is_next_to(m, pivot, upwards, key),
    ensures
        m.contains_key(key),
        forall|k: K| #[trigger]
            m.contains_key(k) && upwards && key_le(pivot, k) ==> key_le(pivot, key) && key_le(
                key,
                k,
            ),
        forall|k: K| #[trigger]
            m.contains_key(k) && !upwards && key_lt(k, pivot) ==> key_lt(key, pivot) && key_le(
                k,
                key,
            ),
{
}

}
