//! Errors of database operations.

use vstd::prelude::*;

use crate::ids::ShortEventId;
use crate::table::MalformedRow;

verus! {

/// Why a database operation was not carried out. A transaction in which one of
/// these came up is to be dropped without committing it.
#[derive(Debug)]
pub enum DbError {
    /// A table could not be opened.
    Table(redb::TableError),
    /// A row could not be read or written.
    Row(redb::StorageError),
    /// A row does not hold what its table is for.
    Malformed(MalformedRow),
    /// A counter would leave its range.
    Overflow,
    /// Reference counts or usage records contradict the request.
    PayloadAccountingInvariant,
    /// Usage of payloads was not counted yet.
    PayloadAccountingNotReady,
    /// More rows were asked for than one call visits.
    PayloadMaintenanceLimit,
    /// The event that a deletion is attributed to is not there.
    MissingDeletionAttribution { event_id: ShortEventId },
    /// The post has a reception row already.
    SocialPostReceiptAlreadyIndexed { event_id: ShortEventId },
    /// The reception row of the post names another event, or none.
    SocialPostReceiptMismatch { event_id: ShortEventId, actual_event_id: Option<ShortEventId> },
    /// Every reception order was handed out.
    ReceptionOrderExhausted,
    /// A row that was to be new is there already.
    Occupied,
    /// Edits lead from the post back to one of them.
    CyclicEdits { event_id: ShortEventId },
}

impl DbError {
    /// The storage, not the request or the stored records, is at fault.
    pub open spec fn is_fault(self) -> bool {
        self is Table || self is Row || self is Malformed
    }
}

pub type DbResult<T> = Result<T, DbError>;

/// What an operation does to a state `S`: it returns a value and leaves a
/// state, or it is refused.
pub type Effect<T, S> = Result<(T, S), DbError>;

/// What a result stands for.
pub open spec fn seen<T: View>(res: DbResult<T>) -> DbResult<T::V> {
    match res {
        Ok(value) => Ok(value@),
        Err(e) => Err(e),
    }
}

/// An operation returned `res` and left `after`, as `want` says it does, or
/// the storage failed under it.
pub open spec fn ran<T, S>(res: DbResult<T>, after: S, want: Effect<T, S>) -> bool {
    match res {
        Ok(value) => want == Ok::<(T, S), DbError>((value, after)),
        Err(e) => e.is_fault() || want == Err::<(T, S), DbError>(e),
    }
}

/// An operation that is never refused returned `res` and left `after`, as
/// `want` says it does, or the storage failed under it.
pub open spec fn did<T, S>(res: DbResult<T>, after: S, want: (T, S)) -> bool {
    match res {
        Ok(value) => want == (value, after),
        Err(e) => e.is_fault(),
    }
}

/// An operation left `after` as `want` says, or the storage failed under it.
pub open spec fn left<S>(res: DbResult<()>, after: S, want: Result<S, DbError>) -> bool {
    match res {
        Ok(()) => want == Ok::<S, DbError>(after),
        Err(e) => e.is_fault() || want == Err::<S, DbError>(e),
    }
}

/// The operation met a row that cannot be read.
pub open spec fn unread<T>(res: DbResult<T>) -> bool {
    res matches Err(DbError::Malformed(_))
}

/// An operation that was refused left the state as it was.
pub open spec fn refusal_keeps<T, S>(res: DbResult<T>, before: S, after: S) -> bool {
    match res {
        Ok(_) => true,
        Err(e) => e.is_fault() || after == before,
    }
}

}
