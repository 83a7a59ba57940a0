//! Storage used by identities.

use vstd::prelude::*;

use crate::database::Database;
use crate::error::{ran, refusal_keeps, unread, DbError, DbResult, Effect};
use crate::event::EventContentState;
use crate::ids::RostraId;
use crate::table::Table;
use crate::tables::IdsDataUsageRecord;

verus! {

/// Bytes of an event envelope: the event and its signature.
pub const EVENT_METADATA_SIZE: u64 = 192;

/// The lifecycle states between which payloads are divided.
#[derive(Debug, Clone, Copy, PartialEq, Eq, Structural)]
pub enum Bucket {
    Current,
    Missing,
    Deleted,
    Pruned,
    Invalid,
}

/// The bucket of a payload in the given state.
pub open spec fn bucket_of(state: Option<EventContentState>) -> Bucket {
    match state {
        None => Bucket::Current,
        Some(EventContentState::Missing { .. }) => Bucket::Missing,
        Some(EventContentState::Deleted { .. }) => Bucket::Deleted,
        Some(EventContentState::Pruned) => Bucket::Pruned,
        Some(EventContentState::Invalid) => Bucket::Invalid,
    }
}

/// The bucket of a payload in the given state.
pub fn bucket_for(state: Option<EventContentState>) -> (res: Bucket)
    ensures
        res == bucket_of(state),
{
    match state {
        None => Bucket::Current,
        Some(EventContentState::Missing { .. }) => Bucket::Missing,
        Some(EventContentState::Deleted { .. }) => Bucket::Deleted,
        Some(EventContentState::Pruned) => Bucket::Pruned,
        Some(EventContentState::Invalid) => Bucket::Invalid,
    }
}

impl IdsDataUsageRecord {
    /// Nothing is used.
    pub open spec fn empty() -> IdsDataUsageRecord {
        IdsDataUsageRecord {
            current_metadata_size: 0,
            total_metadata_size: 0,
            current_metadata_num: 0,
            total_metadata_num: 0,
            current_content_size: 0,
            total_content_size: 0,
            current_payload_num: 0,
            total_payload_num: 0,
            missing_payload_size: 0,
            missing_payload_num: 0,
            deleted_payload_size: 0,
            deleted_payload_num: 0,
            pruned_payload_size: 0,
            pruned_payload_num: 0,
            invalid_payload_size: 0,
            invalid_payload_num: 0,
        }
    }

    /// Bytes in a bucket.
    pub open spec fn size_in(self, b: Bucket) -> u64 {
        match b {
            Bucket::Current => self.current_content_size,
            Bucket::Missing => self.missing_payload_size,
            Bucket::Deleted => self.deleted_payload_size,
            Bucket::Pruned => self.pruned_payload_size,
            Bucket::Invalid => self.invalid_payload_size,
        }
    }

    /// Payloads in a bucket.
    pub open spec fn num_in(self, b: Bucket) -> u64 {
        match b {
            Bucket::Current => self.current_payload_num,
            Bucket::Missing => self.missing_payload_num,
            Bucket::Deleted => self.deleted_payload_num,
            Bucket::Pruned => self.pruned_payload_num,
            Bucket::Invalid => self.invalid_payload_num,
        }
    }

    /// The record with another bucket.
    pub open spec fn with(self, b: Bucket, size: u64, num: u64) -> IdsDataUsageRecord {
        match b {
            Bucket::Current => IdsDataUsageRecord {
                current_content_size: size,
                current_payload_num: num,
                ..self
            },
            Bucket::Missing => IdsDataUsageRecord {
                missing_payload_size: size,
                missing_payload_num: num,
                ..self
            },
            Bucket::Deleted => IdsDataUsageRecord {
                deleted_payload_size: size,
                deleted_payload_num: num,
                ..self
            },
            Bucket::Pruned => IdsDataUsageRecord {
                pruned_payload_size: size,
                pruned_payload_num: num,
                ..self
            },
            Bucket::Invalid => IdsDataUsageRecord {
                invalid_payload_size: size,
                invalid_payload_num: num,
                ..self
            },
        }
    }

    /// A payload comes into a bucket.
    pub open spec fn entered(self, b: Bucket, len: u32) -> Option<IdsDataUsageRecord> {
        if self.size_in(b) + len <= u64::MAX && self.num_in(b) < u64::MAX {
            Some(self.with(b, (self.size_in(b) + len) as u64, (self.num_in(b) + 1) as u64))
        } else {
            None
        }
    }

    /// A payload leaves a bucket.
    pub open spec fn left(self, b: Bucket, len: u32) -> Option<IdsDataUsageRecord> {
        if len <= self.size_in(b) && 1 <= self.num_in(b) {
            Some(self.with(b, (self.size_in(b) - len) as u64, (self.num_in(b) - 1) as u64))
        } else {
            None
        }
    }

    /// A payload comes to be known of.
    pub open spec fn counted(self, len: u32) -> Option<IdsDataUsageRecord> {
        if self.total_content_size + len <= u64::MAX && self.total_payload_num < u64::MAX {
            Some(
                IdsDataUsageRecord {
                    total_content_size: (self.total_content_size + len) as u64,
                    total_payload_num: (self.total_payload_num + 1) as u64,
                    ..self
                },
            )
        } else {
            None
        }
    }

    /// An event envelope is stored.
    pub open spec fn with_event(self) -> Option<IdsDataUsageRecord> {
        if self.current_metadata_size + EVENT_METADATA_SIZE <= u64::MAX && self.total_metadata_size
            + EVENT_METADATA_SIZE <= u64::MAX && self.current_metadata_num < u64::MAX
            && self.total_metadata_num < u64::MAX {
            Some(
                IdsDataUsageRecord {
                    current_metadata_size: (self.current_metadata_size
                        + EVENT_METADATA_SIZE) as u64,
                    total_metadata_size: (self.total_metadata_size + EVENT_METADATA_SIZE) as u64,
                    current_metadata_num: (self.current_metadata_num + 1) as u64,
                    total_metadata_num: (self.total_metadata_num + 1) as u64,
                    ..self
                },
            )
        } else {
            None
        }
    }

    /// A new payload starts out in a bucket.
    pub open spec fn with_payload(self, b: Bucket, len: u32) -> Option<IdsDataUsageRecord> {
        match self.counted(len) {
            Some(u) => u.entered(b, len),
            None => None,
        }
    }

    /// A payload goes from one bucket to another.
    pub open spec fn moved(self, from: Bucket, to: Bucket, len: u32) -> Option<IdsDataUsageRecord> {
        match self.left(from, len) {
            Some(u) => u.entered(to, len),
            None => None,
        }
    }

    /// Every envelope known of is stored, and every payload known of is in
    /// one bucket.
    pub open spec fn balanced(self) -> bool {
        &&& self.current_metadata_size == self.total_metadata_size
        &&& self.current_metadata_num == self.total_metadata_num
        &&& self.total_content_size == self.current_content_size + self.deleted_payload_size
            + self.pruned_payload_size + self.missing_payload_size + self.invalid_payload_size
        &&& self.total_payload_num == self.current_payload_num + self.deleted_payload_num
            + self.pruned_payload_num + self.missing_payload_num + self.invalid_payload_num
    }

    fn enter(&mut self, b: Bucket, len: u32) -> (res: Result<(), DbError>)
        ensures
            match res {
                Ok(()) => old(self).entered(b, len) == Some(*final(self)),
                Err(e) => old(self).entered(b, len) is None && e is Overflow,
            },
    {
        let len: u64 = len as u64;
        let (size, num): (u64, u64) = self.amounts(b);
        match (size.checked_add(len), num.checked_add(1)) {
            (Some(size), Some(num)) => {
                self.set_amounts(b, size, num);
                Ok(())
            },
            _ => Err(DbError::Overflow),
        }
    }

    fn leave(&mut self, b: Bucket, len: u32) -> (res: Result<(), DbError>)
        ensures
            match res {
                Ok(()) => old(self).left(b, len) == Some(*final(self)),
                Err(e) => old(self).left(b, len) is None && e is Overflow,
            },
    {
        let len: u64 = len as u64;
        let (size, num): (u64, u64) = self.amounts(b);
        match (size.checked_sub(len), num.checked_sub(1)) {
            (Some(size), Some(num)) => {
                self.set_amounts(b, size, num);
                Ok(())
            },
            _ => Err(DbError::Overflow),
        }
    }

    fn amounts(&self, b: Bucket) -> (res: (u64, u64))
        ensures
            res == (self.size_in(b), self.num_in(b)),
    {
        match b {
            Bucket::Current => (self.current_content_size, self.current_payload_num),
            Bucket::Missing => (self.missing_payload_size, self.missing_payload_num),
            Bucket::Deleted => (self.deleted_payload_size, self.deleted_payload_num),
            Bucket::Pruned => (self.pruned_payload_size, self.pruned_payload_num),
            Bucket::Invalid => (self.invalid_payload_size, self.invalid_payload_num),
        }
    }

    fn set_amounts(&mut self, b: Bucket, size: u64, num: u64)
        ensures
            *final(self) == old(self).with(b, size, num),
    {
        match b {
            Bucket::Current => {
                self.current_content_size = size;
                self.current_payload_num = num;
            },
            Bucket::Missing => {
                self.missing_payload_size = size;
                self.missing_payload_num = num;
            },
            Bucket::Deleted => {
                self.deleted_payload_size = size;
                self.deleted_payload_num = num;
            },
            Bucket::Pruned => {
                self.pruned_payload_size = size;
                self.pruned_payload_num = num;
            },
            Bucket::Invalid => {
                self.invalid_payload_size = size;
                self.invalid_payload_num = num;
            },
        }
    }

    /// Counts an event envelope; [`DbError::Overflow`] where a counter cannot
    /// hold it.
    pub fn add_event(&mut self) -> (res: Result<(), DbError>)
        ensures
            match res {
                Ok(()) => old(self).with_event() == Some(*final(self)),
                Err(e) => old(self).with_event() is None && e is Overflow,
            },
    {
        match (
            self.current_metadata_size.checked_add(EVENT_METADATA_SIZE),
            self.total_metadata_size.checked_add(EVENT_METADATA_SIZE),
            self.current_metadata_num.checked_add(1),
            self.total_metadata_num.checked_add(1),
        ) {
            (Some(current_size), Some(total_size), Some(current_num), Some(total_num)) => {
                self.current_metadata_size = current_size;
                self.total_metadata_size = total_size;
                self.current_metadata_num = current_num;
                self.total_metadata_num = total_num;
                Ok(())
            },
            _ => Err(DbError::Overflow),
        }
    }

    /// Counts a new payload in a bucket; [`DbError::Overflow`] where a counter
    /// cannot hold it.
    pub fn add_payload(&mut self, b: Bucket, len: u32) -> (res: Result<(), DbError>)
        ensures
            match res {
                Ok(()) => old(self).with_payload(b, len) == Some(*final(self)),
                Err(e) => old(self).with_payload(b, len) is None && e is Overflow,
            },
    {
        match (
            self.total_content_size.checked_add(len as u64),
            self.total_payload_num.checked_add(1),
        ) {
            (Some(size), Some(num)) => {
                self.total_content_size = size;
                self.total_payload_num = num;
                self.enter(b, len)
            },
            _ => Err(DbError::Overflow),
        }
    }

    /// Moves a payload between buckets; [`DbError::Overflow`] where it is not
    /// in the first one or a counter cannot hold it.
    pub fn move_payload(&mut self, from: Bucket, to: Bucket, len: u32) -> (res: Result<
        (),
        DbError,
    >)
        ensures
            match res {
                Ok(()) => old(self).moved(from, to, len) == Some(*final(self)),
                Err(e) => old(self).moved(from, to, len) is None && e is Overflow,
            },
    {
        self.leave(from, len)?;
        self.enter(to, len)
    }
}

impl Default for IdsDataUsageRecord {
    fn default() -> (res: IdsDataUsageRecord)
        ensures
            res == IdsDataUsageRecord::empty(),
    {
        IdsDataUsageRecord {
            current_metadata_size: 0,
            total_metadata_size: 0,
            current_metadata_num: 0,
            total_metadata_num: 0,
            current_content_size: 0,
            total_content_size: 0,
            current_payload_num: 0,
            total_payload_num: 0,
            missing_payload_size: 0,
            missing_payload_num: 0,
            deleted_payload_size: 0,
            deleted_payload_num: 0,
            pruned_payload_size: 0,
            pruned_payload_num: 0,
            invalid_payload_size: 0,
            invalid_payload_num: 0,
        }
    }
}

/// The usage of an identity: its row, or nothing where it has none.
pub open spec fn usage_of(m: Map<RostraId, IdsDataUsageRecord>, author: RostraId) -> IdsDataUsageRecord {
    if m.contains_key(author) {
        m[author]
    } else {
        IdsDataUsageRecord::empty()
    }
}

/// The usage row of an identity is replaced, or the update does not fit.
pub open spec fn usage_set(
    m: Map<RostraId, IdsDataUsageRecord>,
    author: RostraId,
    next: Option<IdsDataUsageRecord>,
) -> Effect<(), Map<RostraId, IdsDataUsageRecord>> {
    match next {
        Some(u) => Ok(((), m.insert(author, u))),
        None => Err(DbError::Overflow),
    }
}

/// Usage of an identity after one of its payloads was deleted: a payload that
/// is deleted already cannot be deleted again.
pub open spec fn usage_deleted(
    m: Map<RostraId, IdsDataUsageRecord>,
    author: RostraId,
    len: u32,
    state: Option<EventContentState>,
) -> Effect<(), Map<RostraId, IdsDataUsageRecord>> {
    if bucket_of(state) is Deleted {
        Err(DbError::PayloadAccountingInvariant)
    } else {
        usage_set(m, author, usage_of(m, author).moved(bucket_of(state), Bucket::Deleted, len))
    }
}

/// Usage of an identity after one of its payloads was pruned: only a missing
/// or a processed payload can be.
pub open spec fn usage_pruned(
    m: Map<RostraId, IdsDataUsageRecord>,
    author: RostraId,
    len: u32,
    state: Option<EventContentState>,
) -> Effect<(), Map<RostraId, IdsDataUsageRecord>> {
    if bucket_of(state) is Current || bucket_of(state) is Missing {
        usage_set(m, author, usage_of(m, author).moved(bucket_of(state), Bucket::Pruned, len))
    } else {
        Err(DbError::PayloadAccountingInvariant)
    }
}

impl Database {
    /// The usage of an identity.
    pub fn get_data_usage_tx(
        author: RostraId,
        ids_data_usage: &Table<'_, RostraId, IdsDataUsageRecord>,
    ) -> (res: DbResult<IdsDataUsageRecord>)
        ensures
            match res {
                Ok(u) => u == usage_of(ids_data_usage@, author),
                Err(e) => e.is_fault(),
            },
            unread(res) ==> !ids_data_usage.intact(),
    {
        match ids_data_usage.get(&author)? {
            Some(u) => Ok(u),
            None => Ok(IdsDataUsageRecord::default()),
        }
    }

    /// Counts a newly stored event.
    pub fn track_new_event_tx(
        author: RostraId,
        ids_data_usage: &mut Table<'_, RostraId, IdsDataUsageRecord>,
    ) -> (res: DbResult<()>)
        ensures
            ran(
                res,
                final(ids_data_usage)@,
                usage_set(
                    old(ids_data_usage)@,
                    author,
                    usage_of(old(ids_data_usage)@, author).with_event(),
                ),
            ),
            refusal_keeps(res, old(ids_data_usage)@, final(ids_data_usage)@),
            unread(res) ==> !old(ids_data_usage).intact(),
            res is Ok && old(ids_data_usage).intact() ==> final(ids_data_usage).intact(),
    {
        let mut usage = Self::get_data_usage_tx(author, ids_data_usage)?;
        usage.add_event()?;
        ids_data_usage.insert(&author, &usage)
    }

    /// Counts a new payload, missing at first.
    pub fn track_new_payload_tx(
        author: RostraId,
        content_len: u32,
        ids_data_usage: &mut Table<'_, RostraId, IdsDataUsageRecord>,
    ) -> (res: DbResult<()>)
        ensures
            ran(
                res,
                final(ids_data_usage)@,
                usage_set(
                    old(ids_data_usage)@,
                    author,
                    usage_of(old(ids_data_usage)@, author).with_payload(
                        Bucket::Missing,
                        content_len,
                    ),
                ),
            ),
            refusal_keeps(res, old(ids_data_usage)@, final(ids_data_usage)@),
            unread(res) ==> !old(ids_data_usage).intact(),
            res is Ok && old(ids_data_usage).intact() ==> final(ids_data_usage).intact(),
    {
        let mut usage = Self::get_data_usage_tx(author, ids_data_usage)?;
        usage.add_payload(Bucket::Missing, content_len)?;
        ids_data_usage.insert(&author, &usage)
    }

    /// Counts a new payload that is deleted from the start.
    pub fn track_new_deleted_payload_tx(
        author: RostraId,
        content_len: u32,
        ids_data_usage: &mut Table<'_, RostraId, IdsDataUsageRecord>,
    ) -> (res: DbResult<()>)
        ensures
            ran(
                res,
                final(ids_data_usage)@,
                usage_set(
                    old(ids_data_usage)@,
                    author,
                    usage_of(old(ids_data_usage)@, author).with_payload(
                        Bucket::Deleted,
                        content_len,
                    ),
                ),
            ),
            refusal_keeps(res, old(ids_data_usage)@, final(ids_data_usage)@),
            unread(res) ==> !old(ids_data_usage).intact(),
            res is Ok && old(ids_data_usage).intact() ==> final(ids_data_usage).intact(),
    {
        let mut usage = Self::get_data_usage_tx(author, ids_data_usage)?;
        usage.add_payload(Bucket::Deleted, content_len)?;
        ids_data_usage.insert(&author, &usage)
    }

    /// A missing payload was processed.
    pub fn track_payload_processed_tx(
        author: RostraId,
        content_len: u32,
        ids_data_usage: &mut Table<'_, RostraId, IdsDataUsageRecord>,
    ) -> (res: DbResult<()>)
        ensures
            ran(
                res,
                final(ids_data_usage)@,
                usage_set(
                    old(ids_data_usage)@,
                    author,
                    usage_of(old(ids_data_usage)@, author).moved(
                        Bucket::Missing,
                        Bucket::Current,
                        content_len,
                    ),
                ),
            ),
            refusal_keeps(res, old(ids_data_usage)@, final(ids_data_usage)@),
            unread(res) ==> !old(ids_data_usage).intact(),
            res is Ok && old(ids_data_usage).intact() ==> final(ids_data_usage).intact(),
    {
        let mut usage = Self::get_data_usage_tx(author, ids_data_usage)?;
        usage.move_payload(Bucket::Missing, Bucket::Current, content_len)?;
        ids_data_usage.insert(&author, &usage)
    }

    /// A missing payload failed validation.
    pub fn track_payload_invalid_tx(
        author: RostraId,
        content_len: u32,
        ids_data_usage: &mut Table<'_, RostraId, IdsDataUsageRecord>,
    ) -> (res: DbResult<()>)
        ensures
            ran(
                res,
                final(ids_data_usage)@,
                usage_set(
                    old(ids_data_usage)@,
                    author,
                    usage_of(old(ids_data_usage)@, author).moved(
                        Bucket::Missing,
                        Bucket::Invalid,
                        content_len,
                    ),
                ),
            ),
            refusal_keeps(res, old(ids_data_usage)@, final(ids_data_usage)@),
            unread(res) ==> !old(ids_data_usage).intact(),
            res is Ok && old(ids_data_usage).intact() ==> final(ids_data_usage).intact(),
    {
        let mut usage = Self::get_data_usage_tx(author, ids_data_usage)?;
        usage.move_payload(Bucket::Missing, Bucket::Invalid, content_len)?;
        ids_data_usage.insert(&author, &usage)
    }

    /// A payload in the given state was deleted by its author.
    pub fn track_payload_deletion_tx(
        author: RostraId,
        content_len: u32,
        old_state: Option<EventContentState>,
        ids_data_usage: &mut Table<'_, RostraId, IdsDataUsageRecord>,
    ) -> (res: DbResult<()>)
        ensures
            ran(
                res,
                final(ids_data_usage)@,
                usage_deleted(old(ids_data_usage)@, author, content_len, old_state),
            ),
            refusal_keeps(res, old(ids_data_usage)@, final(ids_data_usage)@),
            unread(res) ==> !old(ids_data_usage).intact(),
            res is Ok && old(ids_data_usage).intact() ==> final(ids_data_usage).intact(),
    {
        let mut usage = Self::get_data_usage_tx(author, ids_data_usage)?;
        let from = bucket_for(old_state);
        if from == Bucket::Deleted {
            return Err(DbError::PayloadAccountingInvariant);
        }
        usage.move_payload(from, Bucket::Deleted, content_len)?;
        ids_data_usage.insert(&author, &usage)
    }

    /// A payload in the given state was pruned.
    pub fn track_payload_pruning_tx(
        author: RostraId,
        content_len: u32,
        old_state: Option<EventContentState>,
        ids_data_usage: &mut Table<'_, RostraId, IdsDataUsageRecord>,
    ) -> (res: DbResult<()>)
        ensures
            ran(
                res,
                final(ids_data_usage)@,
                usage_pruned(old(ids_data_usage)@, author, content_len, old_state),
            ),
            refusal_keeps(res, old(ids_data_usage)@, final(ids_data_usage)@),
            unread(res) ==> !old(ids_data_usage).intact(),
            res is Ok && old(ids_data_usage).intact() ==> final(ids_data_usage).intact(),
    {
        let mut usage = Self::get_data_usage_tx(author, ids_data_usage)?;
        let from = bucket_for(old_state);
        if from != Bucket::Current && from != Bucket::Missing {
            return Err(DbError::PayloadAccountingInvariant);
        }
        usage.move_payload(from, Bucket::Pruned, content_len)?;
        ids_data_usage.insert(&author, &usage)
    }
}

/// Counting an event, counting a payload and moving one keep a record
/// balanced, and nothing is balanced.
pub proof fn law_usage_balanced(u: IdsDataUsageRecord, from: Bucket, to: Bucket, len: u32)
    requires
        u.balanced(),
    ensures
        u.with_event() matches Some(v) ==> v.balanced(),
        u.with_payload(to, len) matches Some(v) ==> v.balanced(),
        u.moved(from, to, len) matches Some(v) ==> v.balanced(),
        IdsDataUsageRecord::empty().balanced(),
{
}

/// A payload that went to another bucket and back leaves the record as it was.
pub proof fn law_usage_move_back(u: IdsDataUsageRecord, from: Bucket, to: Bucket, len: u32)
    requires
        u.moved(from, to, len) is Some,
    ensures
        u.moved(from, to, len)->0.moved(to, from, len) == Some(u),
{
}

/// A move changes the totals of no record, and a balanced record with the
/// payload in the first bucket always has room for it in the second.
pub proof fn law_usage_move_fits(u: IdsDataUsageRecord, from: Bucket, to: Bucket, len: u32)
    requires
        u.balanced(),
        len <= u.size_in(from),
        1 <= u.num_in(from),
    ensures
        u.moved(from, to, len) matches Some(v) && v.total_content_size == u.total_content_size
            && v.total_payload_num == u.total_payload_num,
{
}

}
