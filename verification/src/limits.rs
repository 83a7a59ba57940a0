//! Bounds on what is kept and on what one call does.

use vstd::prelude::*;

use crate::database::Database;
use crate::error::{DbError, DbResult};

verus! {

/// The most rows that one maintenance call visits.
pub const PAYLOAD_MAINTENANCE_MAX: usize = 4096;

/// A number of rows, never zero.
#[derive(Debug, Clone, Copy, PartialEq, Eq, Structural)]
pub struct Limit {
    n: usize,
}

impl View for Limit {
    type V = nat;

    closed spec fn view(&self) -> nat {
        self.n as nat
    }
}

impl Limit {
    #[verifier::type_invariant]
    spec fn not_zero(self) -> bool {
        self.n > 0
    }

    pub fn get(&self) -> (n: usize)
        ensures
            n == self@,
            n > 0,
    {
        proof {
            use_type_invariant(self);
        }
        self.n
    }
}

/// A limit of `n` rows.
pub fn limit(n: usize) -> (res: Limit)
    requires
        n > 0,
    ensures
        res@ == n,
{
    Limit { n }
}

/// What one turn of background maintenance may do.
#[derive(Debug, Clone, Copy, PartialEq, Eq, Structural)]
pub struct PayloadRuntimeLimits {
    /// Rows.
    pub operations: Limit,
    /// Payload bytes released.
    pub bytes: u64,
    /// Payload bytes collected.
    pub gc_bytes: u64,
    /// Milliseconds.
    pub time: u64,
}

impl PayloadRuntimeLimits {
    /// Each allowance lets something be done, and none is above what a call
    /// visits.
    pub open spec fn valid(self) -> bool {
        &&& self.operations@ <= PAYLOAD_MAINTENANCE_MAX
        &&& self.bytes > 0
        &&& self.gc_bytes > 0
        &&& self.time > 0
    }

    /// Whether the allowances can be enforced.
    pub fn is_valid(&self) -> (res: bool)
        ensures
            res == self.valid(),
    {
        self.operations.get() <= PAYLOAD_MAINTENANCE_MAX && self.bytes > 0 && self.gc_bytes > 0
            && self.time > 0
    }
}

/// How many bytes of payloads are admitted.
#[derive(Debug, Clone, Copy, PartialEq, Eq, Structural)]
pub struct PayloadAdmissionConfig {
    /// Of all authors together.
    pub database_bytes: u64,
    /// Of each author.
    pub author_bytes: u64,
    /// Payloads on their way at a time.
    pub in_flight_count: Limit,
    /// Bytes on their way at a time.
    pub in_flight_bytes: u64,
}

/// The allowances of a turn for a small store.
pub fn limits() -> (res: PayloadRuntimeLimits)
    ensures
        res.operations@ == 32,
        res.bytes == 100_000,
        res.gc_bytes == 100_000,
        res.time == 20,
        res.valid(),
{
    PayloadRuntimeLimits { operations: limit(32), bytes: 100_000, gc_bytes: 100_000, time: 20 }
}

/// Admission of so many bytes, of one author or of all.
pub fn admission(bytes: u64) -> (res: PayloadAdmissionConfig)
    requires
        bytes > 0,
    ensures
        res.database_bytes == bytes,
        res.author_bytes == bytes,
        res.in_flight_count@ == 8,
        res.in_flight_bytes == 100_000,
{
    PayloadAdmissionConfig {
        database_bytes: bytes,
        author_bytes: bytes,
        in_flight_count: limit(8),
        in_flight_bytes: 100_000,
    }
}

impl Database {
    /// Refuses a limit above what one call visits.
    pub fn retention_limit(limit: Limit) -> (res: DbResult<()>)
        ensures
            match res {
                Ok(()) => limit@ <= PAYLOAD_MAINTENANCE_MAX,
                Err(e) => limit@ > PAYLOAD_MAINTENANCE_MAX && e is PayloadMaintenanceLimit,
            },
    {
        if limit.get() > PAYLOAD_MAINTENANCE_MAX {
            return Err(DbError::PayloadMaintenanceLimit);
        }
        Ok(())
    }
}

}
