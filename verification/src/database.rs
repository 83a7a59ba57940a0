//! The database as its account sees it.

use vstd::prelude::*;

use crate::ids::{RostraId, Timestamp};

verus! {

/// Whose database it is, and since when.
#[derive(Debug, Clone, Copy, PartialEq, Eq, Structural)]
pub struct Database {
    /// The local user.
    pub self_id: RostraId,
    /// When the database was created.
    pub db_init_time: Timestamp,
    /// Payloads of this length or more are not kept.
    pub max_content_len: u32,
}

impl Database {
    /// The same database as if it had been created before every event: what
    /// comes is then always received now.
    pub open spec fn always_fresh(self) -> Database {
        Database { db_init_time: Timestamp { secs: 0 }, ..self }
    }
}

}
