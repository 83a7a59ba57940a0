//! The order in which things were received.

use vstd::prelude::*;

use crate::database::Database;
use crate::error::{ran, refusal_keeps, unread, DbError, DbResult, Effect};
use crate::ids::Timestamp;
use crate::table::{Table, Value};

verus! {

/// The next reception order to hand out.
pub open spec fn next_order(m: Map<(), u64>) -> u64 {
    if m.contains_key(()) {
        m[()]
    } else {
        0
    }
}

/// A row is added under a time and the next reception order, which is then
/// used up. Nothing is added in place of another row.
pub open spec fn received<M>(
    order_next: Map<(), u64>,
    rows: Map<(Timestamp, u64), M>,
    ts: Timestamp,
    value: M,
) -> Effect<u64, (Map<(), u64>, Map<(Timestamp, u64), M>)> {
    let order = next_order(order_next);
    if order == u64::MAX {
        Err(DbError::ReceptionOrderExhausted)
    } else if rows.contains_key((ts, order)) {
        Err(DbError::Occupied)
    } else {
        Ok(
            (
                order,
                (
                    order_next.insert((), (order + 1) as u64),
                    rows.insert((ts, order), value),
                ),
            ),
        )
    }
}

impl Database {
    /// Adds a row under a time and the next reception order; see [`received`].
    pub fn insert_reception_ordered_tx<V: Value>(
        ts: Timestamp,
        value: &V,
        reception_order_next: &mut Table<'_, (), u64>,
        table: &mut Table<'_, (Timestamp, u64), V>,
    ) -> (res: DbResult<u64>)
        ensures
            ran(
                res,
                (final(reception_order_next)@, final(table)@),
                received(old(reception_order_next)@, old(table)@, ts, value.model()),
            ),
            refusal_keeps(
                res,
                (old(reception_order_next)@, old(table)@),
                (final(reception_order_next)@, final(table)@),
            ),
            unread(res) ==> !(old(reception_order_next).intact() && old(table).intact()),
            res is Ok && old(reception_order_next).intact() && old(table).intact() ==> final(reception_order_next).intact(),
            res is Ok && old(reception_order_next).intact() && old(table).intact() ==> final(table).intact(),
    {
        let order: u64 = match reception_order_next.get(&())? {
            Some(order) => order,
            None => 0,
        };
        match order.checked_add(1) {
            Some(next) => {
                if table.contains(&(ts, order))? {
                    return Err(DbError::Occupied);
                }
                table.insert(&(ts, order), value)?;
                reception_order_next.insert(&(), &next)?;
                Ok(order)
            },
            None => Err(DbError::ReceptionOrderExhausted),
        }
    }
}

/// Orders are handed out once each: the next one is always greater, and no
/// row is lost.
pub proof fn law_reception_strictly_ordered<M>(
    order_next: Map<(), u64>,
    rows: Map<(Timestamp, u64), M>,
    ts: Timestamp,
    value: M,
)
    ensures
        received(order_next, rows, ts, value) matches Ok((order, (next, after))) ==> {
            &&& order == next_order(order_next)
            &&& next_order(next) == order + 1
            &&& after[(ts, order)] == value
            &&& forall|k: (Timestamp, u64)| #[trigger]
                rows.contains_key(k) ==> after.contains_key(k) && after[k] == rows[k]
        },
{
}

}
