//! The local account, and random choices among its events.

use vstd::prelude::*;

use rand::Rng;

use crate::database::Database;
use crate::error::{unread, DbResult};
use crate::ids::{Bytes32, ExternalEventId, RostraId, ShortEventId};
use crate::listing::{key_le, key_lt};
use crate::table::{is_first_from, is_last_before, Table, Value};
use crate::tables::IdSelfAccountRecord;
use crate::words::Words;

verus! {

/// A random word by `rand::Rng::random` on the thread's generator. Nothing is
/// claimed of it: every value may come.
#[verifier::external_body]
fn random_word() -> (res: u64) {
    rand::rng().random()
}

/// A random choice by `rand::Rng::random` on the thread's generator. Nothing
/// is claimed of it: either may come.
#[verifier::external_body]
fn random_choice() -> (res: bool) {
    rand::rng().random()
}

/// A key that can be drawn at random.
pub trait RandomTableKey: Words {
    /// Any key whatever.
    fn random_key() -> Self;
}

impl RandomTableKey for ShortEventId {
    fn random_key() -> Self {
        ShortEventId { hi: random_word(), lo: random_word() }
    }
}

fn random_bytes32() -> Bytes32 {
    Bytes32 { a: random_word(), b: random_word(), c: random_word(), d: random_word() }
}

impl RandomTableKey for ExternalEventId {
    fn random_key() -> Self {
        ExternalEventId {
            rostra_id: RostraId { bytes: random_bytes32() },
            event_id: ShortEventId::random_key(),
        }
    }
}

/// The key that a table has next to a pivot: on the preferred side if there
/// is one, the pivot counting as above, else on the other side.
pub open spec fn is_next_to<K: Words, M>(m: Map<K, M>, pivot: K, upwards: bool, key: K) -> bool {
    if upwards {
        is_first_from(m, pivot, key) || (is_last_before(m, pivot, key) && forall|k: K| #[trigger]
            m.contains_key(k) ==> key_lt(k, pivot))
    } else {
        is_last_before(m, pivot, key) || (is_first_from(m, pivot, key) && forall|k: K| #[trigger]
            m.contains_key(k) ==> key_le(pivot, k))
    }
}

impl Database {
    /// The key next to a pivot, looking first above or first below it; none
    /// only where the table is empty.
    pub fn get_table_key_near<K: Words, V: Value>(
        table: &Table<'_, K, V>,
        pivot: &K,
        upwards: bool,
    ) -> (res: DbResult<Option<K>>)
        ensures
            match res {
                Ok(Some(key)) => is_next_to(table@, *pivot, upwards, key),
                Ok(None) => forall|k: K| !#[trigger] table@.contains_key(k),
                Err(e) => e.is_fault(),
            },
            unread(res) ==> !table.intact(),
    {
        if upwards {
            if let Some((key, _)) = table.first_from(pivot)? {
                return Ok(Some(key));
            }
            match table.last_before(pivot)? {
                Some((key, _)) => Ok(Some(key)),
                None => Ok(None),
            }
        } else {
            if let Some((key, _)) = table.last_before(pivot)? {
                return Ok(Some(key));
            }
            match table.first_from(pivot)? {
                Some((key, _)) => Ok(Some(key)),
                None => Ok(None),
            }
        }
    }

    /// A key next to a random pivot, on a random side; none only where the
    /// table is empty.
    pub fn get_random_table_key<K: RandomTableKey, V: Value>(table: &Table<'_, K, V>) -> (res:
        DbResult<Option<K>>)
        ensures
            match res {
                Ok(Some(key)) => table@.contains_key(key),
                Ok(None) => forall|k: K| !#[trigger] table@.contains_key(k),
                Err(e) => e.is_fault(),
            },
            unread(res) ==> !table.intact(),
    {
        let pivot = K::random_key();
        Self::get_table_key_near(table, &pivot, random_choice())
    }

    /// One of the local user's events; none only where there is none.
    pub fn get_random_self_event(events_self: &Table<'_, ShortEventId, ()>) -> (res: DbResult<
        Option<ShortEventId>,
    >)
        ensures
            match res {
                Ok(Some(id)) => events_self@.contains_key(id),
                Ok(None) => forall|id: ShortEventId| !#[trigger] events_self@.contains_key(id),
                Err(e) => e.is_fault(),
            },
            unread(res) ==> !events_self.intact(),
    {
        Self::get_random_table_key(events_self)
    }

    /// The local account.
    pub fn read_self_id_tx(ids_self: &Table<'_, (), IdSelfAccountRecord>) -> (res: DbResult<
        Option<IdSelfAccountRecord>,
    >)
        ensures
            match res {
                Ok(record) => record == (if ids_self@.contains_key(()) {
                    Some(ids_self@[()])
                } else {
                    None
                }),
                Err(e) => e.is_fault(),
            },
            unread(res) ==> !ids_self.intact(),
    {
        ids_self.get(&())
    }

    /// Sets the local account, with the given secret of its network identity.
    pub fn write_self_account_tx(
        self_id: RostraId,
        iroh_secret: Bytes32,
        ids_self: &mut Table<'_, (), IdSelfAccountRecord>,
    ) -> (res: DbResult<IdSelfAccountRecord>)
        ensures
            match res {
                Ok(record) => {
                    &&& record == (IdSelfAccountRecord { rostra_id: self_id, iroh_secret })
                    &&& final(ids_self)@ == old(ids_self)@.insert((), record)
                },
                Err(e) => e.is_fault(),
            },
            unread(res) ==> !old(ids_self).intact(),
            res is Ok && old(ids_self).intact() ==> final(ids_self).intact(),
    {
        let record = IdSelfAccountRecord { rostra_id: self_id, iroh_secret };
        ids_self.insert(&(), &record)?;
        Ok(record)
    }

    /// Sets the local account, with a random secret of its network identity.
    pub fn write_self_id_tx(
        self_id: RostraId,
        ids_self: &mut Table<'_, (), IdSelfAccountRecord>,
    ) -> (res: DbResult<IdSelfAccountRecord>)
        ensures
            match res {
                Ok(record) => {
                    &&& record.rostra_id == self_id
                    &&& final(ids_self)@ == old(ids_self)@.insert((), record)
                },
                Err(e) => e.is_fault(),
            },
            unread(res) ==> !old(ids_self).intact(),
            res is Ok && old(ids_self).intact() ==> final(ids_self).intact(),
    {
        Self::write_self_account_tx(self_id, random_bytes32(), ids_self)
    }

    /// The secret of the local network identity, once the account is set.
    pub fn read_iroh_secret_tx(ids_self: &Table<'_, (), IdSelfAccountRecord>) -> (res: DbResult<
        Option<Bytes32>,
    >)
        ensures
            match res {
                Ok(secret) => secret == (if ids_self@.contains_key(()) {
                    Some(ids_self@[()].iroh_secret)
                } else {
                    None
                }),
                Err(e) => e.is_fault(),
            },
            unread(res) ==> !ids_self.intact(),
    {
        match ids_self.get(&())? {
            Some(record) => Ok(Some(record.iroh_secret)),
            None => Ok(None),
        }
    }
}

}
