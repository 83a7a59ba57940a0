//! Values of which only the latest version is kept.

use vstd::prelude::*;

use crate::database::Database;
use crate::error::{did, unread, DbResult};
use crate::event::EventSingletonRecord;
use crate::ids::{EventOrder, RostraId, Timestamp};
use crate::profile::{IdSocialProfileRecord, ProfileModel};
use crate::table::{Table, Value};
use crate::tables::Latest;
use crate::words::Words;

verus! {

/// A value that carries the place of the event it came from.
pub trait LatestEventValue: Value {
    spec fn order_of(m: Self::Model) -> EventOrder;

    fn event_order(&self) -> (res: EventOrder)
        ensures
            res == Self::order_of(self.model()),
    ;
}

impl LatestEventValue for Latest<EventSingletonRecord> {
    open spec fn order_of(m: Latest<EventSingletonRecord>) -> EventOrder {
        EventOrder { timestamp: m.ts, event_id: m.inner.event_id }
    }

    fn event_order(&self) -> (res: EventOrder) {
        EventOrder { timestamp: self.ts, event_id: self.inner.event_id }
    }
}

impl LatestEventValue for Latest<IdSocialProfileRecord> {
    open spec fn order_of(m: (Timestamp, ProfileModel)) -> EventOrder {
        EventOrder { timestamp: m.0, event_id: m.1.event_id }
    }

    fn event_order(&self) -> (res: EventOrder) {
        EventOrder { timestamp: self.ts, event_id: self.inner.event_id }
    }
}

/// A value is stored unless the stored one is from the same or a later event.
/// The result says whether it was.
pub open spec fn latest_kept<K: Words, V: LatestEventValue>(
    m: Map<K, V::Model>,
    key: K,
    value: V::Model,
) -> (bool, Map<K, V::Model>) {
    if m.contains_key(key) && V::order_of(value).le(V::order_of(m[key])) {
        (false, m)
    } else {
        (true, m.insert(key, value))
    }
}

impl Database {
    /// Stores a value unless a later one is stored; see [`latest_kept`].
    pub fn insert_latest_value_tx<K: Words, V: LatestEventValue>(
        key: &K,
        value: V,
        table: &mut Table<'_, K, V>,
    ) -> (res: DbResult<bool>)
        ensures
            did(res, final(table)@, latest_kept::<K, V>(old(table)@, *key, value.model())),
            unread(res) ==> !old(table).intact(),
            res is Ok && old(table).intact() ==> final(table).intact(),
    {
        if let Some(existing) = table.get(key)? {
            if !existing.event_order().before(&value.event_order()) {
                return Ok(false);
            }
        }
        table.insert(key, &value)?;
        Ok(true)
    }

    /// The profile of a user.
    pub fn get_social_profile_tx(
        id: RostraId,
        social_profiles: &Table<'_, RostraId, Latest<IdSocialProfileRecord>>,
    ) -> (res: DbResult<Option<IdSocialProfileRecord>>)
        ensures
            match res {
                Ok(Some(profile)) => social_profiles@.contains_key(id) && social_profiles@[id].1
                    == profile@,
                Ok(None) => !social_profiles@.contains_key(id),
                Err(e) => e.is_fault(),
            },
            unread(res) ==> !social_profiles.intact(),
    {
        match social_profiles.get(&id)? {
            Some(latest) => Ok(Some(latest.inner)),
            None => Ok(None),
        }
    }
}

/// What is kept is from the latest event of all that came: a value never
/// gives way to an earlier one.
pub proof fn law_latest_is_greatest<K: Words, V: LatestEventValue>(
    m: Map<K, V::Model>,
    key: K,
    value: V::Model,
)
    ensures
        ({
            let after = latest_kept::<K, V>(m, key, value).1;
            &&& after.contains_key(key)
            &&& V::order_of(value).le(V::order_of(after[key]))
            &&& m.contains_key(key) ==> V::order_of(m[key]).le(V::order_of(after[key]))
            &&& after[key] == value || m.contains_key(key) && after[key] == m[key]
            &&& forall|k: K| k != key ==> (after.contains_key(k) <==> m.contains_key(k)) && (
            after.contains_key(k) ==> #[trigger] after[k] == m[k])
        }),
{
}

/// Two values of different events leave the same value, whichever came first.
pub proof fn law_latest_order_independent<K: Words, V: LatestEventValue>(
    m: Map<K, V::Model>,
    key: K,
    a: V::Model,
    b: V::Model,
)
    requires
        V::order_of(a) != V::order_of(b),
    ensures
        latest_kept::<K, V>(latest_kept::<K, V>(m, key, a).1, key, b).1 == latest_kept::<K, V>(
            latest_kept::<K, V>(m, key, b).1,
            key,
            a,
        ).1,
{
    let ab = latest_kept::<K, V>(latest_kept::<K, V>(m, key, a).1, key, b).1;
    let ba = latest_kept::<K, V>(latest_kept::<K, V>(m, key, b).1, key, a).1;
    assert(ab =~= ba);
}

/// A value that comes again changes nothing.
pub proof fn law_latest_idempotent<K: Words, V: LatestEventValue>(
    m: Map<K, V::Model>,
    key: K,
    value: V::Model,
)
    ensures
        ({
            let after = latest_kept::<K, V>(m, key, value).1;
            latest_kept::<K, V>(after, key, value) == (false, after)
        }),
{
}

}
