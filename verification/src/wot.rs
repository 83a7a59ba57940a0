//! The web of trust: whom the local user follows, and whom those follow.

use vstd::prelude::*;

use crate::database::Database;
use crate::error::{unread, DbResult};
use crate::follow::IdsFolloweesRecord;
use crate::ids::{lemma_rostra_id_bounds, RostraId};
use crate::listing::{
    ascending, between, key_le, key_lt, lemma_key_irreflexive, lemma_key_total,
    lemma_key_transitive, lemma_pair_lt, lemma_prefix_range, lemma_sorted, lemma_sorted_is, sorted,
};
use crate::table::{keys_of, less, Table, Value};
use crate::tables::IdsFollowersRecord;
use crate::words::Words;

verus! {

/// The identities that a table by pairs has under a first one.
pub open spec fn others<M>(m: Map<(RostraId, RostraId), M>, id: RostraId) -> Set<RostraId> {
    Set::new(|other: RostraId| m.contains_key((id, other)))
}

/// The listed identities, with what the table holds of each, are those under
/// `id`, in order.
pub open spec fn lists_others<V: Value>(
    found: Seq<(RostraId, V)>,
    m: Map<(RostraId, RostraId), V::Model>,
    id: RostraId,
) -> bool {
    &&& others(m, id).finite()
    &&& keys_of(found) == sorted(others(m, id))
    &&& forall|i: int|
        0 <= i < found.len() ==> m[(id, (#[trigger] found[i]).0)] == found[i].1.model()
}

fn collect_others<V: Value>(id: RostraId, table: &Table<'_, (RostraId, RostraId), V>) -> (res:
    DbResult<Vec<(RostraId, V)>>)
    ensures
        match res {
            Ok(found) => lists_others(found@, table@, id),
            Err(e) => e.is_fault(),
        },
        unread(res) ==> !table.intact(),
{
    let lo = (id, RostraId::zero());
    let hi = (id, RostraId::max());
    let ghost m = table@;
    let ghost range = between(m, lo, hi);
    let mut found: Vec<(RostraId, V)> = Vec::new();
    let mut next = table.walk_from(&lo, &hi)?;
    proof {
        lemma_sorted(range);
        assert forall|k: (RostraId, RostraId)|
            #![trigger m.contains_key(k)]
            range.contains(k) <==> m.contains_key(k) && k.0 == id by {
            lemma_rostra_id_bounds(k.1);
            lemma_prefix_range(id, RostraId::spec_zero(), RostraId::spec_max(), k);
        }
    }
    loop
        invariant
            m == table@,
            lo == (id, RostraId::spec_zero()),
            hi == (id, RostraId::spec_max()),
            range == between(m, lo, hi),
            range.finite(),
            forall|k: (RostraId, RostraId)|
                #![trigger m.contains_key(k)]
                range.contains(k) <==> m.contains_key(k) && k.0 == id,
            found.len() <= sorted(range).len(),
            forall|i: int|
                0 <= i < found.len() ==> sorted(range)[i] == (id, (#[trigger] found[i]).0) && m[(
                    id,
                    found[i].0,
                )] == found[i].1.model(),
            next is Some <==> found.len() < sorted(range).len(),
            next matches Some((key, value)) ==> sorted(range)[found.len() as int] == key
                && range.contains(key) && m[key] == value.model(),
        decreases sorted(range).len() - found.len(),
    {
        match next {
            Some((key, value)) => {
                let after = table.walk_on(&key, &lo, &hi)?;
                assert(m.contains_key(key));
                proof {
                    crate::listing::lemma_rank_at(range, found.len() as int);
                }
                found.push((key.1, value));
                next = after;
            },
            None => {
                proof {
                    let ids = keys_of(found@);
                    lemma_sorted(range);
                    assert forall|i: int, j: int| 0 <= i < j < ids.len() implies key_lt(
                        #[trigger] ids[i],
                        #[trigger] ids[j],
                    ) by {
                        assert(ids[i] == found[i].0 && ids[j] == found[j].0);
                        assert(key_lt(sorted(range)[i], sorted(range)[j]));
                        lemma_pair_lt(id, ids[i], id, ids[j]);
                        lemma_key_irreflexive(id);
                    }
                    assert forall|x: RostraId| ids.to_set().contains(x) <==> others(m, id).contains(
                        x,
                    ) by {
                        if ids.to_set().contains(x) {
                            let p = choose|p: int| 0 <= p < ids.len() && ids[p] == x;
                            assert(sorted(range)[p] == (id, found[p].0));
                            assert(sorted(range).contains(sorted(range)[p]));
                            assert(range.contains((id, x)));
                        }
                        if others(m, id).contains(x) {
                            assert(m.contains_key((id, x)));
                            assert(sorted(range).contains((id, x)));
                            let p = choose|p: int| 0 <= p < sorted(range).len() && sorted(range)[p]
                                == (id, x);
                            assert(found[p].0 == x);
                            assert(ids[p] == x);
                        }
                    }
                    assert(ids.to_set() =~= others(m, id));
                    lemma_sorted_is(ids, others(m, id));
                    vstd::seq_lib::seq_to_set_is_finite(ids);
                }
                return Ok(found);
            },
        }
    }
}

/// Where an identity is, or would be, in an ascending list.
fn place_of(ids: &Vec<RostraId>, id: &RostraId) -> (res: (bool, usize))
    requires
        ascending(ids@),
    ensures
        res.0 == ids@.contains(*id),
        res.1 <= ids@.len(),
        res.0 ==> res.1 < ids@.len() && ids@[res.1 as int] == *id,
        forall|i: int| 0 <= i < res.1 ==> key_lt(#[trigger] ids@[i], *id),
        forall|i: int| res.1 <= i < ids@.len() ==> key_le(*id, #[trigger] ids@[i]),
{
    let mut lo: usize = 0;
    let mut hi: usize = ids.len();
    while lo < hi
        invariant
            ascending(ids@),
            lo <= hi <= ids@.len(),
            forall|i: int| 0 <= i < lo ==> key_lt(#[trigger] ids@[i], *id),
            forall|i: int| hi <= i < ids@.len() ==> key_le(*id, #[trigger] ids@[i]),
        decreases hi - lo,
    {
        let mid: usize = lo + (hi - lo) / 2;
        if less(&ids[mid], id) {
            proof {
                assert forall|i: int| 0 <= i < mid + 1 implies key_lt(#[trigger] ids@[i], *id) by {
                    if i < mid {
                        lemma_key_transitive(ids@[i], ids@[mid as int], *id);
                    }
                }
            }
            lo = mid + 1;
        } else {
            proof {
                assert forall|i: int| mid <= i < ids@.len() implies key_le(*id, #[trigger] ids@[i]) by {
                    if mid < i {
                        assert(key_lt(ids@[mid as int], ids@[i]));
                        if key_lt(ids@[i], *id) {
                            lemma_key_transitive(ids@[mid as int], ids@[i], *id);
                        }
                    }
                }
            }
            hi = mid;
        }
    }
    let found = lo < ids.len() && ids[lo] == *id;
    proof {
        if ids@.contains(*id) {
            let p = choose|p: int| 0 <= p < ids@.len() && ids@[p] == *id;
            lemma_key_irreflexive(*id);
            assert(lo <= p);
            if lo < p {
                assert(key_lt(ids@[lo as int], ids@[p]));
            }
        }
    }
    (found, lo)
}

/// Whom the local user trusts: direct followees, and those that these follow.
#[derive(Debug)]
pub struct WotData {
    /// Direct followees, with what is kept of each follow.
    pub followees: Vec<(RostraId, IdsFolloweesRecord)>,
    /// Followees of followees, except direct ones and the user.
    pub extended: Vec<RostraId>,
}

/// Whether an identity is in a list.
fn is_listed(ids: &Vec<RostraId>, id: RostraId) -> (res: bool)
    ensures
        res == ids@.contains(id),
{
    let mut i: usize = 0;
    while i < ids.len()
        invariant
            i <= ids.len(),
            !ids@.take(i as int).contains(id),
        decreases ids.len() - i,
    {
        if ids[i] == id {
            return true;
        }
        assert(ids@.take(i + 1) =~= ids@.take(i as int).push(ids@[i as int]));
        proof {
            lemma_push_contains(ids@.take(i as int), ids@[i as int], id);
        }
        i = i + 1;
    }
    assert(ids@.take(i as int) =~= ids@);
    false
}

/// The identities of listed follows.
fn ids_of(found: &Vec<(RostraId, IdsFolloweesRecord)>) -> (ids: Vec<RostraId>)
    ensures
        ids@ == keys_of(found@),
{
    let mut ids: Vec<RostraId> = Vec::new();
    let mut i: usize = 0;
    while i < found.len()
        invariant
            i <= found.len(),
            ids@ == keys_of(found@).take(i as int),
        decreases found.len() - i,
    {
        ids.push(found[i].0);
        i = i + 1;
        assert(ids@ =~= keys_of(found@).take(i as int));
    }
    assert(ids@ =~= keys_of(found@));
    ids
}

impl WotData {
    /// Whether an identity is trusted by the given user, who trusts themself.
    pub fn contains(&self, id: RostraId, self_id: RostraId) -> (res: bool)
        ensures
            res == (id == self_id || keys_of(self.followees@).contains(id)
                || self.extended@.contains(id)),
    {
        id == self_id || is_listed(&ids_of(&self.followees), id) || is_listed(&self.extended, id)
    }
}

/// Those whom direct followees follow, except direct ones and the user.
pub open spec fn extended_of<M>(
    m: Map<(RostraId, RostraId), M>,
    self_id: RostraId,
    direct: Seq<RostraId>,
) -> Set<RostraId> {
    Set::new(
        |x: RostraId|
            x != self_id && !direct.contains(x) && exists|f: RostraId|
                direct.contains(f) && #[trigger] m.contains_key((f, x)),
    )
}

/// As [`extended_of`], of the first `n` direct followees and of those that
/// the next one follows among `part`.
spec fn extended_upto<M>(
    m: Map<(RostraId, RostraId), M>,
    self_id: RostraId,
    direct: Seq<RostraId>,
    n: int,
    part: Set<RostraId>,
) -> Set<RostraId> {
    Set::new(
        |x: RostraId|
            x != self_id && !direct.contains(x) && (part.contains(x) || exists|i: int|
                0 <= i < n && m.contains_key((#[trigger] direct[i], x))),
    )
}

impl Database {
    /// Whom an identity follows.
    pub fn read_followees_tx(
        id: RostraId,
        ids_followees: &Table<'_, (RostraId, RostraId), IdsFolloweesRecord>,
    ) -> (res: DbResult<Vec<(RostraId, IdsFolloweesRecord)>>)
        ensures
            match res {
                Ok(found) => lists_others(found@, ids_followees@, id),
                Err(e) => e.is_fault(),
            },
            unread(res) ==> !ids_followees.intact(),
    {
        collect_others(id, ids_followees)
    }

    /// Who follows an identity.
    pub fn read_followers_tx(
        id: RostraId,
        ids_followers: &Table<'_, (RostraId, RostraId), IdsFollowersRecord>,
    ) -> (res: DbResult<Vec<(RostraId, IdsFollowersRecord)>>)
        ensures
            match res {
                Ok(found) => lists_others(found@, ids_followers@, id),
                Err(e) => e.is_fault(),
            },
            unread(res) ==> !ids_followers.intact(),
    {
        collect_others(id, ids_followers)
    }

    /// The web of trust over the given direct followees, which are in order.
    pub fn compute_wot_tx(
        self_id: RostraId,
        direct_followees: Vec<(RostraId, IdsFolloweesRecord)>,
        ids_followees: &Table<'_, (RostraId, RostraId), IdsFolloweesRecord>,
    ) -> (res: DbResult<WotData>)
        requires
            ascending(keys_of(direct_followees@)),
        ensures
            match res {
                Ok(wot) => {
                    &&& wot.followees@ == direct_followees@
                    &&& wot.extended@ == sorted(
                        extended_of(ids_followees@, self_id, keys_of(direct_followees@)),
                    )
                    &&& extended_of(
                        ids_followees@,
                        self_id,
                        keys_of(direct_followees@),
                    ).finite()
                },
                Err(e) => e.is_fault(),
            },
            unread(res) ==> !ids_followees.intact(),
    {
        let ghost m = ids_followees@;
        let direct_ids = ids_of(&direct_followees);
        let ghost direct = direct_ids@;
        let mut extended: Vec<RostraId> = Vec::new();
        let mut n: usize = 0;
        assert(extended@.to_set() =~= extended_upto(m, self_id, direct, 0, Set::empty()));
        while n < direct_ids.len()
            invariant
                m == ids_followees@,
                direct == direct_ids@,
                ascending(direct),
                n <= direct.len(),
                ascending(extended@),
                extended@.to_set() == extended_upto(m, self_id, direct, n as int, Set::empty()),
            decreases direct.len() - n,
        {
            let followee = direct_ids[n];
            let found = collect_others(followee, ids_followees)?;
            let mut j: usize = 0;
            let ghost ids = keys_of(found@);
            assert(extended@.to_set() =~= extended_upto(
                m,
                self_id,
                direct,
                n as int,
                ids.take(0).to_set(),
            ));
            while j < found.len()
                invariant
                    direct == direct_ids@,
                    ascending(direct),
                    ids == keys_of(found@),
                    j <= found.len(),
                    ascending(extended@),
                    extended@.to_set() == extended_upto(
                        m,
                        self_id,
                        direct,
                        n as int,
                        ids.take(j as int).to_set(),
                    ),
                decreases found.len() - j,
            {
                let id = found[j].0;
                let ghost before = extended@;
                let ghost part = ids.take(j as int);
                let (is_direct, _) = place_of(&direct_ids, &id);
                let (known, place) = place_of(&extended, &id);
                if id != self_id && !is_direct && !known {
                    extended.insert(place, id);
                    proof {
                        lemma_inserted(before, place as int, id);
                    }
                }
                proof {
                    assert(ids[j as int] == id);
                    assert(ids.take(j + 1) =~= part.push(id));
                    assert forall|x: RostraId| ids.take(j + 1).to_set().contains(x) <==> part.to_set().contains(x)
                        || x == id by {
                        lemma_push_contains(part, id, x);
                    }
                    assert(before.to_set().contains(id) <==> before.contains(id));
                    assert(extended@.to_set() =~= extended_upto(
                        m,
                        self_id,
                        direct,
                        n as int,
                        ids.take(j + 1).to_set(),
                    ));
                }
                j = j + 1;
            }
            proof {
                assert(ids.take(j as int) =~= ids);
                lemma_sorted(others(m, followee));
                assert(extended_upto(m, self_id, direct, n as int, ids.to_set()) =~= extended_upto(
                    m,
                    self_id,
                    direct,
                    n + 1,
                    Set::empty(),
                )) by {
                    assert forall|x: RostraId|
                        extended_upto(m, self_id, direct, n as int, ids.to_set()).contains(x)
                            <==> extended_upto(
                            m,
                            self_id,
                            direct,
                            n + 1,
                            Set::empty(),
                        ).contains(x) by {
                        assert(ids.to_set().contains(x) <==> m.contains_key((followee, x)));
                        if ids.to_set().contains(x) {
                            assert(m.contains_key((direct[n as int], x)));
                        }
                    }
                }
            }
            n = n + 1;
        }
        proof {
            let want = extended_of(m, self_id, direct);
            assert forall|x: RostraId| want.contains(x) <==> extended_upto(
                m,
                self_id,
                direct,
                n as int,
                Set::empty(),
            ).contains(x) by {
                if want.contains(x) {
                    let f = choose|f: RostraId| direct.contains(f) && #[trigger] m.contains_key((f, x));
                    let i = choose|i: int| 0 <= i < direct.len() && direct[i] == f;
                    assert(m.contains_key((direct[i], x)));
                }
                if exists|i: int| 0 <= i < n && m.contains_key((#[trigger] direct[i], x)) {
                    let i = choose|i: int| 0 <= i < n && m.contains_key((#[trigger] direct[i], x));
                    assert(direct.contains(direct[i]));
                }
            }
            assert(extended@.to_set() =~= want);
            lemma_sorted_is(extended@, want);
            vstd::seq_lib::seq_to_set_is_finite(extended@);
        }
        Ok(WotData { followees: direct_followees, extended })
    }
}

proof fn lemma_push_contains(s: Seq<RostraId>, a: RostraId, x: RostraId)
    ensures
        s.push(a).to_set().contains(x) <==> s.to_set().contains(x) || x == a,
{
    let t = s.push(a);
    if s.to_set().contains(x) {
        let p = choose|p: int| 0 <= p < s.len() && s[p] == x;
        assert(t[p] == x);
    }
    if x == a {
        assert(t[s.len() as int] == x);
    }
    if t.to_set().contains(x) {
        let p = choose|p: int| 0 <= p < t.len() && t[p] == x;
        if p < s.len() {
            assert(s[p] == x);
        }
    }
}

proof fn lemma_inserted(s: Seq<RostraId>, place: int, id: RostraId)
    requires
        ascending(s),
        0 <= place <= s.len(),
        !s.contains(id),
        forall|i: int| 0 <= i < place ==> key_lt(#[trigger] s[i], id),
        forall|i: int| place <= i < s.len() ==> key_le(id, #[trigger] s[i]),
    ensures
        ascending(s.insert(place, id)),
        s.insert(place, id).to_set() == s.to_set().insert(id),
{
    let t = s.insert(place, id);
    assert forall|i: int, j: int| 0 <= i < j < t.len() implies key_lt(
        #[trigger] t[i],
        #[trigger] t[j],
    ) by {
        if j < place {
            assert(key_lt(s[i], s[j]));
        } else if j == place {
            assert(t[i] == s[i]);
        } else if i < place {
            assert(key_lt(s[i], s[j - 1]));
        } else if i == place {
            assert(t[j] == s[j - 1]);
            lemma_key_total(id, s[j - 1]);
            assert(s.contains(s[j - 1]));
        } else {
            assert(key_lt(s[i - 1], s[j - 1]));
        }
    }
    assert forall|x: RostraId| t.to_set().contains(x) <==> s.to_set().insert(id).contains(x) by {
        if t.to_set().contains(x) {
            let p = choose|p: int| 0 <= p < t.len() && t[p] == x;
            if p < place {
                assert(s[p] == x);
            } else if p > place {
                assert(s[p - 1] == x);
            }
        }
        if s.to_set().contains(x) {
            let p = choose|p: int| 0 <= p < s.len() && s[p] == x;
            if p < place {
                assert(t[p] == x);
            } else {
                assert(t[p + 1] == x);
            }
        }
        if x == id {
            assert(t[place] == x);
        }
    }
    assert(t.to_set() =~= s.to_set().insert(id));
}

}
