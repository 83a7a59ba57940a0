//! What is known of the event graph: heads, missing events, stored events.

use vstd::prelude::*;

use crate::content::state_of;
use crate::database::Database;
use crate::error::{unread, DbResult};
use crate::event::{EventContentState, EventsMissingRecord, VerifiedEvent};
use crate::ids::{
    lemma_rostra_id_bounds, lemma_short_id_bounds, ContentHash, RostraId, ShortEventId,
};
use crate::listing::{
    ascending, at_most, between, key_le, key_lt, lemma_key_asymmetric, lemma_key_irreflexive,
    lemma_key_total, lemma_key_transitive, lemma_pair_lt, lemma_prefix_range, lemma_sorted,
    lemma_sorted_is, lemma_sorted_prefix, sorted,
};
use crate::table::{keys_of, Table, Value};
use crate::tables::{EventsHeadsTableRecord, SocialPostRecord};

verus! {

/// The events that a table by author and event holds of an author.
pub open spec fn events_under<M>(m: Map<(RostraId, ShortEventId), M>, author: RostraId) -> Set<
    ShortEventId,
> {
    Set::new(|id: ShortEventId| m.contains_key((author, id)))
}

/// The authors of whom a table by author and event holds any, behind one.
pub open spec fn authors_after<M>(
    m: Map<(RostraId, ShortEventId), M>,
    after: Option<RostraId>,
) -> Set<RostraId> {
    Set::new(
        |author: RostraId|
            (exists|id: ShortEventId| m.contains_key((author, id))) && match after {
                Some(a) => key_lt(a, author),
                None => true,
            },
    )
}

proof fn lemma_author_rows<M>(m: Map<(RostraId, ShortEventId), M>, author: RostraId)
    ensures
        forall|k: (RostraId, ShortEventId)|
            #![trigger m.contains_key(k)]
            between(
                m,
                (author, ShortEventId::spec_zero()),
                (author, ShortEventId::spec_max()),
            ).contains(k) <==> m.contains_key(k) && k.0 == author,
{
    assert forall|k: (RostraId, ShortEventId)|
        #![trigger m.contains_key(k)]
        between(
            m,
            (author, ShortEventId::spec_zero()),
            (author, ShortEventId::spec_max()),
        ).contains(k) <==> m.contains_key(k) && k.0 == author by {
        lemma_short_id_bounds(k.1);
        lemma_prefix_range(author, ShortEventId::spec_zero(), ShortEventId::spec_max(), k);
    }
}

/// The events of an author in a table by author and event, in order.
pub fn events_of<V: Value>(
    author: RostraId,
    table: &Table<'_, (RostraId, ShortEventId), V>,
) -> (res: DbResult<Vec<ShortEventId>>)
    ensures
        match res {
            Ok(ids) => ids@ == sorted(events_under(table@, author)) && events_under(
                table@,
                author,
            ).finite() && ids@.len() == events_under(table@, author).len(),
            Err(e) => e.is_fault(),
        },
        unread(res) ==> !table.intact(),
{
    let found = table.collect(
        &(author, ShortEventId::zero()),
        &(author, ShortEventId::max()),
    )?;
    let mut ids: Vec<ShortEventId> = Vec::new();
    let mut i: usize = 0;
    while i < found.len()
        invariant
            i <= found.len(),
            ids.len() == i,
            forall|j: int| 0 <= j < i ==> ids[j] == (#[trigger] found[j]).0.1,
        decreases found.len() - i,
    {
        ids.push(found[i].0.1);
        i = i + 1;
    }
    proof {
        let lo = (author, ShortEventId::spec_zero());
        let hi = (author, ShortEventId::spec_max());
        let range = between(table@, lo, hi);
        let keys = sorted(range);
        lemma_sorted(range);
        lemma_author_rows(table@, author);
        assert forall|j: int| 0 <= j < ids.len() implies keys[j] == (author, #[trigger] ids[j]) by {
            assert(keys_of(found@)[j] == found[j].0);
            assert(keys.contains(keys[j]));
            assert(table@.contains_key(keys[j]));
        }
        assert forall|x: int, y: int| 0 <= x < y < ids@.len() implies key_lt(
            #[trigger] ids@[x],
            #[trigger] ids@[y],
        ) by {
            assert(key_lt(keys[x], keys[y]));
            lemma_pair_lt(author, ids[x], author, ids[y]);
            lemma_key_irreflexive(author);
        }
        assert forall|id: ShortEventId| ids@.to_set().contains(id) <==> events_under(
            table@,
            author,
        ).contains(id) by {
            if ids@.to_set().contains(id) {
                let p = choose|p: int| 0 <= p < ids@.len() && ids@[p] == id;
                assert(keys.contains(keys[p]));
                assert(range.contains((author, id)));
            }
            if events_under(table@, author).contains(id) {
                assert(table@.contains_key((author, id)));
                assert(keys.contains((author, id)));
                let p = choose|p: int| 0 <= p < keys.len() && keys[p] == (author, id);
                assert(ids@[p] == id);
            }
        }
        assert(ids@.to_set() =~= events_under(table@, author));
        lemma_sorted_is(ids@, events_under(table@, author));
        vstd::seq_lib::seq_to_set_is_finite(ids@);
        lemma_sorted(events_under(table@, author));
    }
    Ok(ids)
}

/// The authors of whom a table by author and event holds any, in order,
/// behind `after`, at most `limit` of them.
pub fn authors_of<V: Value>(
    after: Option<RostraId>,
    limit: usize,
    table: &Table<'_, (RostraId, ShortEventId), V>,
) -> (res: DbResult<Vec<RostraId>>)
    ensures
        match res {
            Ok(authors) => authors@ == at_most(
                sorted(authors_after(table@, after)),
                limit as nat,
            ),
            Err(e) => e.is_fault(),
        },
        res is Ok && limit > 0 ==> authors_after(table@, after).finite(),
        unread(res) ==> !table.intact(),
{
    let ghost set = authors_after(table@, after);
    let mut authors: Vec<RostraId> = Vec::new();
    if limit == 0 {
        assert(authors@ =~= at_most(sorted(set), 0));
        return Ok(authors);
    }
    let mut next = match after {
        Some(author) => table.first_after(&(author, ShortEventId::max()))?,
        None => table.first_from(&(RostraId::zero(), ShortEventId::zero()))?,
    };
    proof {
        lemma_authors_finite(table@, after);
        match next {
            Some((k, _)) => {
                lemma_first_author(table@, after, k);
            },
            None => {
                assert forall|a: RostraId| !#[trigger] set.contains(a) by {
                    if set.contains(a) {
                        let id = choose|id: ShortEventId| table@.contains_key((a, id));
                        lemma_short_id_bounds(id);
                        lemma_rostra_id_bounds(a);
                        match after {
                            Some(b) => {
                                lemma_pair_lt(b, ShortEventId::spec_max(), a, id);
                            },
                            None => {
                                lemma_pair_lt(
                                    a,
                                    id,
                                    RostraId::spec_zero(),
                                    ShortEventId::spec_zero(),
                                );
                            },
                        }
                    }
                }
            },
        }
    }
    while authors.len() < limit
        invariant
            set == authors_after(table@, after),
            set.finite(),
            authors.len() <= limit,
            ascending(authors@),
            forall|a: RostraId| authors@.contains(a) ==> set.contains(a),
            forall|a: RostraId, i: int|
                #![trigger set.contains(a), authors@[i]]
                set.contains(a) && !authors@.contains(a) && 0 <= i < authors@.len() ==> key_lt(
                    authors@[i],
                    a,
                ),
            match next {
                Some((k, _)) => {
                    &&& set.contains(k.0)
                    &&& forall|i: int| 0 <= i < authors@.len() ==> key_lt(#[trigger] authors@[i], k.0)
                    &&& forall|a: RostraId| #[trigger]
                        set.contains(a) && !authors@.contains(a) ==> key_le(k.0, a)
                },
                None => forall|a: RostraId| set.contains(a) ==> authors@.contains(a),
            },
        ensures
            authors.len() == limit || forall|a: RostraId| set.contains(a) ==> authors@.contains(a),
        decreases limit - authors.len(),
    {
        match next {
            Some((key, _)) => {
                let author = key.0;
                let following = table.first_after(&(author, ShortEventId::max()))?;
                let ghost before = authors@;
                authors.push(author);
                proof {
                    assert(authors@ == before.push(author));
                    assert forall|a: RostraId| authors@.contains(a) <==> before.contains(a) || a
                        == author by {
                        if before.contains(a) {
                            let p = choose|p: int| 0 <= p < before.len() && before[p] == a;
                            assert(authors@[p] == a);
                        }
                        if a == author {
                            assert(authors@[before.len() as int] == a);
                        }
                    }
                    assert forall|a: RostraId, i: int|
                        #![trigger set.contains(a), authors@[i]]
                        set.contains(a) && !authors@.contains(a) && 0 <= i
                            < authors@.len() implies key_lt(authors@[i], a) by {
                        if i < before.len() {
                            assert(before[i] == authors@[i]);
                        } else {
                            lemma_key_total(author, a);
                        }
                    }
                    lemma_first_author_past(table@, after, author, following, authors@);
                }
                next = following;
            },
            None => {
                break;
            },
        }
    }
    proof {
        lemma_sorted_prefix(authors@, set);
        lemma_sorted(set);
    }
    Ok(authors)
}

proof fn lemma_authors_finite<M>(m: Map<(RostraId, ShortEventId), M>, after: Option<RostraId>)
    requires
        m.dom().finite(),
    ensures
        authors_after(m, after).finite(),
{
    let f = |k: (RostraId, ShortEventId)| k.0;
    m.dom().lemma_map_finite(f);
    assert forall|a: RostraId| authors_after(m, after).contains(a) implies m.dom().map(
        f,
    ).contains(a) by {
        let id = choose|id: ShortEventId| m.contains_key((a, id));
        assert(m.dom().contains((a, id)));
        assert(f((a, id)) == a);
    }
    vstd::set_lib::lemma_set_subset_finite(m.dom().map(f), authors_after(m, after));
}

proof fn lemma_first_author<M>(
    m: Map<(RostraId, ShortEventId), M>,
    after: Option<RostraId>,
    k: (RostraId, ShortEventId),
)
    requires
        match after {
            Some(a) => crate::table::is_first_after(m, (a, ShortEventId::spec_max()), k),
            None => crate::table::is_first_from(
                m,
                (RostraId::spec_zero(), ShortEventId::spec_zero()),
                k,
            ),
        },
    ensures
        authors_after(m, after).contains(k.0),
        forall|a: RostraId| #[trigger] authors_after(m, after).contains(a) ==> key_le(k.0, a),
{
    let set = authors_after(m, after);
    assert(m.contains_key((k.0, k.1)));
    if let Some(b) = after {
        lemma_short_id_bounds(k.1);
        lemma_pair_lt(b, ShortEventId::spec_max(), k.0, k.1);
    }
    assert forall|a: RostraId| #[trigger] set.contains(a) implies key_le(k.0, a) by {
        let id = choose|id: ShortEventId| m.contains_key((a, id));
        match after {
            Some(b) => {
                lemma_pair_lt(b, ShortEventId::spec_max(), a, id);
            },
            None => {
                lemma_short_id_bounds(id);
                lemma_rostra_id_bounds(a);
                lemma_pair_lt(a, id, RostraId::spec_zero(), ShortEventId::spec_zero());
            },
        }
        lemma_pair_lt(a, id, k.0, k.1);
    }
}

proof fn lemma_first_author_past<V: Value>(
    m: Map<(RostraId, ShortEventId), V::Model>,
    after: Option<RostraId>,
    author: RostraId,
    following: Option<((RostraId, ShortEventId), V)>,
    authors: Seq<RostraId>,
)
    requires
        authors_after(m, after).contains(author),
        authors.len() > 0,
        authors.last() == author,
        ascending(authors),
        forall|a: RostraId, i: int|
            #![trigger authors_after(m, after).contains(a), authors[i]]
            authors_after(m, after).contains(a) && !authors.contains(a) && 0 <= i < authors.len()
                ==> key_lt(authors[i], a),
        match following {
            Some((k, _)) => crate::table::is_first_after(m, (author, ShortEventId::spec_max()), k),
            None => forall|k: (RostraId, ShortEventId)| #[trigger]
                m.contains_key(k) ==> key_le(k, (author, ShortEventId::spec_max())),
        },
    ensures
        match following {
            Some((k, _)) => {
                &&& authors_after(m, after).contains(k.0)
                &&& forall|i: int| 0 <= i < authors.len() ==> key_lt(#[trigger] authors[i], k.0)
                &&& forall|a: RostraId| #[trigger]
                    authors_after(m, after).contains(a) && !authors.contains(a) ==> key_le(k.0, a)
            },
            None => forall|a: RostraId|
                authors_after(m, after).contains(a) ==> authors.contains(a),
        },
{
    let set = authors_after(m, after);
    match following {
        Some((k, _)) => {
            lemma_first_author(m, Some(author), k);
            assert(key_lt(author, k.0));
            if let Some(b) = after {
                lemma_key_transitive(b, author, k.0);
            }
            assert forall|i: int| 0 <= i < authors.len() implies key_lt(#[trigger] authors[i], k.0) by {
                if i < authors.len() - 1 {
                    assert(key_lt(authors[i], authors[authors.len() - 1]));
                    lemma_key_transitive(authors[i], author, k.0);
                }
            }
            assert forall|a: RostraId| #[trigger]
                set.contains(a) && !authors.contains(a) implies key_le(k.0, a) by {
                assert(key_lt(authors[authors.len() - 1], a));
                assert(authors_after(m, Some(author)).contains(a));
            }
        },
        None => {
            assert forall|a: RostraId| set.contains(a) implies authors.contains(a) by {
                if !authors.contains(a) {
                    assert(key_lt(authors[authors.len() - 1], a));
                    let id = choose|id: ShortEventId| m.contains_key((a, id));
                    lemma_pair_lt(author, ShortEventId::spec_max(), a, id);
                }
            }
        },
    }
}

/// A payload as it stands for an event.
#[derive(Debug)]
pub enum EventContentResult {
    Present(Vec<u8>),
    Missing,
    Deleted { deleted_by: ShortEventId },
    Pruned,
    Invalid,
}

/// What is known of the payload of an event: what its state says, else what
/// is stored under the hash.
pub open spec fn content_result(
    state: Option<EventContentState>,
    bytes: Option<Seq<u8>>,
    res: EventContentResult,
) -> bool {
    match state {
        Some(EventContentState::Deleted { deleted_by }) => res == EventContentResult::Deleted {
            deleted_by,
        },
        Some(EventContentState::Pruned) => res is Pruned,
        Some(EventContentState::Invalid) => res is Invalid,
        _ => match bytes {
            Some(b) => res matches EventContentResult::Present(present) && present@ == b,
            None => res is Missing,
        },
    }
}

/// A payload by hash, where it is stored.
pub open spec fn stored_bytes(m: Map<ContentHash, Seq<u8>>, hash: ContentHash) -> Option<Seq<u8>> {
    if m.contains_key(hash) {
        Some(m[hash])
    } else {
        None
    }
}

impl Database {
    /// The events of an author that others refer to and that were not
    /// received.
    pub fn get_missing_events_for_id_tx(
        author: RostraId,
        events_missing: &Table<'_, (RostraId, ShortEventId), EventsMissingRecord>,
    ) -> (res: DbResult<Vec<ShortEventId>>)
        ensures
            match res {
                Ok(ids) => ids@ == sorted(events_under(events_missing@, author)) && events_under(
                    events_missing@,
                    author,
                ).finite(),
                Err(e) => e.is_fault(),
            },
            unread(res) ==> !events_missing.intact(),
    {
        events_of(author, events_missing)
    }

    /// The authors of whom events are missing, each once, in order, behind
    /// `after`, at most `limit` of them.
    pub fn get_ids_with_missing_events_tx(
        after: Option<RostraId>,
        limit: usize,
        events_missing: &Table<'_, (RostraId, ShortEventId), EventsMissingRecord>,
    ) -> (res: DbResult<Vec<RostraId>>)
        ensures
            match res {
                Ok(ids) => ids@ == at_most(
                    sorted(authors_after(events_missing@, after)),
                    limit as nat,
                ),
                Err(e) => e.is_fault(),
            },
            res is Ok && limit > 0 ==> authors_after(events_missing@, after).finite(),
            unread(res) ==> !events_missing.intact(),
    {
        authors_of(after, limit, events_missing)
    }

    /// The greatest author of whom events are missing.
    pub fn get_last_id_with_missing_events_tx(
        events_missing: &Table<'_, (RostraId, ShortEventId), EventsMissingRecord>,
    ) -> (res: DbResult<Option<RostraId>>)
        ensures
            match res {
                Ok(Some(id)) => {
                    &&& authors_after(events_missing@, None).contains(id)
                    &&& forall|a: RostraId| #[trigger]
                        authors_after(events_missing@, None).contains(a) ==> key_le(a, id)
                },
                Ok(None) => authors_after(events_missing@, None) =~= Set::empty(),
                Err(e) => e.is_fault(),
            },
            unread(res) ==> !events_missing.intact(),
    {
        let top = (RostraId::max(), ShortEventId::max());
        let least = (RostraId::zero(), ShortEventId::zero());
        let found = events_missing.walk_back_from(&least, &top)?;
        proof {
            let m = events_missing@;
            let range = between(m, least, top);
            assert forall|k: (RostraId, ShortEventId)| #[trigger] m.contains_key(k) implies range.contains(
                k,
            ) by {
                lemma_rostra_id_bounds(k.0);
                lemma_short_id_bounds(k.1);
                lemma_pair_lt(k.0, k.1, least.0, least.1);
                lemma_pair_lt(top.0, top.1, k.0, k.1);
            }
            lemma_sorted(range);
            match found {
                Some((k, _)) => {
                    assert(m.contains_key((k.0, k.1)));
                    assert forall|a: RostraId| #[trigger]
                        authors_after(m, None).contains(a) implies key_le(a, k.0) by {
                        let id = choose|id: ShortEventId| m.contains_key((a, id));
                        assert(range.contains((a, id)));
                        assert(sorted(range).contains((a, id)));
                        let p = choose|p: int| 0 <= p < sorted(range).len() && sorted(range)[p] == (
                            a,
                            id,
                        );
                        if p < sorted(range).len() - 1 {
                            assert(key_lt(sorted(range)[p], sorted(range)[sorted(range).len() - 1]));
                            lemma_pair_lt(a, id, k.0, k.1);
                            if key_lt(k.0, a) {
                                lemma_key_asymmetric(k.0, a);
                            }
                        } else {
                            lemma_key_irreflexive(a);
                        }
                    }
                },
                None => {
                    assert forall|a: RostraId| !authors_after(m, None).contains(a) by {
                        if authors_after(m, None).contains(a) {
                            let id = choose|id: ShortEventId| m.contains_key((a, id));
                            assert(range.contains((a, id)));
                            assert(sorted(range).contains((a, id)));
                        }
                    }
                },
            }
        }
        match found {
            Some((key, _)) => Ok(Some(key.0)),
            None => Ok(None),
        }
    }

    /// The heads of an author.
    pub fn get_heads_events_tx(
        author: RostraId,
        events_heads: &Table<'_, (RostraId, ShortEventId), EventsHeadsTableRecord>,
    ) -> (res: DbResult<Vec<ShortEventId>>)
        ensures
            match res {
                Ok(ids) => ids@ == sorted(events_under(events_heads@, author)) && events_under(
                    events_heads@,
                    author,
                ).finite(),
                Err(e) => e.is_fault(),
            },
            unread(res) ==> !events_heads.intact(),
    {
        events_of(author, events_heads)
    }

    /// The heads of the local user, without repetition.
    pub fn get_heads_tx(
        self_id: RostraId,
        events_heads: &Table<'_, (RostraId, ShortEventId), EventsHeadsTableRecord>,
    ) -> (res: DbResult<Vec<ShortEventId>>)
        ensures
            match res {
                Ok(ids) => ids@.to_set() == events_under(events_heads@, self_id)
                    && ids@.no_duplicates(),
                Err(e) => e.is_fault(),
            },
            unread(res) ==> !events_heads.intact(),
    {
        let ids = events_of(self_id, events_heads)?;
        proof {
            lemma_sorted(events_under(events_heads@, self_id));
            assert forall|i: int, j: int| 0 <= i < j < ids.len() implies ids@[i] != ids@[j] by {
                lemma_key_asymmetric(ids@[i], ids@[j]);
            }
        }
        Ok(ids)
    }

    /// The authors with heads, each once, in order, behind `after`, at most
    /// `limit` of them.
    pub fn get_ids_with_heads_tx(
        after: Option<RostraId>,
        limit: usize,
        events_heads: &Table<'_, (RostraId, ShortEventId), EventsHeadsTableRecord>,
    ) -> (res: DbResult<Vec<RostraId>>)
        ensures
            match res {
                Ok(ids) => ids@ == at_most(
                    sorted(authors_after(events_heads@, after)),
                    limit as nat,
                ),
                Err(e) => e.is_fault(),
            },
            res is Ok && limit > 0 ==> authors_after(events_heads@, after).finite(),
            unread(res) ==> !events_heads.intact(),
    {
        authors_of(after, limit, events_heads)
    }

    /// The number of missing events of an author.
    pub fn count_missing_events_for_id_tx(
        author: RostraId,
        events_missing: &Table<'_, (RostraId, ShortEventId), EventsMissingRecord>,
    ) -> (res: DbResult<usize>)
        ensures
            match res {
                Ok(n) => n == events_under(events_missing@, author).len() && events_under(
                    events_missing@,
                    author,
                ).finite(),
                Err(e) => e.is_fault(),
            },
            unread(res) ==> !events_missing.intact(),
    {
        Ok(events_of(author, events_missing)?.len())
    }

    /// The number of heads of an author.
    pub fn count_heads_events_tx(
        author: RostraId,
        events_heads: &Table<'_, (RostraId, ShortEventId), EventsHeadsTableRecord>,
    ) -> (res: DbResult<usize>)
        ensures
            match res {
                Ok(n) => n == events_under(events_heads@, author).len(),
                Err(e) => e.is_fault(),
            },
            unread(res) ==> !events_heads.intact(),
    {
        Ok(events_of(author, events_heads)?.len())
    }

    /// The least head of an identity.
    pub fn read_head_tx(
        self_id: RostraId,
        events_heads: &Table<'_, (RostraId, ShortEventId), EventsHeadsTableRecord>,
    ) -> (res: DbResult<Option<ShortEventId>>)
        ensures
            match res {
                Ok(head) => head == first_head(events_heads@, self_id),
                Err(e) => e.is_fault(),
            },
            unread(res) ==> !events_heads.intact(),
    {
        let lo = (self_id, ShortEventId::zero());
        let hi = (self_id, ShortEventId::max());
        let found = events_heads.walk_from(&lo, &hi)?;
        proof {
            let m = events_heads@;
            let range = between(m, lo, hi);
            let set = events_under(m, self_id);
            lemma_author_rows(m, self_id);
            lemma_sorted(range);
            match found {
                Some((k, _)) => {
                    assert(m.contains_key((self_id, k.1)));
                    assert(set.contains(k.1));
                    assert forall|id: ShortEventId| #[trigger] set.contains(id) implies key_le(
                        k.1,
                        id,
                    ) by {
                        assert(m.contains_key((self_id, id)));
                        assert(sorted(range).contains((self_id, id)));
                        let p = choose|p: int| 0 <= p < sorted(range).len() && sorted(range)[p] == (
                            self_id,
                            id,
                        );
                        if p > 0 {
                            assert(key_lt(sorted(range)[0], sorted(range)[p]));
                            lemma_pair_lt(self_id, k.1, self_id, id);
                            lemma_key_irreflexive(self_id);
                            lemma_key_asymmetric(k.1, id);
                        } else {
                            lemma_key_irreflexive(id);
                        }
                    }
                    assert(is_first_id(set, k.1));
                    let c = choose|c: ShortEventId| is_first_id(set, c);
                    assert(set.contains(c) && set.contains(k.1));
                    lemma_key_total(c, k.1);
                },
                None => {
                    assert forall|id: ShortEventId| !is_first_id(set, id) by {
                        if set.contains(id) {
                            assert(m.contains_key((self_id, id)));
                            assert(sorted(range).contains((self_id, id)));
                        }
                    }
                },
            }
        }
        match found {
            Some((key, _)) => Ok(Some(key.1)),
            None => Ok(None),
        }
    }

    /// A stored event.
    pub fn get_event_tx(
        event_id: ShortEventId,
        events: &Table<'_, ShortEventId, VerifiedEvent>,
    ) -> (res: DbResult<Option<VerifiedEvent>>)
        ensures
            match res {
                Ok(event) => event == (if events@.contains_key(event_id) {
                    Some(events@[event_id])
                } else {
                    None
                }),
                Err(e) => e.is_fault(),
            },
            unread(res) ==> !events.intact(),
    {
        events.get(&event_id)
    }

    /// Whether an event is stored.
    pub fn has_event_tx(
        event_id: ShortEventId,
        events: &Table<'_, ShortEventId, VerifiedEvent>,
    ) -> (res: DbResult<bool>)
        ensures
            match res {
                Ok(b) => b == events@.contains_key(event_id),
                Err(e) => e.is_fault(),
            },
            unread(res) ==> !events.intact(),
    {
        events.contains(&event_id)
    }

    /// The counts kept for a post.
    pub fn get_social_post_tx(
        event_id: ShortEventId,
        social_posts: &Table<'_, ShortEventId, SocialPostRecord>,
    ) -> (res: DbResult<Option<SocialPostRecord>>)
        ensures
            match res {
                Ok(record) => record == (if social_posts@.contains_key(event_id) {
                    Some(social_posts@[event_id])
                } else {
                    None
                }),
                Err(e) => e.is_fault(),
            },
            unread(res) ==> !social_posts.intact(),
    {
        social_posts.get(&event_id)
    }

    /// The processing state of an event's payload.
    pub fn get_event_content_state_tx(
        event_id: ShortEventId,
        events_content_state: &Table<'_, ShortEventId, EventContentState>,
    ) -> (res: DbResult<Option<EventContentState>>)
        ensures
            match res {
                Ok(state) => state == state_of(events_content_state@, event_id),
                Err(e) => e.is_fault(),
            },
            unread(res) ==> !events_content_state.intact(),
    {
        events_content_state.get(&event_id)
    }

    /// The payload of an event, as far as it is there and was not given up.
    /// There is always an answer: an event without a state was processed.
    pub fn get_event_content_full_tx(
        event_id: ShortEventId,
        content_hash: ContentHash,
        events_content_state: &Table<'_, ShortEventId, EventContentState>,
        content_store: &Table<'_, ContentHash, Vec<u8>>,
    ) -> (res: DbResult<Option<EventContentResult>>)
        ensures
            match res {
                Ok(content) => content matches Some(content) && content_result(
                    state_of(events_content_state@, event_id),
                    stored_bytes(content_store@, content_hash),
                    content,
                ),
                Err(e) => e.is_fault(),
            },
            unread(res) ==> !(events_content_state.intact() && content_store.intact()),
    {
        match events_content_state.get(&event_id)? {
            Some(EventContentState::Deleted { deleted_by }) => {
                return Ok(Some(EventContentResult::Deleted { deleted_by }));
            },
            Some(EventContentState::Pruned) => {
                return Ok(Some(EventContentResult::Pruned));
            },
            Some(EventContentState::Invalid) => {
                return Ok(Some(EventContentResult::Invalid));
            },
            _ => {},
        }
        match content_store.get(&content_hash)? {
            Some(content) => Ok(Some(EventContentResult::Present(content))),
            None => Ok(Some(EventContentResult::Missing)),
        }
    }

    /// Whether an event's payload can be had: it is stored, and for this event
    /// it was neither deleted nor pruned. It can be had while the event still
    /// waits for it, since another event may have brought it. It can also be
    /// had where it is invalid for the event: its bytes are there.
    pub fn has_event_content_tx(
        event_id: ShortEventId,
        content_hash: ContentHash,
        events_content_state: &Table<'_, ShortEventId, EventContentState>,
        content_store: &Table<'_, ContentHash, Vec<u8>>,
    ) -> (res: DbResult<bool>)
        ensures
            match res {
                Ok(b) => b == ({
                    let state = state_of(events_content_state@, event_id);
                    &&& !(state matches Some(EventContentState::Deleted { .. }))
                    &&& state != Some(EventContentState::Pruned)
                    &&& stored_bytes(content_store@, content_hash) is Some
                }),
                Err(e) => e.is_fault(),
            },
            unread(res) ==> !(events_content_state.intact() && content_store.intact()),
    {
        match events_content_state.get(&event_id)? {
            Some(EventContentState::Deleted { .. }) | Some(EventContentState::Pruned) => {
                return Ok(false);
            },
            _ => {},
        }
        content_store.contains(&content_hash)
    }

    /// Whether the payload of an event is stored and was not given up; it may
    /// have come by another event with the same payload.
    pub fn is_content_available_for_event_tx(
        event_id: ShortEventId,
        content_hash: ContentHash,
        events_content_state: &Table<'_, ShortEventId, EventContentState>,
        content_store: &Table<'_, ContentHash, Vec<u8>>,
    ) -> (res: DbResult<bool>)
        ensures
            match res {
                Ok(b) => b == (crate::content::holds_reference(
                    state_of(events_content_state@, event_id),
                ) && stored_bytes(content_store@, content_hash) is Some),
                Err(e) => e.is_fault(),
            },
            unread(res) ==> !(events_content_state.intact() && content_store.intact()),
    {
        match events_content_state.get(&event_id)? {
            None => {},
            Some(EventContentState::Missing { .. }) => {},
            _ => {
                return Ok(false);
            },
        }
        content_store.contains(&content_hash)
    }

    /// Notes an event of the local user.
    pub fn insert_self_event_id_tx(
        event_id: ShortEventId,
        events_self: &mut Table<'_, ShortEventId, ()>,
    ) -> (res: DbResult<()>)
        ensures
            match res {
                Ok(()) => final(events_self)@ == old(events_self)@.insert(event_id, ()),
                Err(e) => e.is_fault(),
            },
            unread(res) ==> !old(events_self).intact(),
            res is Ok && old(events_self).intact() ==> final(events_self).intact(),
    {
        events_self.insert(&event_id, &())
    }
}

/// The event of a set before all others.
pub open spec fn is_first_id(set: Set<ShortEventId>, id: ShortEventId) -> bool {
    set.contains(id) && forall|x: ShortEventId| #[trigger] set.contains(x) ==> key_le(id, x)
}

/// The least head of an identity, if it has any.
pub open spec fn first_head<M>(m: Map<(RostraId, ShortEventId), M>, author: RostraId) -> Option<
    ShortEventId,
> {
    let set = events_under(m, author);
    if exists|id: ShortEventId| is_first_id(set, id) {
        Some(choose|id: ShortEventId| is_first_id(set, id))
    } else {
        None
    }
}

}
