//! Personas of users, and the tags under which they post.

use vstd::prelude::*;

use crate::database::Database;
use crate::error::{unread, DbResult};
use crate::ids::{PersonaId, RostraId, ShortEventId, Timestamp};
use crate::listing::{
    between, key_le, key_lt, lemma_key_irreflexive, lemma_pair_lt, lemma_rank_at, lemma_sorted,
    sorted,
};
use crate::order::lemma_lt_single;
use crate::payload::SocialPost;
use crate::profile::IdsPersonaRecord;
use crate::social::{payload_of, reads_all, reads_as, EventPaginationCursor};
use crate::table::{keys_of, Table};
use crate::tables::{DbState, Tables};
use crate::timeline::keys_by_time;

verus! {

/// The names of the personas that everyone has.
pub open spec fn default_name(p: PersonaId) -> Option<Seq<char>> {
    if p.n == 0 {
        Some("Personal"@)
    } else if p.n == 1 {
        Some("Professional"@)
    } else if p.n == 2 {
        Some("Civic"@)
    } else {
        None
    }
}

/// The name of a persona: the one that its user gave it, else the one that
/// everyone has.
pub open spec fn persona_name(
    m: Map<(RostraId, PersonaId), Seq<char>>,
    id: RostraId,
    p: PersonaId,
) -> Option<Seq<char>> {
    if m.contains_key((id, p)) {
        Some(m[(id, p)])
    } else {
        default_name(p)
    }
}

fn default_persona(p: PersonaId) -> (res: Option<String>)
    ensures
        match res {
            Some(name) => default_name(p) == Some(name@),
            None => default_name(p) is None,
        },
{
    if p.n == 0 {
        Some("Personal".to_owned())
    } else if p.n == 1 {
        Some("Professional".to_owned())
    } else if p.n == 2 {
        Some("Civic".to_owned())
    } else {
        None
    }
}

/// The personas of a user with their names, in order, each once.
pub open spec fn names_all(
    m: Map<(RostraId, PersonaId), Seq<char>>,
    id: RostraId,
    named: Seq<(PersonaId, String)>,
) -> bool {
    &&& forall|i: int|
        0 <= i < named.len() ==> persona_name(m, id, (#[trigger] named[i]).0) == Some(named[i].1@)
    &&& forall|i: int, j: int|
        0 <= i < j < named.len() ==> (#[trigger] named[i]).0.n < (#[trigger] named[j]).0.n
    &&& forall|p: PersonaId| #[trigger]
        persona_name(m, id, p) is Some ==> exists|i: int|
            0 <= i < named.len() && (#[trigger] named[i]).0 == p
}

/// The requested personas that have a name, with it, in the order of the
/// requests.
pub open spec fn names_of(
    m: Map<(RostraId, PersonaId), Seq<char>>,
    requests: Seq<(RostraId, PersonaId)>,
) -> Seq<((RostraId, PersonaId), Seq<char>)>
    decreases requests.len(),
{
    if requests.len() == 0 {
        Seq::empty()
    } else {
        let last = requests.last();
        match persona_name(m, last.0, last.1) {
            Some(name) => names_of(m, requests.drop_last()).push((last, name)),
            None => names_of(m, requests.drop_last()),
        }
    }
}

/// The tags of a post.
pub open spec fn tags_in(post: Option<SocialPost>) -> Set<Seq<char>> {
    match post {
        Some(post) => texts(post.persona_tags@).to_set(),
        None => Set::empty(),
    }
}

/// What texts say.
pub open spec fn texts(s: Seq<String>) -> Seq<Seq<char>> {
    s.map_values(|t: String| t@)
}

/// The tags that a listed post adds to those of a user: none where it is not
/// the user's, or its payload cannot be had or is no post.
pub open spec fn tags_at<F: Fn(&Vec<u8>) -> Option<SocialPost>>(
    db: DbState,
    read_post: F,
    user: RostraId,
    id: ShortEventId,
    tags: Set<Seq<char>>,
) -> bool {
    if db.events.contains_key(id) && db.events[id].event.author == user {
        exists|post: Option<SocialPost>|
            reads_as(read_post, payload_of(db, id), post) && tags == #[trigger] tags_in(post)
    } else {
        tags == Set::<Seq<char>>::empty()
    }
}

/// All of some sets together.
pub open spec fn together(sets: Seq<Set<Seq<char>>>) -> Set<Seq<char>>
    decreases sets.len(),
{
    if sets.len() == 0 {
        Set::empty()
    } else {
        together(sets.drop_last()).union(sets.last())
    }
}

/// The tags of the posts with these keys, all together.
pub open spec fn tags_found<F: Fn(&Vec<u8>) -> Option<SocialPost>>(
    db: DbState,
    read_post: F,
    user: RostraId,
    keys: Seq<(Timestamp, ShortEventId)>,
    tags: Set<Seq<char>>,
) -> bool {
    exists|seen: Seq<Set<Seq<char>>>|
        {
            &&& tags == #[trigger] together(seen)
            &&& seen.len() == keys.len()
            &&& forall|i: int|
                0 <= i < seen.len() ==> tags_at(
                    db,
                    read_post,
                    user,
                    keys[i].1,
                    #[trigger] seen[i],
                )
        }
}

impl Database {
    fn persona_name_tx(
        id: RostraId,
        p: PersonaId,
        ids_personas: &Table<'_, (RostraId, PersonaId), IdsPersonaRecord>,
    ) -> (res: DbResult<Option<String>>)
        ensures
            match res {
                Ok(Some(name)) => persona_name(ids_personas@, id, p) == Some(name@),
                Ok(None) => persona_name(ids_personas@, id, p) is None,
                Err(e) => e.is_fault(),
            },
            unread(res) ==> !ids_personas.intact(),
    {
        match ids_personas.get(&(id, p))? {
            Some(record) => Ok(Some(record.display_name)),
            None => Ok(default_persona(p)),
        }
    }

    /// The personas of a user with their names; see [`names_all`].
    pub fn get_personas_for_id(id: RostraId, db: &Tables<'_>) -> (res: DbResult<
        Vec<(PersonaId, String)>,
    >)
        ensures
            match res {
                Ok(named) => names_all(db@.ids_personas, id, named@),
                Err(e) => e.is_fault(),
            },
            unread(res) ==> !db.intact(),
    {
        let mut named: Vec<(PersonaId, String)> = Vec::new();
        let mut n: u8 = 0;
        while n < 3
            invariant
                n <= 3,
                named.len() == n,
                forall|i: int|
                    0 <= i < n ==> (#[trigger] named@[i]).0.n == i && persona_name(
                        db@.ids_personas,
                        id,
                        named@[i].0,
                    ) == Some(named@[i].1@),
            decreases 3 - n,
        {
            let p = PersonaId { n };
            if let Some(name) = Self::persona_name_tx(id, p, &db.ids_personas)? {
                named.push((p, name));
            }
            n = n + 1;
        }
        let lo = (id, PersonaId { n: 3 });
        let hi = (id, PersonaId { n: u8::MAX });
        let mut rest = db.ids_personas.collect(&lo, &hi)?;
        let ghost m = db@.ids_personas;
        let ghost rows = rest@;
        let ghost range = between(m, lo, hi);
        proof {
            lemma_sorted(range);
            assert forall|k: (RostraId, PersonaId)|
                range.contains(k) <==> #[trigger] m.contains_key(k) && k.0 == id && k.1.n
                    >= 3 by {
                lemma_persona_range(id, k);
            }
        }
        // The rows are taken from the last one back, so that their names can
        // be moved, and put in order again.
        let mut back: Vec<(PersonaId, String)> = Vec::new();
        while rest.len() > 0
            invariant
                rest@.len() + back@.len() == rows.len(),
                rest@ == rows.take(rest@.len() as int),
                forall|i: int|
                    0 <= i < back@.len() ==> (#[trigger] back@[i]).0 == rows[rows.len() - 1 - i].0.1
                        && back@[i].1 == rows[rows.len() - 1 - i].1.display_name,
            decreases rest.len(),
        {
            let ghost before = rest@;
            if let Some((key, record)) = rest.pop() {
                assert(before.last() == rows[before.len() - 1]);
                back.push((key.1, record.display_name));
                assert(rest@ =~= rows.take(rest@.len() as int));
            }
        }
        let ghost turned = back@;
        while back.len() > 0
            invariant
                3 <= named@.len(),
                named@.len() + back@.len() == 3 + rows.len(),
                turned.len() == rows.len(),
                back@ == turned.take(back@.len() as int),
                forall|i: int|
                    0 <= i < turned.len() ==> (#[trigger] turned[i]).0 == rows[rows.len() - 1
                        - i].0.1 && turned[i].1 == rows[rows.len() - 1 - i].1.display_name,
                forall|i: int|
                    0 <= i < 3 ==> (#[trigger] named@[i]).0.n == i && persona_name(
                        m,
                        id,
                        named@[i].0,
                    ) == Some(named@[i].1@),
                forall|i: int|
                    3 <= i < named@.len() ==> (#[trigger] named@[i]).0 == rows[i - 3].0.1
                        && named@[i].1 == rows[i - 3].1.display_name,
            decreases back.len(),
        {
            let ghost before = back@;
            if let Some((p, name)) = back.pop() {
                assert(before.last() == turned[before.len() - 1]);
                named.push((p, name));
                assert(back@ =~= turned.take(back@.len() as int));
            }
        }
        proof {
            assert forall|j: int| 0 <= j < rows.len() implies {
                let k = (#[trigger] rows[j]).0;
                &&& k.0 == id
                &&& k.1.n >= 3
                &&& m.contains_key(k)
                &&& m[k] == rows[j].1.display_name@
            } by {
                assert(keys_of(rows)[j] == rows[j].0);
                assert(sorted(range).contains(rows[j].0));
                assert(m.contains_key(rows[j].0));
            }
            assert forall|i: int, j: int| 0 <= i < j < named@.len() implies (
            #[trigger] named@[i]).0.n < (#[trigger] named@[j]).0.n by {
                if i >= 3 {
                    let (a, b) = (rows[i - 3].0, rows[j - 3].0);
                    assert(keys_of(rows)[i - 3] == a && keys_of(rows)[j - 3] == b);
                    assert(key_lt(sorted(range)[i - 3], sorted(range)[j - 3]));
                    lemma_pair_lt(a.0, a.1, b.0, b.1);
                    lemma_key_irreflexive(id);
                    lemma_lt_single(a.1.n as u64, b.1.n as u64);
                } else if j >= 3 {
                    assert(rows[j - 3].0.1.n >= 3);
                }
            }
            assert forall|i: int| 0 <= i < named@.len() implies persona_name(
                m,
                id,
                (#[trigger] named@[i]).0,
            ) == Some(named@[i].1@) by {
                if i >= 3 {
                    let k = rows[i - 3].0;
                    assert(k == (id, k.1));
                }
            }
            assert forall|p: PersonaId| #[trigger]
                persona_name(m, id, p) is Some implies exists|i: int|
                0 <= i < named@.len() && (#[trigger] named@[i]).0 == p by {
                if p.n < 3 {
                    assert(named@[p.n as int].0 == p);
                } else {
                    let k = (id, p);
                    assert(m.contains_key(k));
                    assert(range.contains(k));
                    assert(sorted(range).contains(k));
                    let q = choose|q: int| 0 <= q < sorted(range).len() && sorted(range)[q] == k;
                    assert(keys_of(rows)[q] == rows[q].0);
                    assert(named@[q + 3].0 == p);
                }
            }
        }
        Ok(named)
    }

    /// The requested personas that have a name; see [`names_of`].
    pub fn get_personas(requests: &Vec<(RostraId, PersonaId)>, db: &Tables<'_>) -> (res: DbResult<
        Vec<((RostraId, PersonaId), String)>,
    >)
        ensures
            match res {
                Ok(named) => named@.map_values(
                    |x: ((RostraId, PersonaId), String)| (x.0, x.1@),
                ) == names_of(db@.ids_personas, requests@),
                Err(e) => e.is_fault(),
            },
            unread(res) ==> !db.intact(),
    {
        let mut named: Vec<((RostraId, PersonaId), String)> = Vec::new();
        let mut i: usize = 0;
        let ghost seen = |x: ((RostraId, PersonaId), String)| (x.0, x.1@);
        proof {
            assert(requests@.take(0) =~= Seq::empty());
            assert(named@.map_values(seen) =~= Seq::empty());
        }
        while i < requests.len()
            invariant
                i <= requests.len(),
                seen == |x: ((RostraId, PersonaId), String)| (x.0, x.1@),
                named@.map_values(seen) == names_of(db@.ids_personas, requests@.take(i as int)),
            decreases requests.len() - i,
        {
            let request = requests[i];
            let ghost before = named@;
            proof {
                assert(requests@.take(i + 1).drop_last() =~= requests@.take(i as int));
                assert(requests@.take(i + 1).last() == request);
            }
            if let Some(name) = Self::persona_name_tx(request.0, request.1, &db.ids_personas)? {
                named.push((request, name));
                assert(named@.map_values(seen) =~= before.map_values(seen).push((request, name@)));
            }
            i = i + 1;
        }
        assert(requests@.take(i as int) =~= requests@);
        Ok(named)
    }

    fn post_tags_tx<F: Fn(&Vec<u8>) -> Option<SocialPost>>(
        user: RostraId,
        event_id: ShortEventId,
        read_post: &F,
        db: &Tables<'_>,
    ) -> (res: DbResult<Vec<String>>)
        requires
            reads_all(*read_post),
        ensures
            match res {
                Ok(tags) => tags_at(db@, *read_post, user, event_id, texts(tags@).to_set()),
                Err(e) => e.is_fault(),
            },
            unread(res) ==> !db.intact(),
    {
        let none: Vec<String> = Vec::new();
        assert(texts(none@).to_set() =~= Set::empty());
        let event = match db.events.get(&event_id)? {
            Some(event) => event,
            None => return Ok(none),
        };
        if event.event.author != user {
            return Ok(none);
        }
        match Self::get_social_post_record_tx(event_id, read_post, db)? {
            Some((post, _, _)) => {
                assert(tags_in(Some(post)) == texts(post.persona_tags@).to_set());
                Ok(post.persona_tags)
            },
            None => {
                assert(tags_in(None) == texts(none@).to_set());
                Ok(none)
            },
        }
    }

    /// All tags under which a user posted, each once; see [`tags_found`]. The
    /// latest posts are looked at first.
    pub fn get_persona_tags_for_id<F: Fn(&Vec<u8>) -> Option<SocialPost>>(
        id: RostraId,
        read_post: &F,
        db: &Tables<'_>,
    ) -> (res: DbResult<Vec<String>>)
        requires
            reads_all(*read_post),
        ensures
            match res {
                Ok(tags) => {
                    &&& between(
                        db@.social_posts_by_time,
                        EventPaginationCursor::spec_zero().key(),
                        EventPaginationCursor::spec_max().key(),
                    ).finite()
                    &&& texts(tags@).no_duplicates()
                    &&& tags_found(
                        db@,
                        *read_post,
                        id,
                        keys_by_time(
                            db@,
                            EventPaginationCursor::spec_zero(),
                            EventPaginationCursor::spec_max(),
                        ).reverse(),
                        texts(tags@).to_set(),
                    )
                },
                Err(e) => e.is_fault(),
            },
            unread(res) ==> !db.intact(),
    {
        let from = EventPaginationCursor::zero();
        let to = EventPaginationCursor::max();
        let (lo, hi) = ((from.ts, from.event_id), (to.ts, to.event_id));
        let ghost range = between(db@.social_posts_by_time, lo, hi);
        let ghost keys = sorted(range).reverse();
        let mut tags: Vec<String> = Vec::new();
        let ghost mut seen: Seq<Set<Seq<char>>> = Seq::empty();
        let mut next = db.social_posts_by_time.walk_back_from(&lo, &hi)?;
        assert(texts(tags@) =~= Seq::empty());
        assert(texts(tags@).to_set() =~= together(seen));
        loop
            invariant
                reads_all(*read_post),
                lo == EventPaginationCursor::spec_zero().key(),
                hi == EventPaginationCursor::spec_max().key(),
                range == between(db@.social_posts_by_time, lo, hi),
                range.finite(),
                keys == sorted(range).reverse(),
                keys == keys_by_time(
                    db@,
                    EventPaginationCursor::spec_zero(),
                    EventPaginationCursor::spec_max(),
                ).reverse(),
                seen.len() <= keys.len(),
                texts(tags@).no_duplicates(),
                texts(tags@).to_set() == together(seen),
                forall|i: int|
                    0 <= i < seen.len() ==> tags_at(
                        db@,
                        *read_post,
                        id,
                        keys[i].1,
                        #[trigger] seen[i],
                    ),
                next is Some <==> seen.len() < keys.len(),
                next matches Some((key, _)) ==> keys[seen.len() as int] == key && range.contains(
                    key,
                ),
            decreases keys.len() - seen.len(),
        {
            match next {
                Some((key, _)) => {
                    let following = db.social_posts_by_time.walk_back(&key, &lo, &hi)?;
                    proof {
                        lemma_rank_at(range, keys.len() - 1 - seen.len());
                    }
                    let found = Self::post_tags_tx(id, key.1, read_post, db)?;
                    let ghost set = texts(found@).to_set();
                    let ghost before = seen;
                    Self::add_tags(found, &mut tags);
                    proof {
                        seen = seen.push(set);
                        assert(seen.drop_last() =~= before);
                    }
                    next = following;
                },
                None => {
                    return Ok(tags);
                },
            }
        }
    }

    fn add_tags(found: Vec<String>, tags: &mut Vec<String>)
        requires
            texts(old(tags)@).no_duplicates(),
        ensures
            texts(final(tags)@).no_duplicates(),
            texts(final(tags)@).to_set() == texts(old(tags)@).to_set().union(
                texts(found@).to_set(),
            ),
    {
        let ghost all = texts(found@);
        let ghost start = texts(tags@).to_set();
        let mut found = found;
        proof {
            assert(all.skip(all.len() as int).to_set() =~= Set::empty());
            assert(start.union(all.skip(all.len() as int).to_set()) =~= start);
        }
        while found.len() > 0
            invariant
                found@.len() <= all.len(),
                texts(found@) == all.take(found@.len() as int),
                texts(tags@).no_duplicates(),
                texts(tags@).to_set() == start.union(all.skip(found@.len() as int).to_set()),
            decreases found.len(),
        {
            let ghost before = found@;
            if let Some(tag) = found.pop() {
                let ghost n = found@.len() as int;
                proof {
                    assert(texts(before)[n] == tag@);
                    assert(all[n] == tag@);
                    assert(texts(found@) =~= all.take(n));
                    let (now, later) = (all.skip(n), all.skip(n + 1));
                    assert(now =~= seq![tag@] + later);
                    assert forall|t: Seq<char>| now.to_set().contains(t) <==> t == tag@
                        || later.to_set().contains(t) by {
                        if now.contains(t) {
                            let q = choose|q: int| 0 <= q < now.len() && now[q] == t;
                            if q > 0 {
                                assert(later[q - 1] == t);
                            }
                        }
                        if later.contains(t) {
                            let q = choose|q: int| 0 <= q < later.len() && later[q] == t;
                            assert(now[q + 1] == t);
                        }
                        assert(now[0] == tag@);
                    }
                }
                let ghost known = tags@;
                if !has_text(tags, &tag) {
                    tags.push(tag);
                    proof {
                        assert(texts(tags@) =~= texts(known).push(tag@));
                        assert(texts(tags@).no_duplicates());
                        assert(texts(tags@).to_set() =~= texts(known).to_set().insert(tag@)) by {
                            assert forall|t: Seq<char>| texts(tags@).to_set().contains(t) <==> texts(
                                known,
                            ).to_set().insert(tag@).contains(t) by {
                                if texts(known).contains(t) {
                                    let q = choose|q: int|
                                        0 <= q < texts(known).len() && texts(known)[q] == t;
                                    assert(texts(tags@)[q] == t);
                                }
                                assert(texts(tags@)[known.len() as int] == tag@);
                            }
                        }
                    }
                }
                assert(texts(tags@).to_set() =~= start.union(all.skip(n).to_set()));
            }
        }
        proof {
            assert(all.skip(0) =~= all);
        }
    }
}

fn has_text(all: &Vec<String>, text: &String) -> (res: bool)
    ensures
        res == texts(all@).contains(text@),
{
    let mut i: usize = 0;
    while i < all.len()
        invariant
            i <= all.len(),
            forall|j: int| 0 <= j < i ==> texts(all@)[j] != text@,
        decreases all.len() - i,
    {
        if all[i] == *text {
            assert(texts(all@)[i as int] == text@);
            return true;
        }
        i = i + 1;
    }
    false
}

proof fn lemma_persona_range(id: RostraId, k: (RostraId, PersonaId))
    ensures
        key_le((id, PersonaId { n: 3 }), k) && key_le(k, (id, PersonaId { n: u8::MAX })) <==> k.0
            == id && k.1.n >= 3,
{
    let (lo, hi) = (PersonaId { n: 3 }, PersonaId { n: u8::MAX });
    lemma_lt_single(k.1.n as u64, 3);
    lemma_lt_single(u8::MAX as u64, k.1.n as u64);
    lemma_pair_lt(k.0, k.1, id, lo);
    lemma_pair_lt(id, hi, k.0, k.1);
    lemma_key_irreflexive(id);
    crate::listing::lemma_key_total(id, k.0);
    if key_lt(id, k.0) {
        crate::listing::lemma_key_asymmetric(id, k.0);
    }
}

}
