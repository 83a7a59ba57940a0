//! Whom a user follows and trusts, and under which names and tags users post.

use vstd::prelude::*;

use crate::graph::{authors_after, events_under};
use crate::ids::{PersonaId, RostraId, ShortEventId, Timestamp};
use crate::listing::{ascending, at_most, key_lt, lemma_sorted, sorted};
use crate::payload::SocialPost;
use crate::personas::{names_all, names_of, persona_name, tags_at, tags_found, tags_in, texts, together};
use crate::social::{payload_of, reads_as};
use crate::table::{keys_of, Value};
use crate::tables::DbState;
use crate::wot::{extended_of, lists_others, others};

verus! {

/// Those whom an identity follows, or who follow it, are listed each once, in
/// order, with what is kept of each, and no other is.
pub proof fn law_others_listed<V: Value>(
    found: Seq<(RostraId, V)>,
    m: Map<(RostraId, RostraId), V::Model>,
    id: RostraId,
)
    requires
        lists_others(found, m, id),
    ensures
        forall|other: RostraId| #[trigger]
            keys_of(found).contains(other) <==> m.contains_key((id, other)),
        forall|i: int, j: int|
            0 <= i < j < found.len() ==> key_lt((#[trigger] found[i]).0, (#[trigger] found[j]).0),
        forall|i: int|
            0 <= i < found.len() ==> m[(id, (#[trigger] found[i]).0)] == found[i].1.model(),
{
    lemma_sorted(others(m, id));
    let keys = keys_of(found);
    assert forall|i: int, j: int| 0 <= i < j < found.len() implies key_lt(
        (#[trigger] found[i]).0,
        (#[trigger] found[j]).0,
    ) by {
        assert(keys[i] == found[i].0);
        assert(keys[j] == found[j].0);
        assert(key_lt(keys[i], keys[j]));
    }
}

/// The extended web of trust of a user holds, each once and in order, those
/// whom at least one of their direct followees follows, who are no direct
/// followees themselves and not the user; and no other.
pub proof fn law_web_of_trust<M>(
    m: Map<(RostraId, RostraId), M>,
    self_id: RostraId,
    direct: Seq<RostraId>,
    x: RostraId,
)
    requires
        extended_of(m, self_id, direct).finite(),
    ensures
        sorted(extended_of(m, self_id, direct)).contains(x) <==> {
            &&& x != self_id
            &&& !direct.contains(x)
            &&& exists|i: int|
                0 <= i < direct.len() && m.contains_key((#[trigger] direct[i], x))
        },
        ascending(sorted(extended_of(m, self_id, direct))),
{
    lemma_sorted(extended_of(m, self_id, direct));
    if exists|f: RostraId| direct.contains(f) && #[trigger] m.contains_key((f, x)) {
        let f = choose|f: RostraId| direct.contains(f) && #[trigger] m.contains_key((f, x));
        let i = choose|i: int| 0 <= i < direct.len() && direct[i] == f;
        assert(m.contains_key((direct[i], x)));
    }
    if exists|i: int| 0 <= i < direct.len() && m.contains_key((#[trigger] direct[i], x)) {
        let i = choose|i: int| 0 <= i < direct.len() && m.contains_key((#[trigger] direct[i], x));
        assert(direct.contains(direct[i]));
        assert(m.contains_key((direct[i], x)));
    }
}

/// The events that a table has of an author are listed each once, in order; so
/// are the authors of whom it has any, from behind the one given, up to as many
/// as asked for, the first ones first.
pub proof fn law_events_and_authors<M>(
    m: Map<(RostraId, ShortEventId), M>,
    author: RostraId,
    after: Option<RostraId>,
    n: nat,
)
    requires
        events_under(m, author).finite(),
        authors_after(m, after).finite(),
    ensures
        forall|id: ShortEventId| #[trigger]
            sorted(events_under(m, author)).contains(id) <==> m.contains_key((author, id)),
        ascending(sorted(events_under(m, author))),
        ({
            let authors = at_most(sorted(authors_after(m, after)), n);
            &&& ascending(authors)
            &&& authors.len() <= n
            &&& forall|a: RostraId| #[trigger]
                authors.contains(a) ==> (exists|id: ShortEventId| m.contains_key((a, id))) && (
                after matches Some(b) ==> key_lt(b, a))
            &&& forall|a: RostraId, id: ShortEventId|
                #![trigger m.contains_key((a, id))]
                m.contains_key((a, id)) && (after matches Some(b) ==> key_lt(b, a))
                    ==> authors.contains(a) || (authors.len() == n && forall|i: int|
                    0 <= i < authors.len() ==> key_lt(#[trigger] authors[i], a))
        }),
{
    lemma_sorted(events_under(m, author));
    let set = authors_after(m, after);
    lemma_sorted(set);
    let all = sorted(set);
    let authors = at_most(all, n);
    assert forall|a: RostraId| #[trigger] authors.contains(a) implies (exists|id: ShortEventId|
        m.contains_key((a, id))) && (after matches Some(b) ==> key_lt(b, a)) by {
        let p = choose|p: int| 0 <= p < authors.len() && authors[p] == a;
        assert(all[p] == a);
        assert(all.contains(a));
        assert(set.contains(a));
    }
    assert forall|a: RostraId, id: ShortEventId|
        #![trigger m.contains_key((a, id))]
        m.contains_key((a, id)) && (after matches Some(b) ==> key_lt(b, a)) implies authors.contains(
        a,
    ) || (authors.len() == n && forall|i: int|
        0 <= i < authors.len() ==> key_lt(#[trigger] authors[i], a)) by {
        assert(set.contains(a));
        assert(all.contains(a));
        let p = choose|p: int| 0 <= p < all.len() && all[p] == a;
        if p < authors.len() {
            assert(authors[p] == a);
        } else {
            assert forall|i: int| 0 <= i < authors.len() implies key_lt(
                #[trigger] authors[i],
                a,
            ) by {
                assert(authors[i] == all[i]);
                assert(key_lt(all[i], all[p]));
            }
        }
    }
}

/// A persona has the name that its user gave it; the first three have names for
/// everyone where no other was given, and the rest have none.
pub proof fn law_persona_named(
    m: Map<(RostraId, PersonaId), Seq<char>>,
    id: RostraId,
    p: PersonaId,
)
    ensures
        m.contains_key((id, p)) ==> persona_name(m, id, p) == Some(m[(id, p)]),
        !m.contains_key((id, p)) ==> {
            &&& p.n == 0 ==> persona_name(m, id, p) == Some("Personal"@)
            &&& p.n == 1 ==> persona_name(m, id, p) == Some("Professional"@)
            &&& p.n == 2 ==> persona_name(m, id, p) == Some("Civic"@)
            &&& p.n > 2 ==> persona_name(m, id, p) is None
        },
{
}

/// Requests for names are answered in their order, each with the name of the
/// persona; only those without a name are left out.
pub proof fn law_names_in_order(
    m: Map<(RostraId, PersonaId), Seq<char>>,
    requests: Seq<(RostraId, PersonaId)>,
)
    ensures
        forall|i: int|
            0 <= i < requests.len() && persona_name(m, requests[i].0, requests[i].1) is Some ==> {
                let before = names_of(m, #[trigger] requests.take(i)).len() as int;
                &&& before < names_of(m, requests).len()
                &&& names_of(m, requests)[before] == (
                    requests[i],
                    persona_name(m, requests[i].0, requests[i].1)->0,
                )
            },
        forall|j: int|
            0 <= j < names_of(m, requests).len() ==> {
                let answer = #[trigger] names_of(m, requests)[j];
                requests.contains(answer.0) && persona_name(m, answer.0.0, answer.0.1) == Some(
                    answer.1,
                )
            },
    decreases requests.len(),
{
    if requests.len() > 0 {
        let earlier = requests.drop_last();
        law_names_in_order(m, earlier);
        let all = names_of(m, requests);
        let found = names_of(m, earlier);
        assert forall|i: int|
            0 <= i < requests.len() && persona_name(
                m,
                requests[i].0,
                requests[i].1,
            ) is Some implies {
            let before = names_of(m, #[trigger] requests.take(i)).len() as int;
            &&& before < all.len()
            &&& all[before] == (requests[i], persona_name(m, requests[i].0, requests[i].1)->0)
        } by {
            if i < earlier.len() {
                assert(requests.take(i) =~= earlier.take(i));
                assert(earlier[i] == requests[i]);
            } else {
                assert(requests.take(i) =~= earlier);
            }
        }
        assert forall|j: int| 0 <= j < all.len() implies {
            let answer = #[trigger] all[j];
            requests.contains(answer.0) && persona_name(m, answer.0.0, answer.0.1) == Some(
                answer.1,
            )
        } by {
            if j < found.len() {
                assert(all[j] == found[j]);
                let p = choose|p: int| 0 <= p < earlier.len() && earlier[p] == found[j].0;
                assert(requests[p] == all[j].0);
            } else {
                assert(requests[requests.len() - 1] == all[j].0);
            }
        }
    }
}

proof fn lemma_together(sets: Seq<Set<Seq<char>>>, tag: Seq<char>)
    ensures
        together(sets).contains(tag) <==> exists|i: int|
            0 <= i < sets.len() && (#[trigger] sets[i]).contains(tag),
    decreases sets.len(),
{
    if sets.len() > 0 {
        let earlier = sets.drop_last();
        lemma_together(earlier, tag);
        if together(earlier).contains(tag) {
            let i = choose|i: int| 0 <= i < earlier.len() && (#[trigger] earlier[i]).contains(tag);
            assert(sets[i].contains(tag));
        }
        if sets.last().contains(tag) {
            assert(sets[sets.len() - 1].contains(tag));
        }
        if exists|i: int| 0 <= i < sets.len() && (#[trigger] sets[i]).contains(tag) {
            let i = choose|i: int| 0 <= i < sets.len() && (#[trigger] sets[i]).contains(tag);
            if i < earlier.len() {
                assert(earlier[i].contains(tag));
            }
        }
    }
}

/// The tags of a user are those under which at least one of the listed posts
/// stands that are theirs, were processed, are stored and can be read; and no
/// other.
pub proof fn law_tags_of_user<F: Fn(&Vec<u8>) -> Option<SocialPost>>(
    db: DbState,
    read_post: F,
    user: RostraId,
    keys: Seq<(Timestamp, ShortEventId)>,
    tags: Set<Seq<char>>,
)
    requires
        tags_found(db, read_post, user, keys, tags),
    ensures
        exists|posts: Seq<Option<SocialPost>>|
            {
                &&& posts.len() == keys.len()
                &&& forall|i: int|
                    0 <= i < posts.len() ==> if db.events.contains_key(keys[i].1)
                        && db.events[keys[i].1].event.author == user {
                        reads_as(read_post, payload_of(db, keys[i].1), #[trigger] posts[i])
                    } else {
                        posts[i] is None
                    }
                &&& forall|tag: Seq<char>|
                    tags.contains(tag) <==> #[trigger] some_has_tag(posts, tag)
            },
{
    let seen = choose|seen: Seq<Set<Seq<char>>>|
        {
            &&& tags == #[trigger] together(seen)
            &&& seen.len() == keys.len()
            &&& forall|i: int|
                0 <= i < seen.len() ==> tags_at(db, read_post, user, keys[i].1, #[trigger] seen[i])
        };
    assert(tags == together(seen));
    let posts = Seq::new(
        keys.len(),
        |i: int|
            if db.events.contains_key(keys[i].1) && db.events[keys[i].1].event.author == user {
                choose|post: Option<SocialPost>|
                    reads_as(read_post, payload_of(db, keys[i].1), post) && seen[i]
                        == #[trigger] tags_in(post)
            } else {
                None
            },
    );
    assert forall|i: int| 0 <= i < posts.len() implies seen[i] == tags_in(#[trigger] posts[i]) && (
    if db.events.contains_key(keys[i].1) && db.events[keys[i].1].event.author == user {
        reads_as(read_post, payload_of(db, keys[i].1), posts[i])
    } else {
        posts[i] is None
    }) by {
        assert(tags_at(db, read_post, user, keys[i].1, seen[i]));
    }
    assert forall|tag: Seq<char>| tags.contains(tag) <==> #[trigger] some_has_tag(posts, tag) by {
        lemma_together(seen, tag);
        if tags.contains(tag) {
            let i = choose|i: int| 0 <= i < seen.len() && (#[trigger] seen[i]).contains(tag);
            assert(seen[i] == tags_in(posts[i]));
            assert(has_tag(posts[i], tag));
        }
        if some_has_tag(posts, tag) {
            let i = choose|i: int| 0 <= i < posts.len() && has_tag(#[trigger] posts[i], tag);
            let t = posts[i]->0.persona_tags@;
            let k = choose|k: int| 0 <= k < t.len() && (#[trigger] t[k])@ == tag;
            assert(texts(t)[k] == tag);
            assert(seen[i] == tags_in(posts[i]));
            assert(seen[i].contains(tag));
        }
    }
}

/// The post stands under the tag.
pub open spec fn has_tag(post: Option<SocialPost>, tag: Seq<char>) -> bool {
    post matches Some(post) && exists|k: int|
        0 <= k < post.persona_tags@.len() && (#[trigger] post.persona_tags@[k])@ == tag
}

/// One of the posts stands under the tag.
pub open spec fn some_has_tag(posts: Seq<Option<SocialPost>>, tag: Seq<char>) -> bool {
    exists|i: int| 0 <= i < posts.len() && has_tag(#[trigger] posts[i], tag)
}

/// All personas of a user are named, each once and in order: those that have a
/// name of their own, and those of the first three that have none.
pub proof fn law_all_personas(
    m: Map<(RostraId, PersonaId), Seq<char>>,
    id: RostraId,
    named: Seq<(PersonaId, String)>,
    p: PersonaId,
)
    requires
        names_all(m, id, named),
    ensures
        (exists|i: int| 0 <= i < named.len() && (#[trigger] named[i]).0 == p) <==> m.contains_key(
            (id, p),
        ) || p.n < 3,
        forall|i: int|
            0 <= i < named.len() && m.contains_key((id, (#[trigger] named[i]).0)) ==> named[i].1@
                == m[(id, named[i].0)],
        forall|i: int, j: int|
            0 <= i < j < named.len() ==> (#[trigger] named[i]).0.n < (#[trigger] named[j]).0.n,
{
    assert(persona_name(m, id, p) is Some <==> m.contains_key((id, p)) || p.n < 3);
    if exists|i: int| 0 <= i < named.len() && (#[trigger] named[i]).0 == p {
        let i = choose|i: int| 0 <= i < named.len() && (#[trigger] named[i]).0 == p;
        assert(persona_name(m, id, named[i].0) == Some(named[i].1@));
    }
}

}
