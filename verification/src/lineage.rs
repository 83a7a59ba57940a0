//! Edits of posts, one after another.

use vstd::prelude::*;

use crate::database::Database;
use crate::error::{unread, DbError, DbResult};
use crate::ids::{lemma_short_id_bounds, RostraId, ShortEventId};
use crate::listing::{
    between, first_of, is_first_of, key_le, key_lt, lemma_first_of, lemma_key_asymmetric,
    lemma_key_irreflexive, lemma_sorted, lemma_triple_lt, lemma_triple_range, sorted,
};
use crate::projection::counts_of;
use crate::table::Table;
use crate::tables::SocialPostRecord;

verus! {

/// Rows of edits, either way round: author, from, to.
pub type Edits = Map<(RostraId, ShortEventId, ShortEventId), ()>;

/// The posts to which an edit leads from a post.
pub open spec fn edits_from(m: Edits, author: RostraId, id: ShortEventId) -> Set<ShortEventId> {
    Set::new(|to: ShortEventId| m.contains_key((author, id, to)))
}

/// The post to which an edit leads from a post: the first where there are
/// several.
pub open spec fn next_version(m: Edits, author: RostraId, id: ShortEventId) -> Option<
    ShortEventId,
> {
    first_of(edits_from(m, author, id))
}

/// Each post of the list is the one to which an edit leads from the post
/// before.
pub open spec fn is_chain(m: Edits, author: RostraId, s: Seq<ShortEventId>) -> bool {
    &&& s.len() > 0
    &&& forall|i: int|
        0 <= i < s.len() - 1 ==> #[trigger] next_version(m, author, s[i]) == Some(s[i + 1])
}

/// All posts that edits lead to from a post, one after another.
pub open spec fn is_whole_chain(
    m: Edits,
    author: RostraId,
    id: ShortEventId,
    s: Seq<ShortEventId>,
) -> bool {
    is_chain(m, author, s) && s[0] == id && next_version(m, author, s.last()) is None
}

/// The posts that edits lead to from a post, that one first; none where they
/// go round in a circle.
pub open spec fn versions_of(m: Edits, author: RostraId, id: ShortEventId) -> Option<
    Seq<ShortEventId>,
> {
    if exists|s: Seq<ShortEventId>| is_whole_chain(m, author, id, s) {
        Some(choose|s: Seq<ShortEventId>| is_whole_chain(m, author, id, s))
    } else {
        None
    }
}

/// The replies to all of the posts together.
pub open spec fn total_replies(
    m: Map<ShortEventId, SocialPostRecord>,
    versions: Seq<ShortEventId>,
) -> nat
    decreases versions.len(),
{
    if versions.len() == 0 {
        0
    } else {
        total_replies(m, versions.drop_last()) + counts_of(m, versions.last()).reply_count as nat
    }
}

/// The replies to a post and to those that it replaced, as far as they can be
/// counted.
pub open spec fn reply_total(
    posts: Map<ShortEventId, SocialPostRecord>,
    replaces: Edits,
    author: RostraId,
    id: ShortEventId,
) -> Result<u64, DbError> {
    match versions_of(replaces, author, id) {
        None => Err(DbError::CyclicEdits { event_id: id }),
        Some(versions) => Ok(
            if total_replies(posts, versions) <= u64::MAX {
                total_replies(posts, versions) as u64
            } else {
                u64::MAX
            },
        ),
    }
}

/// There is one whole chain from a post.
pub proof fn lemma_chain_unique(
    m: Edits,
    author: RostraId,
    id: ShortEventId,
    s: Seq<ShortEventId>,
    t: Seq<ShortEventId>,
)
    requires
        is_whole_chain(m, author, id, s),
        is_whole_chain(m, author, id, t),
    ensures
        s == t,
{
    lemma_chain_agrees(m, author, s, t, s.len() as int);
    lemma_chain_agrees(m, author, t, s, t.len() as int);
    if s.len() < t.len() {
        assert(t[s.len() - 1] == s.last());
        assert(next_version(m, author, t[s.len() - 1]) is Some);
    }
    if t.len() < s.len() {
        assert(s[t.len() - 1] == t.last());
        assert(next_version(m, author, s[t.len() - 1]) is Some);
    }
    assert(s =~= t);
}

proof fn lemma_chain_agrees(
    m: Edits,
    author: RostraId,
    s: Seq<ShortEventId>,
    t: Seq<ShortEventId>,
    n: int,
)
    requires
        is_chain(m, author, s),
        is_chain(m, author, t),
        s[0] == t[0],
        0 <= n <= s.len(),
    ensures
        forall|i: int| 0 <= i < n && i < t.len() ==> s[i] == t[i],
    decreases n,
{
    if n > 1 {
        lemma_chain_agrees(m, author, s, t, n - 1);
        let i = n - 1;
        if i < t.len() {
            assert(next_version(m, author, s[i - 1]) == Some(s[i - 1 + 1]));
            assert(next_version(m, author, t[i - 1]) == Some(t[i - 1 + 1]));
        }
    }
}

/// Where a chain leads back into itself, it has no end.
proof fn lemma_circle(
    m: Edits,
    author: RostraId,
    id: ShortEventId,
    path: Seq<ShortEventId>,
    to: ShortEventId,
)
    requires
        is_chain(m, author, path),
        path[0] == id,
        next_version(m, author, path.last()) == Some(to),
        path.contains(to),
    ensures
        versions_of(m, author, id) is None,
{
    if versions_of(m, author, id) is Some {
        let s = choose|s: Seq<ShortEventId>| is_whole_chain(m, author, id, s);
        lemma_stays_in(m, author, path, to, s, s.len() as int);
        let p = choose|p: int| 0 <= p < path.len() && path[p] == s.last();
        assert(path.contains(s[s.len() - 1]));
        if p < path.len() - 1 {
            assert(next_version(m, author, path[p]) is Some);
        }
    }
}

proof fn lemma_stays_in(
    m: Edits,
    author: RostraId,
    path: Seq<ShortEventId>,
    to: ShortEventId,
    s: Seq<ShortEventId>,
    n: int,
)
    requires
        is_chain(m, author, path),
        next_version(m, author, path.last()) == Some(to),
        path.contains(to),
        is_chain(m, author, s),
        s[0] == path[0],
        0 <= n <= s.len(),
    ensures
        forall|i: int| 0 <= i < n ==> path.contains(#[trigger] s[i]),
    decreases n,
{
    if n == 1 {
        assert(path[0] == s[0]);
    } else if n > 1 {
        lemma_stays_in(m, author, path, to, s, n - 1);
        let i = n - 2;
        assert(path.contains(s[i]));
        let p = choose|p: int| 0 <= p < path.len() && path[p] == s[i];
        assert(next_version(m, author, s[i]) == Some(s[i + 1]));
        if p < path.len() - 1 {
            assert(next_version(m, author, path[p]) == Some(path[p + 1]));
            assert(path.contains(path[p + 1]));
        }
    }
}

fn holds(ids: &Vec<ShortEventId>, id: ShortEventId) -> (res: bool)
    ensures
        res == ids@.contains(id),
{
    let mut i: usize = 0;
    while i < ids.len()
        invariant
            i <= ids.len(),
            forall|j: int| 0 <= j < i ==> ids@[j] != id,
        decreases ids.len() - i,
    {
        if ids[i] == id {
            assert(ids@[i as int] == id);
            return true;
        }
        i = i + 1;
    }
    false
}

proof fn lemma_chain_bounded(m: Edits, author: RostraId, s: Seq<ShortEventId>)
    requires
        is_chain(m, author, s),
        s.no_duplicates(),
        m.dom().finite(),
    ensures
        s.len() <= m.dom().len() + 1,
{
    let keys = Seq::new((s.len() - 1) as nat, |i: int| (author, s[i], s[i + 1]));
    assert(keys.no_duplicates()) by {
        assert forall|i: int, j: int| 0 <= i < j < keys.len() implies keys[i] != keys[j] by {
            assert(s[i] != s[j]);
        }
    }
    keys.unique_seq_to_set();
    assert forall|k: (RostraId, ShortEventId, ShortEventId)|
        keys.to_set().contains(k) implies m.dom().contains(k) by {
        let i = choose|i: int| 0 <= i < keys.len() && keys[i] == k;
        assert(next_version(m, author, s[i]) == Some(s[i + 1]));
        assert(edits_from(m, author, s[i]).contains(s[i + 1])) by {
            let set = edits_from(m, author, s[i]);
            assert(exists|x: ShortEventId| is_first_of(set, x));
            assert(is_first_of(set, s[i + 1]));
        }
    }
    vstd::set_lib::lemma_len_subset(keys.to_set(), m.dom());
}

/// Where a post that replaces another is stored, so is the last version of a
/// stored post.
pub proof fn lemma_version_stored<M>(
    m: Edits,
    events: Map<ShortEventId, M>,
    author: RostraId,
    id: ShortEventId,
)
    requires
        events.contains_key(id),
        forall|k: (RostraId, ShortEventId, ShortEventId)| #[trigger]
            m.contains_key(k) ==> events.contains_key(k.2),
    ensures
        versions_of(m, author, id) matches Some(s) ==> s.len() > 0 && events.contains_key(s.last()),
{
    if let Some(s) = versions_of(m, author, id) {
        assert(is_whole_chain(m, author, id, s));
        if s.len() > 1 {
            let i = s.len() - 2;
            assert(next_version(m, author, s[i]) == Some(s[i + 1]));
            let set = edits_from(m, author, s[i]);
            assert(exists|x: ShortEventId| is_first_of(set, x));
            assert(is_first_of(set, s[i + 1]));
            assert(m.contains_key((author, s[i], s[i + 1])));
        }
    }
}

impl Database {
    fn next_version_tx(
        author: RostraId,
        id: ShortEventId,
        edits: &Table<'_, (RostraId, ShortEventId, ShortEventId), ()>,
    ) -> (res: DbResult<Option<ShortEventId>>)
        ensures
            match res {
                Ok(next) => next == next_version(edits@, author, id) && edits@.dom().finite(),
                Err(e) => e.is_fault(),
            },
            unread(res) ==> !edits.intact(),
    {
        let lo = (author, id, ShortEventId::zero());
        let hi = (author, id, ShortEventId::max());
        let found = edits.walk_from(&lo, &hi)?;
        proof {
            let m = edits@;
            let range = between(m, lo, hi);
            let set = edits_from(m, author, id);
            lemma_sorted(range);
            assert forall|k: (RostraId, ShortEventId, ShortEventId)|
                range.contains(k) <==> #[trigger] m.contains_key(k) && k.0 == author && k.1
                    == id by {
                lemma_short_id_bounds(k.2);
                lemma_triple_range(
                    author,
                    id,
                    ShortEventId::spec_zero(),
                    ShortEventId::spec_max(),
                    k,
                );
            }
            match found {
                Some((key, _)) => {
                    assert forall|x: ShortEventId| #[trigger] set.contains(x) implies key_le(
                        key.2,
                        x,
                    ) by {
                        let k = (author, id, x);
                        assert(m.contains_key(k));
                        assert(range.contains(k));
                        assert(sorted(range).contains(k));
                        let p = choose|p: int| 0 <= p < sorted(range).len() && sorted(range)[p]
                            == k;
                        lemma_triple_lt(key, k);
                        lemma_key_irreflexive(author);
                        lemma_key_irreflexive(id);
                        lemma_key_irreflexive(x);
                        if p > 0 {
                            assert(key_lt(sorted(range)[0], sorted(range)[p]));
                            lemma_key_asymmetric(key.2, x);
                        }
                    }
                    assert(key == (author, id, key.2));
                    assert(m.contains_key((author, id, key.2)));
                    assert(is_first_of(set, key.2));
                    lemma_first_of(set, key.2);
                },
                None => {
                    assert forall|x: ShortEventId| !#[trigger] set.contains(x) by {
                        if set.contains(x) {
                            assert(m.contains_key((author, id, x)));
                            assert(sorted(range).contains((author, id, x)));
                        }
                    }
                },
            }
        }
        match found {
            Some((key, _)) => Ok(Some(key.2)),
            None => Ok(None),
        }
    }

    fn follow_edits_tx(
        author: RostraId,
        event_id: ShortEventId,
        edits: &Table<'_, (RostraId, ShortEventId, ShortEventId), ()>,
    ) -> (res: DbResult<Vec<ShortEventId>>)
        ensures
            match res {
                Ok(versions) => versions_of(edits@, author, event_id) == Some(versions@)
                    && versions@.len() > 0,
                Err(e) => e.is_fault() || versions_of(edits@, author, event_id) is None && e == (
                DbError::CyclicEdits { event_id }),
            },
            unread(res) ==> !edits.intact(),
    {
        let mut versions: Vec<ShortEventId> = vec![event_id];
        let mut next = Self::next_version_tx(author, event_id, edits)?;
        loop
            invariant
                edits@.dom().finite(),
                is_chain(edits@, author, versions@),
                versions@[0] == event_id,
                versions@.no_duplicates(),
                next == next_version(edits@, author, versions@.last()),
            decreases edits@.dom().len() + 1 - versions.len(),
        {
            match next {
                None => {
                    proof {
                        assert(is_whole_chain(edits@, author, event_id, versions@));
                        let s = choose|s: Seq<ShortEventId>|
                            is_whole_chain(edits@, author, event_id, s);
                        lemma_chain_unique(edits@, author, event_id, versions@, s);
                    }
                    return Ok(versions);
                },
                Some(id) => {
                    if holds(&versions, id) {
                        proof {
                            lemma_circle(edits@, author, event_id, versions@, id);
                        }
                        return Err(DbError::CyclicEdits { event_id });
                    }
                    let ghost before = versions@;
                    versions.push(id);
                    proof {
                        assert forall|i: int|
                            0 <= i < versions@.len() - 1 implies #[trigger] next_version(
                            edits@,
                            author,
                            versions@[i],
                        ) == Some(versions@[i + 1]) by {
                            assert(versions@[i] == before[i]);
                            if i < before.len() - 1 {
                                assert(next_version(edits@, author, before[i]) == Some(
                                    before[i + 1],
                                ));
                            }
                        }
                        assert(versions@.no_duplicates());
                        lemma_chain_bounded(edits@, author, versions@);
                    }
                    next = Self::next_version_tx(author, id, edits)?;
                },
            }
        }
    }

    /// Whether a later post replaced the post.
    pub fn is_social_post_replaced_tx(
        author: RostraId,
        event_id: ShortEventId,
        social_posts_replaced_by: &Table<'_, (RostraId, ShortEventId, ShortEventId), ()>,
    ) -> (res: DbResult<bool>)
        ensures
            match res {
                Ok(replaced) => replaced == (next_version(
                    social_posts_replaced_by@,
                    author,
                    event_id,
                ) is Some),
                Err(e) => e.is_fault(),
            },
            unread(res) ==> !social_posts_replaced_by.intact(),
    {
        Ok(Self::next_version_tx(author, event_id, social_posts_replaced_by)?.is_some())
    }

    /// The latest version of a post: the one that nothing replaced.
    pub fn latest_social_post_version_tx(
        author: RostraId,
        event_id: ShortEventId,
        social_posts_replaced_by: &Table<'_, (RostraId, ShortEventId, ShortEventId), ()>,
    ) -> (res: DbResult<ShortEventId>)
        ensures
            match res {
                Ok(latest) => versions_of(
                    social_posts_replaced_by@,
                    author,
                    event_id,
                ) matches Some(versions) && versions.len() > 0 && versions.last() == latest,
                Err(e) => e.is_fault() || versions_of(
                    social_posts_replaced_by@,
                    author,
                    event_id,
                ) is None && e == (DbError::CyclicEdits { event_id }),
            },
            unread(res) ==> !social_posts_replaced_by.intact(),
    {
        let versions = Self::follow_edits_tx(author, event_id, social_posts_replaced_by)?;
        Ok(versions[versions.len() - 1])
    }

    /// A post and those that it replaced, the latest first.
    pub fn social_post_versions_tx(
        author: RostraId,
        event_id: ShortEventId,
        social_posts_replaces: &Table<'_, (RostraId, ShortEventId, ShortEventId), ()>,
    ) -> (res: DbResult<Vec<ShortEventId>>)
        ensures
            match res {
                Ok(versions) => versions_of(social_posts_replaces@, author, event_id) == Some(
                    versions@,
                ),
                Err(e) => e.is_fault() || versions_of(
                    social_posts_replaces@,
                    author,
                    event_id,
                ) is None && e == (DbError::CyclicEdits { event_id }),
            },
            unread(res) ==> !social_posts_replaces.intact(),
    {
        Self::follow_edits_tx(author, event_id, social_posts_replaces)
    }

    /// The replies to a post and to those that it replaced; see
    /// [`reply_total`].
    pub fn social_post_reply_count_tx(
        author: RostraId,
        event_id: ShortEventId,
        social_posts: &Table<'_, ShortEventId, SocialPostRecord>,
        social_posts_replaces: &Table<'_, (RostraId, ShortEventId, ShortEventId), ()>,
    ) -> (res: DbResult<u64>)
        ensures
            match res {
                Ok(n) => reply_total(
                    social_posts@,
                    social_posts_replaces@,
                    author,
                    event_id,
                ) == Ok::<_, DbError>(n),
                Err(e) => e.is_fault() || reply_total(
                    social_posts@,
                    social_posts_replaces@,
                    author,
                    event_id,
                ) == Err::<u64, _>(e),
            },
            unread(res) ==> !(social_posts.intact() && social_posts_replaces.intact()),
    {
        let versions = Self::social_post_versions_tx(author, event_id, social_posts_replaces)?;
        let mut reply_count: u64 = 0;
        let mut i: usize = 0;
        proof {
            assert(versions@.take(0) =~= Seq::empty());
        }
        while i < versions.len()
            invariant
                i <= versions.len(),
                reply_count == (if total_replies(social_posts@, versions@.take(i as int))
                    <= u64::MAX {
                    total_replies(social_posts@, versions@.take(i as int)) as u64
                } else {
                    u64::MAX
                }),
            decreases versions.len() - i,
        {
            let replies: u64 = match social_posts.get(&versions[i])? {
                Some(record) => record.reply_count,
                None => 0,
            };
            proof {
                assert(versions@.take(i + 1).drop_last() =~= versions@.take(i as int));
                assert(versions@.take(i + 1).last() == versions@[i as int]);
            }
            reply_count = reply_count.saturating_add(replies);
            i = i + 1;
        }
        proof {
            assert(versions@.take(i as int) =~= versions@);
        }
        Ok(reply_count)
    }
}

}
