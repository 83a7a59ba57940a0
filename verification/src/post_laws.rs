//! What the payload of a post does to the lists of posts, and how many replies
//! a post has.

use vstd::prelude::*;

use crate::database::Database;
use crate::error::DbError;
use crate::event::VerifiedEvent;
use crate::event_laws::{deleted_in_advance, law_insertion_told};
use crate::ids::{ExternalEventId, RostraId, ShortEventId, Timestamp};
use crate::insert_event::{header_stored, inserted, parents_linked, placed, InsertOutcomeModel};
use crate::lineage::{
    edits_from, is_whole_chain, lemma_chain_unique, next_version, reply_total, total_replies,
    versions_of, Edits,
};
use crate::listing::{
    is_first_of, key_le, key_lt, lemma_first_of, lemma_sorted, lemma_u64_lt, sorted,
};
use crate::payload::{white_space, Action, Payload, SocialPost};
use crate::process_content::{content_processed, content_reverted, ContentOutcome};
use crate::process_event::{
    event_finished, event_processed, lineage_noted, registered, self_listed, Arrival,
};
use crate::projection::counts_of;
use crate::projection_laws::{answers_to, counts_exact, orders_used};
use crate::retention_laws::lemma_no_first;
use crate::social::{latest_version, record_of, shown_post, SocialPostRecord};
use crate::tables::DbState;

verus! {

/// The payload of a post that is waited for.
pub open spec fn awaited_post(db: DbState, e: VerifiedEvent) -> bool {
    &&& e.event.kind is SocialPost
    &&& db.events_content_state.contains_key(e.id())
    &&& db.events_content_state[e.id()] is Missing
}

/// The post says something: its body has a character that is no white space.
pub open spec fn speaks(post: SocialPost) -> bool {
    post.djot_content matches Some(text) && exists|i: int|
        0 <= i < text@.len() && !white_space(#[trigger] text@[i])
}

/// The post is there to be seen: it asks for no deletion, or it says something
/// in place of what it asks to be deleted.
pub open spec fn to_be_seen(e: VerifiedEvent, post: SocialPost) -> bool {
    !e.event.deletes_parent_aux || (e.event.parent_aux is Some && speaks(post))
}

/// A post is noted as a mention of the local user just where it is to be seen,
/// another user wrote it, it has a body and that mentions the local user;
/// nothing else decides it, and no other post is noted or forgotten.
pub proof fn law_mention_noted(
    me: Database,
    db: DbState,
    e: VerifiedEvent,
    bytes: Seq<u8>,
    post: SocialPost,
    mentions_self: bool,
    now: Timestamp,
)
    requires
        awaited_post(db, e),
    ensures
        content_processed(
            me,
            db,
            e,
            bytes,
            Payload::SocialPost { post, mentions_self },
            now,
        ) matches Ok((_, after)) ==> forall|id: ShortEventId| #[trigger]
            after.social_posts_self_mention.contains_key(id)
                <==> db.social_posts_self_mention.contains_key(id) || (id == e.id() && to_be_seen(
                e,
                post,
            ) && e.event.author != me.self_id && post.djot_content is Some && mentions_self),
{
}

/// A post that is to be seen counts as received now, unless the local user
/// follows its author, another user, and it was written before both the
/// database was created and the follow began: then it counts as received when
/// it was written. It gets one row under that time, and is found from it;
/// every other row stays.
pub proof fn law_reception_dated(
    me: Database,
    db: DbState,
    e: VerifiedEvent,
    bytes: Seq<u8>,
    post: SocialPost,
    mentions_self: bool,
    now: Timestamp,
)
    requires
        awaited_post(db, e),
        to_be_seen(e, post),
    ensures
        content_processed(
            me,
            db,
            e,
            bytes,
            Payload::SocialPost { post, mentions_self },
            now,
        ) matches Ok((_, after)) ==> {
            let followed = (me.self_id, e.event.author);
            let old_post = {
                &&& e.event.author != me.self_id
                &&& e.event.timestamp.secs < me.db_init_time.secs
                &&& db.ids_followees.contains_key(followed)
                &&& e.event.timestamp.secs < db.ids_followees[followed].first_ts.secs
            };
            let receipt = after.social_posts_received_at_keys[e.id()];
            let row = (receipt.received_at, receipt.order);
            &&& receipt.received_at == (if old_post {
                e.event.timestamp
            } else {
                now
            })
            &&& !db.social_posts_received_at_keys.contains_key(e.id())
            &&& after.social_posts_received_at_keys.contains_key(e.id())
            &&& after.social_posts_received_at_keys.remove(e.id())
                == db.social_posts_received_at_keys
            &&& !db.social_posts_by_received_at.contains_key(row)
            &&& after.social_posts_by_received_at.contains_key(row)
            &&& after.social_posts_by_received_at[row] == e.id()
            &&& after.social_posts_by_received_at.remove(row) == db.social_posts_by_received_at
        },
{
    if let Ok((_, after)) = content_processed(
        me,
        db,
        e,
        bytes,
        Payload::SocialPost { post, mentions_self },
        now,
    ) {
        let receipt = after.social_posts_received_at_keys[e.id()];
        let row = (receipt.received_at, receipt.order);
        assert(after.social_posts_received_at_keys.remove(e.id())
            =~= db.social_posts_received_at_keys);
        assert(after.social_posts_by_received_at.remove(row) =~= db.social_posts_by_received_at);
    }
}

/// A post that is to be seen is listed under the time at which it was written,
/// whoever wrote it; one that is to take the place of another is noted as an
/// edit of that one, both ways, under its author. No other row comes or goes.
pub proof fn law_post_listed(
    me: Database,
    db: DbState,
    e: VerifiedEvent,
    bytes: Seq<u8>,
    post: SocialPost,
    mentions_self: bool,
    now: Timestamp,
)
    requires
        awaited_post(db, e),
        to_be_seen(e, post),
    ensures
        content_processed(
            me,
            db,
            e,
            bytes,
            Payload::SocialPost { post, mentions_self },
            now,
        ) matches Ok((_, after)) ==> {
            &&& forall|k: (Timestamp, ShortEventId)| #[trigger]
                after.social_posts_by_time.contains_key(k) <==> db.social_posts_by_time.contains_key(
                    k,
                ) || k == (e.event.timestamp, e.id())
            &&& forall|older: ShortEventId, newer: ShortEventId|
                #![trigger after.social_posts_replaced_by.contains_key((e.event.author, older, newer))]
                after.social_posts_replaced_by.contains_key((e.event.author, older, newer))
                    <==> db.social_posts_replaced_by.contains_key((e.event.author, older, newer))
                    || (e.event.deletes_parent_aux && e.event.parent_aux == Some(older) && newer
                    == e.id())
            &&& forall|older: ShortEventId, newer: ShortEventId|
                #![trigger after.social_posts_replaces.contains_key((e.event.author, newer, older))]
                after.social_posts_replaces.contains_key((e.event.author, newer, older))
                    <==> db.social_posts_replaces.contains_key((e.event.author, newer, older))
                    || (e.event.deletes_parent_aux && e.event.parent_aux == Some(older) && newer
                    == e.id())
            &&& forall|k: (RostraId, ShortEventId, ShortEventId)|
                #![trigger after.social_posts_replaced_by.contains_key(k)]
                #![trigger after.social_posts_replaces.contains_key(k)]
                k.0 != e.event.author ==> (after.social_posts_replaced_by.contains_key(k)
                    <==> db.social_posts_replaced_by.contains_key(k)) && (
                after.social_posts_replaces.contains_key(k)
                    <==> db.social_posts_replaces.contains_key(k))
        },
{
}

/// A post that is to be seen and answers another is counted and listed at that
/// one: as a reply where it has a body, as a reaction where it has one, as
/// both where it has both. No other post gains or loses an answer.
pub proof fn law_answer_counted(
    me: Database,
    db: DbState,
    e: VerifiedEvent,
    bytes: Seq<u8>,
    post: SocialPost,
    mentions_self: bool,
    now: Timestamp,
)
    requires
        awaited_post(db, e),
        to_be_seen(e, post),
    ensures
        content_processed(
            me,
            db,
            e,
            bytes,
            Payload::SocialPost { post, mentions_self },
            now,
        ) matches Ok((_, after)) ==> {
            let replies = |d: DbState, id: ShortEventId|
                if d.social_posts.contains_key(id) {
                    d.social_posts[id].reply_count as int
                } else {
                    0
                };
            let reactions = |d: DbState, id: ShortEventId|
                if d.social_posts.contains_key(id) {
                    d.social_posts[id].reaction_count as int
                } else {
                    0
                };
            let answers = |id: ShortEventId|
                post.reply_to matches Some(target) && target.event_id == id;
            &&& forall|id: ShortEventId| #[trigger]
                replies(after, id) == replies(db, id) + (if answers(id) && post.djot_content
                    is Some {
                    1int
                } else {
                    0
                })
            &&& forall|id: ShortEventId| #[trigger]
                reactions(after, id) == reactions(db, id) + (if answers(id) && post.reaction
                    is Some {
                    1int
                } else {
                    0
                })
            &&& forall|k: (ShortEventId, Timestamp, ShortEventId)| #[trigger]
                after.social_posts_replies.contains_key(k)
                    <==> db.social_posts_replies.contains_key(k) || (answers(k.0)
                    && post.djot_content is Some && k.1 == e.event.timestamp && k.2 == e.id())
            &&& forall|k: (ShortEventId, Timestamp, ShortEventId)| #[trigger]
                after.social_posts_reactions.contains_key(k)
                    <==> db.social_posts_reactions.contains_key(k) || (answers(k.0)
                    && post.reaction is Some && k.1 == e.event.timestamp && k.2 == e.id())
        },
{
}

/// A post that only deletes is taken without a trace in the lists of posts,
/// and nobody is told of it.
pub proof fn law_bare_deletion_unseen(
    me: Database,
    db: DbState,
    e: VerifiedEvent,
    bytes: Seq<u8>,
    post: SocialPost,
    mentions_self: bool,
    now: Timestamp,
)
    requires
        awaited_post(db, e),
        !to_be_seen(e, post),
    ensures
        content_processed(
            me,
            db,
            e,
            bytes,
            Payload::SocialPost { post, mentions_self },
            now,
        ) matches Ok(((outcome, actions), after)) ==> {
            &&& outcome is Processed
            &&& actions.len() == 0
            &&& after == (DbState {
                content_store: after.content_store,
                events_content_missing: after.events_content_missing,
                events_content_state: after.events_content_state,
                events_retention_origins: after.events_retention_origins,
                ids_data_usage: after.ids_data_usage,
                ..db
            })
        },
{
}

/// Of a post that is to be seen everybody is told once, and where it is offered
/// as news its rank is asked for, under its author, with the time at which it
/// was written. It is appended behind all posts that were shown before.
pub proof fn law_post_announced(
    me: Database,
    db: DbState,
    e: VerifiedEvent,
    bytes: Seq<u8>,
    post: SocialPost,
    mentions_self: bool,
    now: Timestamp,
)
    requires
        awaited_post(db, e),
        to_be_seen(e, post),
        db.social_post_materializations.dom().finite(),
    ensures
        content_processed(
            me,
            db,
            e,
            bytes,
            Payload::SocialPost { post, mentions_self },
            now,
        ) matches Ok(((outcome, actions), after)) ==> {
            &&& outcome is Processed
            &&& actions.len() == (if post.news {
                2nat
            } else {
                1nat
            })
            &&& actions[0] == (Action::NewPost { event_id: e.id() })
            &&& post.news ==> actions[1] == (Action::UpsertNewsRank {
                post_id: ExternalEventId { rostra_id: e.event.author, event_id: e.id() },
                written_at: e.event.timestamp,
                now,
            })
            &&& exists|place: u64|
                {
                    &&& !db.social_post_materializations.contains_key(place)
                    &&& after.social_post_materializations
                        == #[trigger] db.social_post_materializations.insert(place, e.id())
                    &&& forall|i: u64| #[trigger]
                        db.social_post_materializations.contains_key(i) ==> i < place
                }
        },
{
    let m = db.social_post_materializations;
    let places = sorted(m.dom());
    lemma_sorted(m.dom());
    let place = if places.len() == 0 {
        0u64
    } else {
        (places.last() + 1) as u64
    };
    if let Ok((_, after)) = content_processed(
        me,
        db,
        e,
        bytes,
        Payload::SocialPost { post, mentions_self },
        now,
    ) {
        assert forall|i: u64| #[trigger] m.contains_key(i) implies i < place by {
            assert(places.contains(i));
            let p = choose|p: int| 0 <= p < places.len() && places[p] == i;
            if p < places.len() - 1 {
                assert(key_lt(places[p], places[places.len() - 1]));
                lemma_u64_lt(i, places.last());
            }
        }
        assert(after.social_post_materializations == m.insert(place, e.id()));
    }
}

/// The payload of a post is taken where its author's usage has room, it was
/// not listed before, and counters have room: nothing else refuses it.
pub proof fn law_post_accepted(
    me: Database,
    db: DbState,
    e: VerifiedEvent,
    bytes: Seq<u8>,
    post: SocialPost,
    mentions_self: bool,
    now: Timestamp,
)
    requires
        awaited_post(db, e),
        db.ids_data_usage.contains_key(e.event.author),
        ({
            let u = db.ids_data_usage[e.event.author];
            &&& e.event.content_len <= u.missing_payload_size
            &&& 1 <= u.missing_payload_num
            &&& u.current_content_size + e.event.content_len <= u64::MAX
            &&& u.current_payload_num < u64::MAX
        }),
        !db.social_posts_received_at_keys.contains_key(e.id()),
        orders_used(db),
        db.reception_order_next.contains_key(()) ==> db.reception_order_next[()] < u64::MAX,
        forall|id: ShortEventId| #[trigger]
            db.social_posts.contains_key(id) ==> db.social_posts[id].reply_count < u64::MAX
                && db.social_posts[id].reaction_count < u64::MAX,
        db.social_post_materializations.dom().finite(),
        !db.social_post_materializations.contains_key(u64::MAX),
    ensures
        content_processed(
            me,
            db,
            e,
            bytes,
            Payload::SocialPost { post, mentions_self },
            now,
        ) matches Ok(((outcome, _), after)) && outcome is Processed
            && !after.events_content_state.contains_key(e.id()),
{
    let m = db.social_post_materializations;
    let places = sorted(m.dom());
    lemma_sorted(m.dom());
    if places.len() > 0 {
        assert(places.contains(places[places.len() - 1]));
        assert(m.contains_key(places.last()));
    }
}

/// The posts that a post replaced, one after another, it first: each is the
/// one that the post before it replaced, the first where there are several,
/// and the last replaced none.
pub open spec fn versions_back(
    replaces: Edits,
    author: RostraId,
    id: ShortEventId,
    versions: Seq<ShortEventId>,
) -> bool {
    &&& versions.len() > 0
    &&& versions[0] == id
    &&& forall|i: int, j: int|
        0 <= i && j == i + 1 && j < versions.len() ==> #[trigger] replaces.contains_key(
            (author, versions[i], versions[j]),
        )
    &&& forall|i: int, x: ShortEventId|
        0 <= i < versions.len() - 1 && #[trigger] replaces.contains_key((author, versions[i], x))
            ==> key_le(versions[i + 1], x)
    &&& forall|x: ShortEventId| !#[trigger] replaces.contains_key((author, versions.last(), x))
}

/// The reply rows that answer one of the posts.
pub open spec fn replies_to_any(db: DbState, versions: Seq<ShortEventId>) -> Set<
    (ShortEventId, Timestamp, ShortEventId),
> {
    Set::new(
        |k: (ShortEventId, Timestamp, ShortEventId)|
            db.social_posts_replies.contains_key(k) && versions.contains(k.0),
    )
}

proof fn lemma_versions_back(
    replaces: Edits,
    author: RostraId,
    id: ShortEventId,
    versions: Seq<ShortEventId>,
)
    requires
        versions_back(replaces, author, id, versions),
    ensures
        is_whole_chain(replaces, author, id, versions),
{
    assert forall|i: int| 0 <= i < versions.len() - 1 implies #[trigger] next_version(
        replaces,
        author,
        versions[i],
    ) == Some(versions[i + 1]) by {
        let set = edits_from(replaces, author, versions[i]);
        assert(replaces.contains_key((author, versions[i], versions[i + 1])));
        assert(is_first_of(set, versions[i + 1]));
        lemma_first_of(set, versions[i + 1]);
    }
    let set = edits_from(replaces, author, versions.last());
    assert forall|x: ShortEventId| !is_first_of(set, x) by {
        if is_first_of(set, x) {
            assert(replaces.contains_key((author, versions.last(), x)));
        }
    }
}

/// The versions of a post are those that it replaced, one after another.
pub proof fn lemma_versions_known(
    replaces: Edits,
    author: RostraId,
    id: ShortEventId,
    versions: Seq<ShortEventId>,
)
    requires
        versions_back(replaces, author, id, versions),
    ensures
        versions_of(replaces, author, id) == Some(versions),
{
    lemma_versions_back(replaces, author, id, versions);
    lemma_chain_unique(replaces, author, id, versions, versions_of(replaces, author, id)->0);
}

/// A chain that ends does not come back to a post.
proof fn lemma_versions_apart(
    replaces: Edits,
    author: RostraId,
    id: ShortEventId,
    versions: Seq<ShortEventId>,
    i: int,
    j: int,
)
    requires
        is_whole_chain(replaces, author, id, versions),
        0 <= i < j < versions.len(),
    ensures
        versions[i] != versions[j],
    decreases versions.len() - j,
{
    assert(next_version(replaces, author, versions[i]) == Some(versions[i + 1]));
    if j == versions.len() - 1 {
        assert(versions[j] == versions.last());
    } else {
        assert(next_version(replaces, author, versions[j]) == Some(versions[j + 1]));
        lemma_versions_apart(replaces, author, id, versions, i + 1, j + 1);
    }
}

/// The counts of different posts add up to the number of their reply rows.
proof fn lemma_replies_add_up(db: DbState, versions: Seq<ShortEventId>)
    requires
        counts_exact(db),
        versions.no_duplicates(),
    ensures
        replies_to_any(db, versions).finite(),
        total_replies(db.social_posts, versions) == replies_to_any(db, versions).len(),
    decreases versions.len(),
{
    let rows = replies_to_any(db, versions);
    vstd::set_lib::lemma_set_subset_finite(db.social_posts_replies.dom(), rows);
    if versions.len() == 0 {
        assert(rows =~= Set::empty());
    } else {
        let earlier = versions.drop_last();
        let last = versions.last();
        lemma_replies_add_up(db, earlier);
        let before = replies_to_any(db, earlier);
        let own = answers_to(db.social_posts_replies, last);
        vstd::set_lib::lemma_set_subset_finite(db.social_posts_replies.dom(), own);
        assert(counts_of(db.social_posts, last).reply_count == own.len());
        assert forall|k: (ShortEventId, Timestamp, ShortEventId)|
            rows.contains(k) <==> before.contains(k) || own.contains(k) by {
            if versions.contains(k.0) {
                let p = choose|p: int| 0 <= p < versions.len() && versions[p] == k.0;
                if p < earlier.len() {
                    assert(earlier[p] == k.0);
                }
            }
            if earlier.contains(k.0) {
                let p = choose|p: int| 0 <= p < earlier.len() && earlier[p] == k.0;
                assert(versions[p] == k.0);
            }
            assert(versions[versions.len() - 1] == last);
        }
        assert(rows =~= before.union(own));
        assert(before.disjoint(own)) by {
            assert forall|k: (ShortEventId, Timestamp, ShortEventId)|
                before.contains(k) implies !own.contains(k) by {
                if own.contains(k) {
                    let p = choose|p: int| 0 <= p < earlier.len() && earlier[p] == k.0;
                    assert(versions[p] == versions[versions.len() - 1]);
                }
            }
        }
        vstd::set_lib::lemma_set_disjoint_lens(before, own);
    }
}

/// A post is shown with the number of replies to it and to all posts that it
/// replaced: as many as there are reply rows for any of them, as far as they
/// can be counted.
pub proof fn law_replies_to_all_versions(
    db: DbState,
    author: RostraId,
    id: ShortEventId,
    versions: Seq<ShortEventId>,
)
    requires
        counts_exact(db),
        versions_back(db.social_posts_replaces, author, id, versions),
    ensures
        replies_to_any(db, versions).finite(),
        reply_total(db.social_posts, db.social_posts_replaces, author, id) matches Ok(n) && n == (
        if replies_to_any(db, versions).len() <= u64::MAX {
            replies_to_any(db, versions).len() as int
        } else {
            u64::MAX as int
        }),
{
    let replaces = db.social_posts_replaces;
    lemma_versions_back(replaces, author, id, versions);
    let s = versions_of(replaces, author, id)->0;
    lemma_chain_unique(replaces, author, id, versions, s);
    assert(versions.no_duplicates()) by {
        assert forall|i: int, j: int| 0 <= i < j < versions.len() implies versions[i]
            != versions[j] by {
            lemma_versions_apart(replaces, author, id, versions, i, j);
        }
    }
    lemma_replies_add_up(db, versions);
}

/// What is shown of a post, by itself or in a list, is what its author wrote,
/// with the replies to all of its versions.
pub proof fn law_shown_with_replies(
    db: DbState,
    id: ShortEventId,
    ts: Timestamp,
    post: SocialPost,
    versions: Seq<ShortEventId>,
)
    requires
        counts_exact(db),
        db.events.contains_key(id),
        versions_back(db.social_posts_replaces, db.events[id].event.author, id, versions),
        replies_to_any(db, versions).len() <= u64::MAX,
    ensures
        record_of(db, id, ts, Some(post)) == Ok::<_, DbError>(
            Some(
                SocialPostRecord {
                    ts,
                    event_id: id,
                    author: db.events[id].event.author,
                    reply_to: post.reply_to,
                    content: post,
                    reply_count: replies_to_any(db, versions).len() as u64,
                },
            ),
        ),
        shown_post(db, id, Some(post)) == (if db.events[id].event.deletes_parent_aux && !speaks(
            post,
        ) {
            Ok::<_, DbError>(None)
        } else {
            record_of(db, id, db.events[id].event.timestamp, Some(post))
        }),
{
    law_replies_to_all_versions(db, db.events[id].event.author, id, versions);
}

/// One more reply to any version of a post raises the number of its replies by
/// one; a post that is no reply to one of them, and no edit of one, leaves it.
pub proof fn law_one_more_reply(
    me: Database,
    db: DbState,
    e: VerifiedEvent,
    bytes: Seq<u8>,
    post: SocialPost,
    mentions_self: bool,
    now: Timestamp,
    author: RostraId,
    id: ShortEventId,
    versions: Seq<ShortEventId>,
    before: u64,
)
    requires
        awaited_post(db, e),
        to_be_seen(e, post),
        counts_exact(db),
        versions_back(db.social_posts_replaces, author, id, versions),
        e.event.author != author || !e.event.deletes_parent_aux,
        reply_total(db.social_posts, db.social_posts_replaces, author, id) == Ok::<_, DbError>(
            before,
        ),
        before < u64::MAX,
    ensures
        content_processed(
            me,
            db,
            e,
            bytes,
            Payload::SocialPost { post, mentions_self },
            now,
        ) matches Ok((_, after)) ==> (reply_total(
            after.social_posts,
            after.social_posts_replaces,
            author,
            id,
        ) matches Ok(n) && n == before + (if post.djot_content is Some && (
        post.reply_to matches Some(target) && versions.contains(target.event_id)) {
            1int
        } else {
            0
        })),
{
    let processed = content_processed(
        me,
        db,
        e,
        bytes,
        Payload::SocialPost { post, mentions_self },
        now,
    );
    if let Ok((_, after)) = processed {
        law_post_listed(me, db, e, bytes, post, mentions_self, now);
        assert forall|from: ShortEventId, to: ShortEventId|
            after.social_posts_replaces.contains_key((author, from, to))
                <==> #[trigger] db.social_posts_replaces.contains_key((author, from, to)) by {
            if author == e.event.author {
                assert(after.social_posts_replaces.contains_key((e.event.author, from, to))
                    <==> db.social_posts_replaces.contains_key((e.event.author, from, to)));
            }
        }
        assert(versions_back(after.social_posts_replaces, author, id, versions)) by {
            assert forall|i: int, j: int|
                0 <= i && j == i + 1 && j < versions.len() implies #[trigger] after.social_posts_replaces.contains_key(
                (author, versions[i], versions[j]),
            ) by {
                assert(db.social_posts_replaces.contains_key((author, versions[i], versions[j])));
            }
        }
        lemma_versions_back(db.social_posts_replaces, author, id, versions);
        lemma_versions_back(after.social_posts_replaces, author, id, versions);
        lemma_chain_unique(
            db.social_posts_replaces,
            author,
            id,
            versions,
            versions_of(db.social_posts_replaces, author, id)->0,
        );
        lemma_chain_unique(
            after.social_posts_replaces,
            author,
            id,
            versions,
            versions_of(after.social_posts_replaces, author, id)->0,
        );
        assert forall|i: int, j: int| 0 <= i < j < versions.len() implies versions[i]
            != versions[j] by {
            lemma_versions_apart(db.social_posts_replaces, author, id, versions, i, j);
        }
        lemma_total_moves(db.social_posts, after.social_posts, post, versions);
    }
}

/// The total of different posts moves as the counts of the post that was
/// answered do.
proof fn lemma_total_moves(
    m: Map<ShortEventId, crate::tables::SocialPostRecord>,
    after: Map<ShortEventId, crate::tables::SocialPostRecord>,
    post: SocialPost,
    versions: Seq<ShortEventId>,
)
    requires
        versions.no_duplicates(),
        forall|id: ShortEventId|
            (#[trigger] counts_of(after, id)).reply_count == counts_of(m, id).reply_count + (if (
            post.reply_to matches Some(target) && target.event_id == id) && post.djot_content
                is Some {
                1int
            } else {
                0
            }),
    ensures
        total_replies(after, versions) == total_replies(m, versions) + (if post.djot_content is Some
            && (post.reply_to matches Some(target) && versions.contains(target.event_id)) {
            1int
        } else {
            0
        }),
    decreases versions.len(),
{
    if versions.len() > 0 {
        let earlier = versions.drop_last();
        let last = versions.last();
        lemma_total_moves(m, after, post, earlier);
        assert(counts_of(after, last).reply_count >= counts_of(m, last).reply_count);
        if let Some(target) = post.reply_to {
            let t = target.event_id;
            if earlier.contains(t) {
                let p = choose|p: int| 0 <= p < earlier.len() && earlier[p] == t;
                assert(versions[p] == t);
                assert(versions[p] != versions[versions.len() - 1]);
            }
            if versions.contains(t) && t != last {
                let p = choose|p: int| 0 <= p < versions.len() && versions[p] == t;
                assert(earlier[p] == t);
            }
            assert(versions[versions.len() - 1] == last);
        }
    }
}

proof fn lemma_chain_back(
    replaces: Edits,
    author: RostraId,
    id: ShortEventId,
    versions: Seq<ShortEventId>,
)
    requires
        is_whole_chain(replaces, author, id, versions),
        replaces.dom().finite(),
    ensures
        versions_back(replaces, author, id, versions),
{
    assert forall|i: int, x: ShortEventId|
        0 <= i < versions.len() - 1 && #[trigger] replaces.contains_key(
            (author, versions[i], x),
        ) implies key_le(versions[i + 1], x) by {
        let set = edits_from(replaces, author, versions[i]);
        assert(next_version(replaces, author, versions[i]) == Some(versions[i + 1]));
        assert(exists|y: ShortEventId| is_first_of(set, y));
        assert(is_first_of(set, versions[i + 1]));
        assert(set.contains(x));
    }
    assert forall|i: int, j: int|
        0 <= i && j == i + 1 && j < versions.len() implies #[trigger] replaces.contains_key(
        (author, versions[i], versions[j]),
    ) by {
        let set = edits_from(replaces, author, versions[i]);
        assert(next_version(replaces, author, versions[i]) == Some(versions[i + 1]));
        assert(exists|y: ShortEventId| is_first_of(set, y));
        assert(is_first_of(set, versions[j]));
    }
    let set = edits_from(replaces, author, versions.last());
    lemma_edits_finite(replaces, author, versions.last());
    lemma_no_first(set);
    assert forall|x: ShortEventId| !#[trigger] replaces.contains_key(
        (author, versions.last(), x),
    ) by {
        assert(!set.contains(x));
    }
}

pub proof fn lemma_edits_finite(m: Edits, author: RostraId, id: ShortEventId)
    requires
        m.dom().finite(),
    ensures
        edits_from(m, author, id).finite(),
{
    let keys = m.dom().map(|k: (RostraId, ShortEventId, ShortEventId)| k.2);
    m.dom().lemma_map_finite(|k: (RostraId, ShortEventId, ShortEventId)| k.2);
    let set = edits_from(m, author, id);
    assert forall|x: ShortEventId| set.contains(x) implies keys.contains(x) by {
        assert(m.dom().contains((author, id, x)));
    }
    vstd::set_lib::lemma_set_subset_finite(keys, set);
}

/// A post leads to its latest version: the one at which the edits noted end,
/// and that is itself where nothing replaced it. Where they go round in a
/// circle there is none, and that is told.
pub proof fn law_latest_version(db: DbState, id: ShortEventId)
    requires
        db.social_posts_replaced_by.dom().finite(),
    ensures
        !db.events.contains_key(id) ==> latest_version(db, id) == Ok::<_, DbError>(id),
        db.events.contains_key(id) ==> {
            let author = db.events[id].event.author;
            &&& forall|versions: Seq<ShortEventId>| #[trigger]
                versions_back(db.social_posts_replaced_by, author, id, versions) ==> latest_version(
                    db,
                    id,
                ) == Ok::<_, DbError>(versions.last())
            &&& (forall|versions: Seq<ShortEventId>|
                !#[trigger] versions_back(db.social_posts_replaced_by, author, id, versions))
                ==> latest_version(db, id) == Err::<ShortEventId, _>(
                DbError::CyclicEdits { event_id: id },
            )
        },
{
    if db.events.contains_key(id) {
        let author = db.events[id].event.author;
        let m = db.social_posts_replaced_by;
        assert forall|versions: Seq<ShortEventId>| #[trigger]
            versions_back(m, author, id, versions) implies latest_version(db, id) == Ok::<
            _,
            DbError,
        >(versions.last()) by {
            lemma_versions_back(m, author, id, versions);
            lemma_chain_unique(m, author, id, versions, versions_of(m, author, id)->0);
        }
        if versions_of(m, author, id) is Some {
            lemma_chain_back(m, author, id, versions_of(m, author, id)->0);
        }
    }
}

/// A post that was to be seen is taken back whole when its payload goes: it is
/// no longer listed by time or by reception, nor as a mention, nor counted or
/// listed at the post that it answered, and its rank as news is asked to be
/// taken away. That it was an edit stays noted. Nothing else changes, and of a
/// post that was not to be seen there is nothing to take back.
pub proof fn law_post_taken_back(db: DbState, e: VerifiedEvent, post: SocialPost)
    requires
        e.event.kind is SocialPost,
    ensures
        content_reverted(db, e, Some(post)) matches Ok((told, after)) ==> {
            let id = e.id();
            let replies = |d: DbState, id: ShortEventId|
                if d.social_posts.contains_key(id) {
                    d.social_posts[id].reply_count as int
                } else {
                    0
                };
            let reactions = |d: DbState, id: ShortEventId|
                if d.social_posts.contains_key(id) {
                    d.social_posts[id].reaction_count as int
                } else {
                    0
                };
            let answered = |id: ShortEventId|
                post.reply_to matches Some(target) && target.event_id == id;
            let receipt = db.social_posts_received_at_keys[id];
            &&& told is Some
            &&& !to_be_seen(e, post) ==> after == db && told->0.len() == 0
            &&& to_be_seen(e, post) ==> {
                &&& forall|k: (Timestamp, ShortEventId)| #[trigger]
                    after.social_posts_by_time.contains_key(k)
                        <==> db.social_posts_by_time.contains_key(k) && k != (e.event.timestamp, id)
                &&& after.social_posts_received_at_keys == db.social_posts_received_at_keys.remove(
                    id,
                )
                &&& after.social_posts_by_received_at
                    == (if db.social_posts_received_at_keys.contains_key(id) {
                    db.social_posts_by_received_at.remove((receipt.received_at, receipt.order))
                } else {
                    db.social_posts_by_received_at
                })
                &&& after.social_posts_self_mention == db.social_posts_self_mention.remove(id)
                &&& forall|t: ShortEventId| #[trigger]
                    replies(after, t) == replies(db, t) - (if answered(t) && post.djot_content
                        is Some {
                        1int
                    } else {
                        0
                    })
                &&& forall|t: ShortEventId| #[trigger]
                    reactions(after, t) == reactions(db, t) - (if answered(t) && post.reaction
                        is Some {
                        1int
                    } else {
                        0
                    })
                &&& forall|k: (ShortEventId, Timestamp, ShortEventId)| #[trigger]
                    after.social_posts_replies.contains_key(k)
                        <==> db.social_posts_replies.contains_key(k) && !(answered(k.0)
                        && post.djot_content is Some && k.1 == e.event.timestamp && k.2 == id)
                &&& forall|k: (ShortEventId, Timestamp, ShortEventId)| #[trigger]
                    after.social_posts_reactions.contains_key(k)
                        <==> db.social_posts_reactions.contains_key(k) && !(answered(k.0)
                        && post.reaction is Some && k.1 == e.event.timestamp && k.2 == id)
                &&& told->0.len() == (if post.news {
                    1nat
                } else {
                    0nat
                })
                &&& post.news ==> told->0[0] == (Action::RemoveNewsRank {
                    post_id: ExternalEventId { rostra_id: e.event.author, event_id: id },
                })
                &&& after == (DbState {
                    social_posts: after.social_posts,
                    social_posts_by_received_at: after.social_posts_by_received_at,
                    social_posts_by_time: after.social_posts_by_time,
                    social_posts_reactions: after.social_posts_reactions,
                    social_posts_received_at_keys: after.social_posts_received_at_keys,
                    social_posts_replies: after.social_posts_replies,
                    social_posts_self_mention: after.social_posts_self_mention,
                    ..db
                })
            }
        },
{
    if let Ok((_, after)) = content_reverted(db, e, Some(post)) {
        if !db.social_posts_received_at_keys.contains_key(e.id()) {
            assert(db.social_posts_received_at_keys.remove(e.id())
                =~= db.social_posts_received_at_keys);
        }
    }
}

/// Taking a post back is refused only where its reception row is not its own,
/// or its answer was not counted; a payload that is no post is told as such,
/// and only posts have anything to take back.
pub proof fn law_taking_back_not_refused(db: DbState, e: VerifiedEvent, post: SocialPost)
    requires
        db.social_posts_received_at_keys.contains_key(e.id()) ==> {
            let receipt = db.social_posts_received_at_keys[e.id()];
            let row = (receipt.received_at, receipt.order);
            db.social_posts_by_received_at.contains_key(row)
                && db.social_posts_by_received_at[row] == e.id()
        },
        post.reply_to matches Some(target) ==> {
            &&& db.social_posts.contains_key(target.event_id)
            &&& db.social_posts[target.event_id].reply_count > 0
            &&& db.social_posts[target.event_id].reaction_count > 0
        },
    ensures
        content_reverted(db, e, Some(post)) is Ok,
        e.event.kind is SocialPost ==> content_reverted(db, e, None) == Ok::<_, DbError>(
            (None::<Seq<Action>>, db),
        ),
        !(e.event.kind is SocialPost) ==> content_reverted(db, e, Some(post)) == Ok::<_, DbError>(
            (Some(Seq::<Action>::empty()), db),
        ) && content_reverted(db, e, None) == Ok::<_, DbError>(
            (Some(Seq::<Action>::empty()), db),
        ),
{
}

/// The lists in which posts are seen are the same.
pub open spec fn same_lists(x: DbState, y: DbState) -> bool {
    &&& x.social_posts == y.social_posts
    &&& x.social_posts_by_received_at == y.social_posts_by_received_at
    &&& x.social_posts_by_time == y.social_posts_by_time
    &&& x.social_posts_reactions == y.social_posts_reactions
    &&& x.social_posts_received_at_keys == y.social_posts_received_at_keys
    &&& x.social_posts_replies == y.social_posts_replies
    &&& x.social_posts_self_mention == y.social_posts_self_mention
}

proof fn lemma_inserted_lists(db: DbState, e: VerifiedEvent)
    ensures
        inserted(db, e, true) matches Ok((_, after)) ==> {
            &&& same_lists(db, after)
            &&& after.social_posts_replaced_by == db.social_posts_replaced_by
            &&& after.social_posts_replaces == db.social_posts_replaces
        },
{
    reveal(placed);
    reveal(parents_linked);
    reveal(header_stored);
}

/// A post is taken back out of every list when an event comes that deletes its
/// payload, just where that payload had been processed, is stored, and reads as
/// the post; no other event changes a list of posts when it comes.
pub proof fn law_deleted_post_taken_back(
    me: Database,
    db: DbState,
    e: VerifiedEvent,
    arrival: Arrival,
    retained: Option<SocialPost>,
    reverted: Option<SocialPost>,
)
    requires
        e.event.parent_aux != Some(e.id()),
    ensures
        event_processed(me, db, e, arrival, retained, reverted) matches Ok((_, after)) ==> {
            let deleting = e.event.deletes_parent_aux && (e.event.parent_aux matches Some(t)
                && db.events.contains_key(t) && db.events[t].event.author == e.event.author
                && !db.events_content_state.contains_key(t) && db.content_store.contains_key(
                db.events[t].event.content_hash,
            ));
            if !db.events.contains_key(e.id()) && deleting && reverted is Some {
                content_reverted(db, db.events[e.event.parent_aux->0], reverted) matches Ok(
                    (_, back),
                ) && same_lists(after, back)
            } else {
                same_lists(after, db)
            }
        },
{
    lemma_inserted_lists(db, e);
    law_insertion_told(db, e, true);
    if let Ok((outcome, mid)) = inserted(db, e, true) {
        lemma_newcomer_lists(me, mid, e, outcome, arrival, retained, reverted);
        lemma_inserted_events(db, e);
        if let InsertOutcomeModel::Inserted {
            deleted_parent: Some(t),
            reverted_parent_content: Some(_),
            ..
        } = outcome {
            assert(mid.events[t] == db.events[t]);
            lemma_reverted_alike(db, mid, db.events[t], reverted);
        }
    }
}

proof fn lemma_inserted_events(db: DbState, e: VerifiedEvent)
    ensures
        inserted(db, e, true) matches Ok((_, after)) ==> forall|id: ShortEventId|
            id != e.id() ==> #[trigger] after.events[id] == db.events[id],
{
    reveal(placed);
    reveal(parents_linked);
    reveal(header_stored);
}

/// What is taken back of the lists depends on the lists alone.
proof fn lemma_reverted_alike(
    x: DbState,
    y: DbState,
    e: VerifiedEvent,
    post: Option<SocialPost>,
)
    requires
        same_lists(x, y),
    ensures
        content_reverted(x, e, post) is Ok <==> content_reverted(y, e, post) is Ok,
        content_reverted(x, e, post) is Ok ==> same_lists(
            (content_reverted(x, e, post)->Ok_0).1,
            (content_reverted(y, e, post)->Ok_0).1,
        ),
{
}

proof fn lemma_newcomer_lists(
    me: Database,
    db: DbState,
    e: VerifiedEvent,
    outcome: InsertOutcomeModel,
    arrival: Arrival,
    retained: Option<SocialPost>,
    reverted: Option<SocialPost>,
)
    ensures
        event_finished(me, db, e, outcome, arrival, retained, reverted) matches Ok((_, after))
            ==> match outcome {
            InsertOutcomeModel::Inserted {
                deleted_parent: Some(t),
                reverted_parent_content: Some(_),
                ..
            } => content_reverted(db, db.events[t], reverted) matches Ok((_, back)) && same_lists(
                after,
                back,
            ),
            _ => same_lists(after, db),
        },
{
    if let InsertOutcomeModel::Inserted {
        deleted_parent: Some(t),
        reverted_parent_content: Some(_),
        is_deleted,
        ..
    } = outcome {
        if let Ok(with) = registered(
            db,
            e,
            is_deleted,
            arrival.now,
            arrival.source,
            arrival.track_retention,
        ) {
            assert(same_lists(db, with) && with.events == db.events);
            if let Ok(noted) = lineage_noted(me, with, e, is_deleted, retained) {
                let listed = self_listed(me, noted, e);
                assert(same_lists(db, listed) && listed.events == db.events);
                lemma_reverted_alike(db, listed, db.events[t], reverted);
            }
        }
    }
}

/// Of a post whose payload was deleted no more is noted than the edit that it
/// was, and that just where it says something in place of what it deletes and
/// is not too long: when the event comes, for a payload that is kept elsewhere,
/// and when the payload comes.
pub proof fn law_deleted_edit_noted(
    me: Database,
    db: DbState,
    e: VerifiedEvent,
    arrival: Arrival,
    retained: Option<SocialPost>,
    reverted: Option<SocialPost>,
    bytes: Seq<u8>,
    payload: Payload,
    now: Timestamp,
)
    ensures
        event_processed(me, db, e, arrival, retained, reverted) matches Ok((_, after)) ==> {
            let noted = !db.events.contains_key(e.id()) && deleted_in_advance(db, e)
                && is_edit_noted(me, e, retained);
            &&& !noted ==> after.social_posts_replaced_by == db.social_posts_replaced_by
                && after.social_posts_replaces == db.social_posts_replaces
            &&& noted ==> edit_noted(db, after, e)
        },
        db.events_content_state.contains_key(e.id()) && db.events_content_state[e.id()] is Deleted
            ==> (content_processed(me, db, e, bytes, payload, now) matches Ok(
            ((outcome, actions), after),
        ) && {
            let post = match payload {
                Payload::SocialPost { post, .. } => Some(post),
                _ => None,
            };
            let noted = is_edit_noted(me, e, post);
            &&& actions.len() == 0
            &&& outcome == (ContentOutcome::Deleted { is_edit: noted })
            &&& !noted ==> after == db
            &&& noted ==> edit_noted(db, after, e)
        }),
{
    lemma_inserted_lists(db, e);
    law_insertion_told(db, e, true);
}

/// A deleted post that reads as given is to be noted as an edit.
pub open spec fn is_edit_noted(me: Database, e: VerifiedEvent, post: Option<SocialPost>) -> bool {
    &&& e.event.kind is SocialPost
    &&& e.event.content_len < me.max_content_len
    &&& e.event.deletes_parent_aux
    &&& e.event.parent_aux is Some
    &&& post matches Some(post) && speaks(post)
}

/// The edit that the event is was noted both ways.
pub open spec fn edit_noted(db: DbState, after: DbState, e: VerifiedEvent) -> bool {
    let older = e.event.parent_aux->0;
    &&& after.social_posts_replaced_by == db.social_posts_replaced_by.insert(
        (e.event.author, older, e.id()),
        (),
    )
    &&& after.social_posts_replaces == db.social_posts_replaces.insert(
        (e.event.author, e.id(), older),
        (),
    )
}

}
