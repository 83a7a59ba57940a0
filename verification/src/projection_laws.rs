//! What the lists of posts keep.

use vstd::prelude::*;

use crate::content::state_of;
use crate::database::Database;
use crate::error::DbError;
use crate::event::{EventContentState, VerifiedEvent};
use crate::ids::{RostraId, ShortEventId, Timestamp};
use crate::payload::{is_projected, replaced_by, Payload, SocialPost};
use crate::process_content::{content_processed, kind_applied_at};
use crate::projection::{
    answer_added, counts_of, post_applied, post_listed, post_reverted, receipt_added,
    receipt_removed, reception_of, replacement_noted,
};
use crate::reception::{next_order, received};
use crate::tables::{DbState, SocialPostRecord};

verus! {

/// Each post by reception is found from its event, and the other way round.
pub open spec fn receipts_paired(db: DbState) -> bool {
    &&& forall|id: ShortEventId| #[trigger]
        db.social_posts_received_at_keys.contains_key(id) ==> {
            let receipt = db.social_posts_received_at_keys[id];
            let key = (receipt.received_at, receipt.order);
            db.social_posts_by_received_at.contains_key(key)
                && db.social_posts_by_received_at[key] == id
        }
    &&& forall|k: (Timestamp, u64)| #[trigger]
        db.social_posts_by_received_at.contains_key(k) ==> {
            let id = db.social_posts_by_received_at[k];
            &&& db.social_posts_received_at_keys.contains_key(id)
            &&& db.social_posts_received_at_keys[id].received_at == k.0
            &&& db.social_posts_received_at_keys[id].order == k.1
        }
}

/// Rows are those of posts that were received.
pub open spec fn rows_of_received(db: DbState) -> bool {
    &&& forall|k: (Timestamp, ShortEventId)| #[trigger]
        db.social_posts_by_time.contains_key(k) ==> db.social_posts_received_at_keys.contains_key(
            k.1,
        )
    &&& forall|k: (ShortEventId, Timestamp, ShortEventId)| #[trigger]
        db.social_posts_replies.contains_key(k) ==> db.social_posts_received_at_keys.contains_key(
            k.2,
        )
    &&& forall|k: (ShortEventId, Timestamp, ShortEventId)| #[trigger]
        db.social_posts_reactions.contains_key(k) ==> db.social_posts_received_at_keys.contains_key(
            k.2,
        )
    &&& forall|id: ShortEventId| #[trigger]
        db.social_posts_self_mention.contains_key(id)
            ==> db.social_posts_received_at_keys.contains_key(id)
}

/// The answers to a post in a table of answers.
pub open spec fn answers_to<M>(
    m: Map<(ShortEventId, Timestamp, ShortEventId), M>,
    target: ShortEventId,
) -> Set<(ShortEventId, Timestamp, ShortEventId)> {
    Set::new(|k: (ShortEventId, Timestamp, ShortEventId)| m.contains_key(k) && k.0 == target)
}

/// The counts of each post are those of its replies and reactions.
pub open spec fn counts_exact(db: DbState) -> bool {
    &&& db.social_posts_replies.dom().finite()
    &&& db.social_posts_reactions.dom().finite()
    &&& forall|target: ShortEventId|
        (#[trigger] counts_of(db.social_posts, target)).reply_count == answers_to(
            db.social_posts_replies,
            target,
        ).len()
    &&& forall|target: ShortEventId|
        (#[trigger] counts_of(db.social_posts, target)).reaction_count == answers_to(
            db.social_posts_reactions,
            target,
        ).len()
}

/// Edits are noted both ways.
pub open spec fn edits_mirrored(db: DbState) -> bool {
    forall|author: RostraId, older: ShortEventId, newer: ShortEventId|
        #![trigger db.social_posts_replaced_by.contains_key((author, older, newer))]
        #![trigger db.social_posts_replaces.contains_key((author, newer, older))]
        db.social_posts_replaced_by.contains_key((author, older, newer))
            <==> db.social_posts_replaces.contains_key((author, newer, older))
}

/// The lists of posts agree with one another.
pub open spec fn lists_sound(db: DbState) -> bool {
    receipts_paired(db) && rows_of_received(db) && counts_exact(db) && edits_mirrored(db)
}

/// A reception row that was added is found and removed again, and with it the
/// row to find it by. The order that it took is not given out again.
pub proof fn law_receipt_undone(db: DbState, id: ShortEventId, received_at: Timestamp)
    ensures
        receipt_added(db, id, received_at) matches Ok(mid) ==> {
            &&& receipt_removed(mid, id) is Ok
            &&& receipt_removed(mid, id)->Ok_0 == (DbState {
                reception_order_next: mid.reception_order_next,
                ..db
            })
            &&& next_order(mid.reception_order_next) == next_order(db.reception_order_next) + 1
        },
{
    if let Ok(mid) = receipt_added(db, id, received_at) {
        let after = receipt_removed(mid, id)->Ok_0;
        assert(after.social_posts_by_received_at =~= db.social_posts_by_received_at);
        assert(after.social_posts_received_at_keys =~= db.social_posts_received_at_keys);
    }
}

/// Where receipts are paired, no removal is refused, and both operations keep
/// them paired.
pub proof fn law_receipts_stay_paired(db: DbState, id: ShortEventId, received_at: Timestamp)
    requires
        receipts_paired(db),
    ensures
        receipt_added(db, id, received_at) matches Ok(after) ==> receipts_paired(after),
        receipt_removed(db, id) matches Ok(after) && receipts_paired(after)
            && !after.social_posts_received_at_keys.contains_key(id),
{
}

/// Noting an edit keeps edits mirrored, and noting it again changes nothing.
pub proof fn law_edit_noted(
    db: DbState,
    author: RostraId,
    older: ShortEventId,
    newer: ShortEventId,
)
    requires
        edits_mirrored(db),
    ensures
        edits_mirrored(replacement_noted(db, author, older, newer)),
        replacement_noted(replacement_noted(db, author, older, newer), author, older, newer)
            == replacement_noted(db, author, older, newer),
{
    let once = replacement_noted(db, author, older, newer);
    let twice = replacement_noted(once, author, older, newer);
    assert(once.social_posts_replaced_by =~= twice.social_posts_replaced_by);
    assert(once.social_posts_replaces =~= twice.social_posts_replaces);
}

proof fn lemma_answer_inserted<M>(
    m: Map<(ShortEventId, Timestamp, ShortEventId), M>,
    key: (ShortEventId, Timestamp, ShortEventId),
    value: M,
    target: ShortEventId,
)
    requires
        m.dom().finite(),
        !m.contains_key(key),
    ensures
        answers_to(m.insert(key, value), target).len() == answers_to(m, target).len() + (if target
            == key.0 {
            1nat
        } else {
            0nat
        }),
        m.insert(key, value).dom().finite(),
{
    let was = answers_to(m, target);
    vstd::set_lib::lemma_set_subset_finite(m.dom(), was);
    assert(m.insert(key, value).dom() =~= m.dom().insert(key));
    if target == key.0 {
        assert(answers_to(m.insert(key, value), target) =~= was.insert(key));
    } else {
        assert(answers_to(m.insert(key, value), target) =~= was);
    }
}

proof fn lemma_answer_added(
    db: DbState,
    target: ShortEventId,
    e: VerifiedEvent,
    post: SocialPost,
)
    requires
        counts_exact(db),
        !db.social_posts_replies.contains_key((target, e.event.timestamp, e.id())),
        !db.social_posts_reactions.contains_key((target, e.event.timestamp, e.id())),
    ensures
        answer_added(db, target, e, post) matches Ok(after) ==> counts_exact(after),
{
    if let Ok(after) = answer_added(db, target, e, post) {
        let key = (target, e.event.timestamp, e.id());
        assert forall|t: ShortEventId|
            (#[trigger] counts_of(after.social_posts, t)).reply_count == answers_to(
                after.social_posts_replies,
                t,
            ).len() && counts_of(after.social_posts, t).reaction_count == answers_to(
                after.social_posts_reactions,
                t,
            ).len() by {
            lemma_answer_inserted(
                db.social_posts_replies,
                key,
                crate::tables::SocialPostsRepliesRecord,
                t,
            );
            lemma_answer_inserted(
                db.social_posts_reactions,
                key,
                crate::tables::SocialPostsReactionsRecord,
                t,
            );
            assert(counts_of(db.social_posts, t).reply_count == answers_to(
                db.social_posts_replies,
                t,
            ).len());
        }
        lemma_answer_inserted(
            db.social_posts_replies,
            key,
            crate::tables::SocialPostsRepliesRecord,
            target,
        );
        lemma_answer_inserted(
            db.social_posts_reactions,
            key,
            crate::tables::SocialPostsReactionsRecord,
            target,
        );
    }
}

/// A post that is applied keeps the lists sound.
pub proof fn law_apply_keeps_lists(
    me: Database,
    db: DbState,
    e: VerifiedEvent,
    post: SocialPost,
    mentions_self: bool,
    now: Timestamp,
)
    requires
        lists_sound(db),
    ensures
        post_applied(me, db, e, post, mentions_self, now) matches Ok((_, after)) ==> lists_sound(
            after,
        ),
{
    if let Ok((_, after)) = post_applied(me, db, e, post, mentions_self, now) {
        if is_projected(e.event, post) {
            let listed = post_listed(me, db, e, post, mentions_self, now)->Ok_0;
            lemma_listed(me, db, e, post, mentions_self, now);
            if let Some(target) = post.reply_to {
                lemma_answer_added(listed, target.event_id, e, post);
            }
        }
    }
}

proof fn lemma_listed(
    me: Database,
    db: DbState,
    e: VerifiedEvent,
    post: SocialPost,
    mentions_self: bool,
    now: Timestamp,
)
    requires
        lists_sound(db),
    ensures
        post_listed(me, db, e, post, mentions_self, now) matches Ok(after) ==> {
            &&& lists_sound(after)
            &&& after.social_posts_received_at_keys.contains_key(e.id())
            &&& !db.social_posts_received_at_keys.contains_key(e.id())
            &&& after.social_posts == db.social_posts
            &&& after.social_posts_replies == db.social_posts_replies
            &&& after.social_posts_reactions == db.social_posts_reactions
        },
{
    if let Ok(after) = post_listed(me, db, e, post, mentions_self, now) {
        let ts = crate::projection::received_time(
            me,
            e.event.author,
            e.event.timestamp,
            now,
            db.ids_followees,
        );
        let by_time = DbState {
            social_posts_by_time: db.social_posts_by_time.insert((e.event.timestamp, e.id()), ()),
            ..db
        };
        law_receipts_stay_paired(by_time, e.id(), ts);
        assert(counts_exact(after));
        assert(receipts_paired(after));
        assert(rows_of_received(after));
        assert(edits_mirrored(after));
    }
}

/// The counts of all posts are the same.
pub open spec fn same_counts(
    x: Map<ShortEventId, SocialPostRecord>,
    y: Map<ShortEventId, SocialPostRecord>,
) -> bool {
    forall|target: ShortEventId| #[trigger] counts_of(x, target) == counts_of(y, target)
}

/// Taking a post back undoes what applying it did: every list and every count
/// is as it was. That it was an edit stays noted, its reception order stays
/// used, and it stays among those once materialized.
pub proof fn law_revert_undoes_apply(
    me: Database,
    db: DbState,
    e: VerifiedEvent,
    post: SocialPost,
    mentions_self: bool,
    now: Timestamp,
)
    requires
        lists_sound(db),
    ensures
        post_applied(me, db, e, post, mentions_self, now) matches Ok((_, mid)) ==> {
            &&& post_reverted(mid, e, post) is Ok
            &&& ({
                let after = (post_reverted(mid, e, post)->Ok_0).1;
                &&& same_counts(after.social_posts, db.social_posts)
                &&& after == (DbState {
                    social_posts: after.social_posts,
                    social_posts_replaced_by: mid.social_posts_replaced_by,
                    social_posts_replaces: mid.social_posts_replaces,
                    reception_order_next: mid.reception_order_next,
                    social_post_materializations: mid.social_post_materializations,
                    ..db
                })
            })
        },
{
    if let Ok((_, mid)) = post_applied(me, db, e, post, mentions_self, now) {
        if is_projected(e.event, post) {
            lemma_listed(me, db, e, post, mentions_self, now);
            let after = (post_reverted(mid, e, post)->Ok_0).1;
            assert(!db.social_posts_by_time.contains_key((e.event.timestamp, e.id())));
            assert(!db.social_posts_self_mention.contains_key(e.id()));
            assert(after.social_posts_by_time =~= db.social_posts_by_time);
            assert(after.social_posts_self_mention =~= db.social_posts_self_mention);
            assert(after.social_posts_by_received_at =~= db.social_posts_by_received_at);
            assert(after.social_posts_received_at_keys =~= db.social_posts_received_at_keys);
            if let Some(target) = post.reply_to {
                let key = (target.event_id, e.event.timestamp, e.id());
                assert(!db.social_posts_replies.contains_key(key));
                assert(!db.social_posts_reactions.contains_key(key));
                assert(after.social_posts_replies =~= db.social_posts_replies);
                assert(after.social_posts_reactions =~= db.social_posts_reactions);
            }
        }
    }
}

/// Reception orders are given out once: those used are below the next one.
pub open spec fn orders_used(db: DbState) -> bool {
    let next = next_order(db.reception_order_next);
    &&& forall|k: (Timestamp, u64)| #[trigger]
        db.social_posts_by_received_at.contains_key(k) ==> k.1 < next
    &&& forall|k: (Timestamp, u64)| #[trigger]
        db.shoutbox_posts_by_received_at.contains_key(k) ==> k.1 < next
    &&& forall|k: (Timestamp, u64)| #[trigger]
        db.events_received_at.contains_key(k) ==> k.1 < next
}

/// Where the orders used are below the next one, a row never takes the place
/// of another, and a new reception keeps it so.
pub proof fn law_reception_never_collides(db: DbState, id: ShortEventId, at: Timestamp)
    requires
        orders_used(db),
    ensures
        receipt_added(db, id, at) matches Ok(after) ==> orders_used(after),
        receipt_added(db, id, at) != Err::<DbState, _>(DbError::Occupied),
        received(
            db.reception_order_next,
            db.shoutbox_posts_by_received_at,
            at,
            id,
        ) matches Err(e) ==> e is ReceptionOrderExhausted,
{
}

/// Empty lists agree with one another.
pub proof fn law_empty_lists(db: DbState)
    requires
        db.social_posts == Map::<ShortEventId, SocialPostRecord>::empty(),
        db.social_posts_by_received_at == Map::<(Timestamp, u64), ShortEventId>::empty(),
        db.social_posts_by_time == Map::<(Timestamp, ShortEventId), ()>::empty(),
        db.social_posts_reactions.dom() == Set::<(ShortEventId, Timestamp, ShortEventId)>::empty(),
        db.social_posts_received_at_keys.dom() == Set::<ShortEventId>::empty(),
        db.social_posts_replaced_by.dom()
            == Set::<(RostraId, ShortEventId, ShortEventId)>::empty(),
        db.social_posts_replaces.dom() == Set::<(RostraId, ShortEventId, ShortEventId)>::empty(),
        db.social_posts_replies.dom() == Set::<(ShortEventId, Timestamp, ShortEventId)>::empty(),
        db.social_posts_self_mention.dom() == Set::<ShortEventId>::empty(),
    ensures
        lists_sound(db),
{
    assert forall|target: ShortEventId|
        (#[trigger] counts_of(db.social_posts, target)).reply_count == answers_to(
            db.social_posts_replies,
            target,
        ).len() && counts_of(db.social_posts, target).reaction_count == answers_to(
            db.social_posts_reactions,
            target,
        ).len() by {
        assert(answers_to(db.social_posts_replies, target) =~= Set::empty());
        assert(answers_to(db.social_posts_reactions, target) =~= Set::empty());
    }
}

/// The arrival of a payload of whatever kind keeps the lists sound.
pub proof fn law_content_keeps_lists(
    me: Database,
    db: DbState,
    e: VerifiedEvent,
    bytes: Seq<u8>,
    payload: Payload,
    now: Timestamp,
)
    requires
        lists_sound(db),
    ensures
        content_processed(me, db, e, bytes, payload, now) matches Ok((_, after)) ==> lists_sound(
            after,
        ),
{
    if let Payload::SocialPost { post, mentions_self } = payload {
        law_apply_keeps_lists(me, db, e, post, mentions_self, now);
        if let Some(older) = replaced_by(e.event, post) {
            law_edit_noted(db, e.event.author, older, e.id());
        }
    }
    if let Ok((_, after)) = content_processed(me, db, e, bytes, payload, now) {
        let at = reception_of(me, db, e, now);
        if let Ok((_, applied)) = kind_applied_at(me, db, e, payload, now, at) {
            assert(lists_sound(applied)) by {
                if !(e.event.kind is SocialPost) {
                    lemma_lists_same(db, applied);
                }
            }
            if state_of(db.events_content_state, e.id()) matches Some(
                EventContentState::Missing { .. },
            ) {
                lemma_lists_same(applied, after);
            }
        }
    }
}

proof fn lemma_lists_same(x: DbState, y: DbState)
    requires
        lists_sound(x),
        x.social_posts == y.social_posts,
        x.social_posts_by_received_at == y.social_posts_by_received_at,
        x.social_posts_by_time == y.social_posts_by_time,
        x.social_posts_reactions == y.social_posts_reactions,
        x.social_posts_received_at_keys == y.social_posts_received_at_keys,
        x.social_posts_replaced_by == y.social_posts_replaced_by,
        x.social_posts_replaces == y.social_posts_replaces,
        x.social_posts_replies == y.social_posts_replies,
        x.social_posts_self_mention == y.social_posts_self_mention,
    ensures
        lists_sound(y),
{
}

proof fn lemma_answer_taken<M>(
    m: Map<(ShortEventId, Timestamp, ShortEventId), M>,
    key: (ShortEventId, Timestamp, ShortEventId),
    target: ShortEventId,
)
    requires
        m.dom().finite(),
        m.contains_key(key),
    ensures
        answers_to(m.remove(key), target).len() == answers_to(m, target).len() - (if target
            == key.0 {
            1int
        } else {
            0
        }),
        m.remove(key).dom().finite(),
{
    let was = answers_to(m, target);
    vstd::set_lib::lemma_set_subset_finite(m.dom(), was);
    assert(m.remove(key).dom() =~= m.dom().remove(key));
    if target == key.0 {
        assert(was.contains(key));
        assert(answers_to(m.remove(key), target) =~= was.remove(key));
    } else {
        assert(answers_to(m.remove(key), target) =~= was);
    }
}

/// Taking back a post whose answer is listed keeps counts exact: every count is
/// that of the rows that are left. Receipts stay paired and edits mirrored.
pub proof fn law_taking_back_keeps_counts(db: DbState, e: VerifiedEvent, post: SocialPost)
    requires
        lists_sound(db),
        post.reply_to matches Some(target) ==> {
            let key = (target.event_id, e.event.timestamp, e.id());
            &&& post.djot_content is Some ==> db.social_posts_replies.contains_key(key)
            &&& post.reaction is Some ==> db.social_posts_reactions.contains_key(key)
        },
    ensures
        post_reverted(db, e, post) matches Ok((_, after)) && counts_exact(after)
            && receipts_paired(after) && edits_mirrored(after),
{
    if is_projected(e.event, post) {
        law_receipts_stay_paired(db, e.id(), e.event.timestamp);
        if let Some(target) = post.reply_to {
            let t = target.event_id;
            let key = (t, e.event.timestamp, e.id());
            if post.djot_content is Some {
                lemma_answer_taken(db.social_posts_replies, key, t);
            }
            if post.reaction is Some {
                lemma_answer_taken(db.social_posts_reactions, key, t);
            }
            assert(counts_of(db.social_posts, t).reply_count == answers_to(
                db.social_posts_replies,
                t,
            ).len());
            assert(post_reverted(db, e, post) is Ok);
            let (_, after) = post_reverted(db, e, post)->Ok_0;
            assert forall|x: ShortEventId|
                (#[trigger] counts_of(after.social_posts, x)).reply_count == answers_to(
                    after.social_posts_replies,
                    x,
                ).len() && counts_of(after.social_posts, x).reaction_count == answers_to(
                    after.social_posts_reactions,
                    x,
                ).len() by {
                if post.djot_content is Some {
                    lemma_answer_taken(db.social_posts_replies, key, x);
                }
                if post.reaction is Some {
                    lemma_answer_taken(db.social_posts_reactions, key, x);
                }
                assert(counts_of(db.social_posts, x).reply_count == answers_to(
                    db.social_posts_replies,
                    x,
                ).len());
            }
            assert(counts_exact(after));
        }
    }
}

}
