//! Posts as they show up: by time, by reception, as replies and reactions, as
//! edits of one another.

use vstd::prelude::*;

use crate::database::Database;
use crate::error::{left, ran, refusal_keeps, unread, DbError, DbResult, Effect};
use crate::event::VerifiedEvent;
use crate::follow::{FolloweesModel, IdsFolloweesRecord};
use crate::ids::{ExternalEventId, RostraId, ShortEventId, Timestamp};
use crate::listing::{between, lemma_u64_lt, sorted};
use crate::payload::{
    is_projected, replaced_by, social_post_projection_plan, social_post_replaced_event_id, Action,
    SocialPost, SocialPostProjectionPlan,
};
use crate::reception::received;
use crate::table::Table;
use crate::tables::{
    DbState, ReceiptKey, SocialPostRecord, SocialPostsReactionsRecord, SocialPostsRepliesRecord,
    Tables,
};

verus! {

/// An edit is noted both ways.
pub open spec fn replacement_noted(
    db: DbState,
    author: RostraId,
    old_id: ShortEventId,
    new_id: ShortEventId,
) -> DbState {
    DbState {
        social_posts_replaced_by: db.social_posts_replaced_by.insert((author, old_id, new_id), ()),
        social_posts_replaces: db.social_posts_replaces.insert((author, new_id, old_id), ()),
        ..db
    }
}

/// A post gets a reception row, and a row to find that one by. It must not
/// have one before.
pub open spec fn receipt_added(db: DbState, id: ShortEventId, received_at: Timestamp) -> Result<
    DbState,
    DbError,
> {
    if db.social_posts_received_at_keys.contains_key(id) {
        Err(DbError::SocialPostReceiptAlreadyIndexed { event_id: id })
    } else {
        match received(
            db.reception_order_next,
            db.social_posts_by_received_at,
            received_at,
            id,
        ) {
            Err(e) => Err(e),
            Ok((order, (reception_order_next, social_posts_by_received_at))) => Ok(
                DbState {
                    reception_order_next,
                    social_posts_by_received_at,
                    social_posts_received_at_keys: db.social_posts_received_at_keys.insert(
                        id,
                        ReceiptKey { received_at, order },
                    ),
                    ..db
                },
            ),
        }
    }
}

/// The reception row of a post goes, with the row to find it by. Where there
/// is none, there is nothing to do; where it names another post, something is
/// wrong.
pub open spec fn receipt_removed(db: DbState, id: ShortEventId) -> Result<DbState, DbError> {
    if !db.social_posts_received_at_keys.contains_key(id) {
        Ok(db)
    } else {
        let receipt = db.social_posts_received_at_keys[id];
        let key = (receipt.received_at, receipt.order);
        let actual = if db.social_posts_by_received_at.contains_key(key) {
            Some(db.social_posts_by_received_at[key])
        } else {
            None
        };
        if actual != Some(id) {
            Err(DbError::SocialPostReceiptMismatch { event_id: id, actual_event_id: actual })
        } else {
            Ok(
                DbState {
                    social_posts_by_received_at: db.social_posts_by_received_at.remove(key),
                    social_posts_received_at_keys: db.social_posts_received_at_keys.remove(id),
                    ..db
                },
            )
        }
    }
}

/// When a post counts as received: now, but posts of a followed author from
/// before both the database and the follow, which began at `first`, count from
/// when they were written.
pub open spec fn received_given(
    me: Database,
    author: RostraId,
    event_ts: Timestamp,
    now: Timestamp,
    first: Option<Timestamp>,
) -> Timestamp {
    if author == me.self_id || me.db_init_time.secs <= event_ts.secs {
        now
    } else {
        match first {
            Some(first) => if event_ts.secs < first.secs {
                event_ts
            } else {
                now
            },
            None => now,
        }
    }
}

/// When the local user began to follow an author, if they do.
pub open spec fn follow_began(
    me: Database,
    author: RostraId,
    followees: Map<(RostraId, RostraId), FolloweesModel>,
) -> Option<Timestamp> {
    if followees.contains_key((me.self_id, author)) {
        Some(followees[(me.self_id, author)].first_ts)
    } else {
        None
    }
}

/// When a post counts as received, by the follows that are stored.
pub open spec fn received_time(
    me: Database,
    author: RostraId,
    event_ts: Timestamp,
    now: Timestamp,
    followees: Map<(RostraId, RostraId), FolloweesModel>,
) -> Timestamp {
    received_given(me, author, event_ts, now, follow_began(me, author, followees))
}

/// A materialized post is appended behind the last one.
pub open spec fn materialized(m: Map<u64, ShortEventId>, id: ShortEventId) -> Effect<
    (),
    Map<u64, ShortEventId>,
> {
    let indexes = sorted(m.dom());
    if indexes.len() == 0 {
        Ok(((), m.insert(0, id)))
    } else if indexes.last() == u64::MAX {
        Err(DbError::Overflow)
    } else {
        Ok(((), m.insert((indexes.last() + 1) as u64, id)))
    }
}

/// The counts of a post, zero where none are kept.
pub open spec fn counts_of(m: Map<ShortEventId, SocialPostRecord>, id: ShortEventId) -> SocialPostRecord {
    if m.contains_key(id) {
        m[id]
    } else {
        SocialPostRecord { reply_count: 0, reaction_count: 0 }
    }
}

/// A post is counted and listed at the post that it answers: as a reply if it
/// has a body, as a reaction if it has one.
pub open spec fn answer_added(
    db: DbState,
    target: ShortEventId,
    e: VerifiedEvent,
    post: SocialPost,
) -> Result<DbState, DbError> {
    let counts = counts_of(db.social_posts, target);
    let key = (target, e.event.timestamp, e.id());
    let replies = counts.reply_count + (if post.djot_content is Some { 1int } else { 0 });
    let reactions = counts.reaction_count + (if post.reaction is Some { 1int } else { 0 });
    if replies > u64::MAX || reactions > u64::MAX {
        Err(DbError::Overflow)
    } else {
        Ok(
            DbState {
                social_posts: db.social_posts.insert(
                    target,
                    SocialPostRecord {
                        reply_count: replies as u64,
                        reaction_count: reactions as u64,
                    },
                ),
                social_posts_replies: if post.djot_content is Some {
                    db.social_posts_replies.insert(key, SocialPostsRepliesRecord)
                } else {
                    db.social_posts_replies
                },
                social_posts_reactions: if post.reaction is Some {
                    db.social_posts_reactions.insert(key, SocialPostsReactionsRecord)
                } else {
                    db.social_posts_reactions
                },
                ..db
            },
        )
    }
}

/// A post is no longer counted and listed at the post that it answers.
pub open spec fn answer_removed(
    db: DbState,
    target: ShortEventId,
    e: VerifiedEvent,
    post: SocialPost,
) -> Result<DbState, DbError> {
    let counts = counts_of(db.social_posts, target);
    let key = (target, e.event.timestamp, e.id());
    let replies = counts.reply_count - (if post.djot_content is Some { 1int } else { 0 });
    let reactions = counts.reaction_count - (if post.reaction is Some { 1int } else { 0 });
    if replies < 0 || reactions < 0 {
        Err(DbError::Overflow)
    } else {
        Ok(
            DbState {
                social_posts: db.social_posts.insert(
                    target,
                    SocialPostRecord {
                        reply_count: replies as u64,
                        reaction_count: reactions as u64,
                    },
                ),
                social_posts_replies: if post.djot_content is Some {
                    db.social_posts_replies.remove(key)
                } else {
                    db.social_posts_replies
                },
                social_posts_reactions: if post.reaction is Some {
                    db.social_posts_reactions.remove(key)
                } else {
                    db.social_posts_reactions
                },
                ..db
            },
        )
    }
}

/// A post that shows up is listed by time and by reception, noted as an edit
/// if it is one and as a mention if it mentions the local user.
pub open spec fn post_listed(
    me: Database,
    db: DbState,
    e: VerifiedEvent,
    post: SocialPost,
    mentions_self: bool,
    now: Timestamp,
) -> Result<DbState, DbError> {
    post_listed_at(me, db, e, post, mentions_self, reception_of(me, db, e, now))
}

/// When an event counts as received.
pub open spec fn reception_of(
    me: Database,
    db: DbState,
    e: VerifiedEvent,
    now: Timestamp,
) -> Timestamp {
    received_time(me, e.event.author, e.event.timestamp, now, db.ids_followees)
}

/// As [`post_listed`], of a post that counts as received at the given time.
pub open spec fn post_listed_at(
    me: Database,
    db: DbState,
    e: VerifiedEvent,
    post: SocialPost,
    mentions_self: bool,
    received_at: Timestamp,
) -> Result<DbState, DbError> {
    let author = e.event.author;
    let by_time = DbState {
        social_posts_by_time: db.social_posts_by_time.insert((e.event.timestamp, e.id()), ()),
        ..db
    };
    match receipt_added(by_time, e.id(), received_at) {
        Err(err) => Err(err),
        Ok(received) => {
            let edited = match replaced_by(e.event, post) {
                Some(old_id) => replacement_noted(received, author, old_id, e.id()),
                None => received,
            };
            if author != me.self_id && post.djot_content is Some && mentions_self {
                Ok(
                    DbState {
                        social_posts_self_mention: edited.social_posts_self_mention.insert(
                            e.id(),
                            (),
                        ),
                        ..edited
                    },
                )
            } else {
                Ok(edited)
            }
        },
    }
}

/// What a post does when its payload is processed.
pub open spec fn post_applied(
    me: Database,
    db: DbState,
    e: VerifiedEvent,
    post: SocialPost,
    mentions_self: bool,
    now: Timestamp,
) -> Effect<Seq<Action>, DbState> {
    post_applied_at(me, db, e, post, mentions_self, now, reception_of(me, db, e, now))
}

/// As [`post_applied`], of a post that counts as received at the given time.
pub open spec fn post_applied_at(
    me: Database,
    db: DbState,
    e: VerifiedEvent,
    post: SocialPost,
    mentions_self: bool,
    now: Timestamp,
    received_at: Timestamp,
) -> Effect<Seq<Action>, DbState> {
    if !is_projected(e.event, post) {
        Ok((Seq::empty(), db))
    } else {
        match post_listed_at(me, db, e, post, mentions_self, received_at) {
            Err(err) => Err(err),
            Ok(listed) => {
                let answered = match post.reply_to {
                    Some(target) => answer_added(listed, target.event_id, e, post),
                    None => Ok(listed),
                };
                match answered {
                    Err(err) => Err(err),
                    Ok(answered) => match materialized(
                        answered.social_post_materializations,
                        e.id(),
                    ) {
                        Err(err) => Err(err),
                        Ok((_, social_post_materializations)) => Ok(
                            (
                                post_actions(e, post, now),
                                DbState { social_post_materializations, ..answered },
                            ),
                        ),
                    },
                }
            },
        }
    }
}

/// The actions that a new post asks for.
pub open spec fn post_actions(e: VerifiedEvent, post: SocialPost, now: Timestamp) -> Seq<Action> {
    let post_id = ExternalEventId { rostra_id: e.event.author, event_id: e.id() };
    if post.news {
        seq![
            Action::NewPost { event_id: e.id() },
            Action::UpsertNewsRank { post_id, written_at: e.event.timestamp, now },
        ]
    } else {
        seq![Action::NewPost { event_id: e.id() }]
    }
}

/// What is taken back of a post whose payload was processed. That it replaced
/// an older post stays noted.
pub open spec fn post_reverted(db: DbState, e: VerifiedEvent, post: SocialPost) -> Effect<
    Seq<Action>,
    DbState,
> {
    let post_id = ExternalEventId { rostra_id: e.event.author, event_id: e.id() };
    let actions = if post.news {
        seq![Action::RemoveNewsRank { post_id }]
    } else {
        Seq::empty()
    };
    if !is_projected(e.event, post) {
        Ok((Seq::empty(), db))
    } else {
        let untimed = DbState {
            social_posts_by_time: db.social_posts_by_time.remove((e.event.timestamp, e.id())),
            ..db
        };
        match receipt_removed(untimed, e.id()) {
            Err(err) => Err(err),
            Ok(unreceived) => {
                let unmentioned = DbState {
                    social_posts_self_mention: unreceived.social_posts_self_mention.remove(e.id()),
                    ..unreceived
                };
                match post.reply_to {
                    None => Ok((actions, unmentioned)),
                    Some(target) => match answer_removed(unmentioned, target.event_id, e, post) {
                        Err(err) => Err(err),
                        Ok(after) => Ok((actions, after)),
                    },
                }
            },
        }
    }
}

impl Database {
    /// Notes an edit both ways.
    pub fn insert_social_post_replacement_tx(
        event: &VerifiedEvent,
        old_event_id: ShortEventId,
        db: &mut Tables<'_>,
    ) -> (res: DbResult<()>)
        ensures
            left(
                res,
                final(db)@,
                Ok(replacement_noted(old(db)@, event.event.author, old_event_id, event.id())),
            ),
            unread(res) ==> !old(db).intact(),
            res is Ok && old(db).intact() ==> final(db).intact(),
    {
        let author = event.event.author;
        let event_id = event.short_id();
        db.social_posts_replaced_by.insert(&(author, old_event_id, event_id), &())?;
        db.social_posts_replaces.insert(&(author, event_id, old_event_id), &())?;
        Ok(())
    }

    /// Adds the reception row of a post; see [`receipt_added`].
    pub fn insert_social_post_receipt_tx(
        event_id: ShortEventId,
        received_at: Timestamp,
        db: &mut Tables<'_>,
    ) -> (res: DbResult<()>)
        ensures
            left(res, final(db)@, receipt_added(old(db)@, event_id, received_at)),
            refusal_keeps(res, old(db)@, final(db)@),
            unread(res) ==> !old(db).intact(),
            res is Ok && old(db).intact() ==> final(db).intact(),
    {
        if db.social_posts_received_at_keys.contains(&event_id)? {
            return Err(DbError::SocialPostReceiptAlreadyIndexed { event_id });
        }
        let order: u64 = Self::insert_reception_ordered_tx(
            received_at,
            &event_id,
            &mut db.reception_order_next,
            &mut db.social_posts_by_received_at,
        )?;
        db.social_posts_received_at_keys.insert(&event_id, &ReceiptKey { received_at, order })
    }

    /// Removes the reception row of a post; see [`receipt_removed`].
    pub fn remove_social_post_receipt_tx(event_id: ShortEventId, db: &mut Tables<'_>) -> (res:
        DbResult<()>)
        ensures
            left(res, final(db)@, receipt_removed(old(db)@, event_id)),
            refusal_keeps(res, old(db)@, final(db)@),
            unread(res) ==> !old(db).intact(),
            res is Ok && old(db).intact() ==> final(db).intact(),
    {
        let receipt = match db.social_posts_received_at_keys.get(&event_id)? {
            Some(receipt) => receipt,
            None => return Ok(()),
        };
        let key = (receipt.received_at, receipt.order);
        let actual_event_id = db.social_posts_by_received_at.get(&key)?;
        if actual_event_id != Some(event_id) {
            return Err(DbError::SocialPostReceiptMismatch { event_id, actual_event_id });
        }
        db.social_posts_by_received_at.remove(&key)?;
        db.social_posts_received_at_keys.remove(&event_id)
    }

    /// When a post counts as received, given what came of reading when the
    /// follow of its author began; see [`received_given`]. Where that cannot be
    /// read, the post counts as received now.
    pub fn received_at_given(
        &self,
        author: RostraId,
        event_ts: Timestamp,
        now: Timestamp,
        began: DbResult<Option<Timestamp>>,
    ) -> (ts: Timestamp)
        ensures
            ts == received_given(
                *self,
                author,
                event_ts,
                now,
                match began {
                    Ok(first) => first,
                    Err(_) => None,
                },
            ),
    {
        if author == self.self_id {
            return now;
        }
        if self.db_init_time.secs <= event_ts.secs {
            return now;
        }
        match began {
            Ok(Some(first)) => if event_ts.secs < first.secs {
                event_ts
            } else {
                now
            },
            _ => now,
        }
    }

    /// When the local user began to follow an author, if they do.
    pub fn follow_began_tx(
        &self,
        author: RostraId,
        ids_followees: &Table<'_, (RostraId, RostraId), IdsFolloweesRecord>,
    ) -> (res: DbResult<Option<Timestamp>>)
        ensures
            match res {
                Ok(first) => first == follow_began(*self, author, ids_followees@),
                Err(e) => e.is_fault(),
            },
            unread(res) ==> !ids_followees.intact(),
    {
        match ids_followees.get(&(self.self_id, author))? {
            Some(record) => Ok(Some(record.first_ts)),
            None => Ok(None),
        }
    }

    /// When a post counts as received; see [`received_time`]. Where the follow
    /// cannot be read, that is now, and the failure is handed out;
    /// [`Database::received_at_given`] says what comes of each reading.
    pub fn effective_received_at(
        &self,
        author: RostraId,
        event_ts: Timestamp,
        now: Timestamp,
        ids_followees: &Table<'_, (RostraId, RostraId), IdsFolloweesRecord>,
    ) -> (res: (Timestamp, Option<DbError>))
        ensures
            match res.1 {
                None => res.0 == received_time(*self, author, event_ts, now, ids_followees@),
                Some(e) => {
                    &&& res.0 == now
                    &&& e.is_fault()
                    &&& e is Malformed ==> !ids_followees.intact()
                    &&& author != self.self_id && event_ts.secs < self.db_init_time.secs
                },
            },
    {
        if author == self.self_id || self.db_init_time.secs <= event_ts.secs {
            return (now, None);
        }
        match self.follow_began_tx(author, ids_followees) {
            Ok(began) => (self.received_at_given(author, event_ts, now, Ok(began)), None),
            Err(e) => (now, Some(e)),
        }
    }

    /// Appends a materialized post; see [`materialized`].
    pub fn append_social_post_materialization_tx(
        event_id: ShortEventId,
        materializations: &mut Table<'_, u64, ShortEventId>,
    ) -> (res: DbResult<()>)
        ensures
            ran(
                res,
                final(materializations)@,
                materialized(old(materializations)@, event_id),
            ),
            refusal_keeps(res, old(materializations)@, final(materializations)@),
            unread(res) ==> !old(materializations).intact(),
            res is Ok && old(materializations).intact() ==> final(materializations).intact(),
    {
        let lo: u64 = 0;
        let hi: u64 = 0xFFFF_FFFF_FFFF_FFFF;
        let last = materializations.walk_back_from(&lo, &hi)?;
        proof {
            let m = materializations@;
            assert forall|k: u64| m.dom().contains(k) implies between(m, lo, hi).contains(k) by {
                lemma_u64_lt(k, lo);
                lemma_u64_lt(hi, k);
            }
            assert(between(m, lo, hi) =~= m.dom());
        }
        let next: u64 = match last {
            Some((index, _)) => match index.checked_add(1) {
                Some(next) => next,
                None => return Err(DbError::Overflow),
            },
            None => 0,
        };
        materializations.insert(&next, &event_id)
    }

    fn add_answer_tx(
        target: ShortEventId,
        event: &VerifiedEvent,
        post: &SocialPost,
        db: &mut Tables<'_>,
    ) -> (res: DbResult<()>)
        ensures
            left(res, final(db)@, answer_added(old(db)@, target, *event, *post)),
            unread(res) ==> !old(db).intact(),
            res is Ok && old(db).intact() ==> final(db).intact(),
    {
        let key = (target, event.event.timestamp, event.short_id());
        let mut counts = match db.social_posts.get(&target)? {
            Some(counts) => counts,
            None => SocialPostRecord::default(),
        };
        if post.djot_content.is_some() {
            counts.reply_count = match counts.reply_count.checked_add(1) {
                Some(n) => n,
                None => return Err(DbError::Overflow),
            };
            db.social_posts_replies.insert(&key, &SocialPostsRepliesRecord)?;
        }
        if post.reaction.is_some() {
            counts.reaction_count = match counts.reaction_count.checked_add(1) {
                Some(n) => n,
                None => return Err(DbError::Overflow),
            };
            db.social_posts_reactions.insert(&key, &SocialPostsReactionsRecord)?;
        }
        db.social_posts.insert(&target, &counts)
    }

    fn remove_answer_tx(
        target: ShortEventId,
        event: &VerifiedEvent,
        post: &SocialPost,
        db: &mut Tables<'_>,
    ) -> (res: DbResult<()>)
        ensures
            left(res, final(db)@, answer_removed(old(db)@, target, *event, *post)),
            unread(res) ==> !old(db).intact(),
            res is Ok && old(db).intact() ==> final(db).intact(),
    {
        let key = (target, event.event.timestamp, event.short_id());
        let mut counts = match db.social_posts.get(&target)? {
            Some(counts) => counts,
            None => SocialPostRecord::default(),
        };
        if post.djot_content.is_some() {
            db.social_posts_replies.remove(&key)?;
            counts.reply_count = match counts.reply_count.checked_sub(1) {
                Some(n) => n,
                None => return Err(DbError::Overflow),
            };
        }
        if post.reaction.is_some() {
            db.social_posts_reactions.remove(&key)?;
            counts.reaction_count = match counts.reaction_count.checked_sub(1) {
                Some(n) => n,
                None => return Err(DbError::Overflow),
            };
        }
        db.social_posts.insert(&target, &counts)
    }

    fn list_post_tx(
        &self,
        event: &VerifiedEvent,
        post: &SocialPost,
        mentions_self: bool,
        received_at: Timestamp,
        db: &mut Tables<'_>,
    ) -> (res: DbResult<()>)
        ensures
            left(
                res,
                final(db)@,
                post_listed_at(*self, old(db)@, *event, *post, mentions_self, received_at),
            ),
            unread(res) ==> !old(db).intact(),
            res is Ok && old(db).intact() ==> final(db).intact(),
    {
        let author = event.event.author;
        let event_id = event.short_id();
        db.social_posts_by_time.insert(&(event.event.timestamp, event_id), &())?;
        Self::insert_social_post_receipt_tx(event_id, received_at, db)?;
        if let Some(old_event_id) = social_post_replaced_event_id(event, post) {
            Self::insert_social_post_replacement_tx(event, old_event_id, db)?;
        }
        if author != self.self_id && post.djot_content.is_some() && mentions_self {
            db.social_posts_self_mention.insert(&event_id, &())?;
        }
        Ok(())
    }

    /// Makes a post show up that counts as received at the given time; see
    /// [`post_applied_at`].
    pub fn apply_social_post_tx(
        &self,
        event: &VerifiedEvent,
        post: &SocialPost,
        mentions_self: bool,
        now: Timestamp,
        received_at: Timestamp,
        db: &mut Tables<'_>,
    ) -> (res: DbResult<Vec<Action>>)
        ensures
            ran(
                crate::error::seen(res),
                final(db)@,
                post_applied_at(
                    *self,
                    old(db)@,
                    *event,
                    *post,
                    mentions_self,
                    now,
                    received_at,
                ),
            ),
            unread(res) ==> !old(db).intact(),
            res is Ok && old(db).intact() ==> final(db).intact(),
    {
        let mut actions: Vec<Action> = Vec::new();
        match social_post_projection_plan(event, post) {
            SocialPostProjectionPlan::Skip => {
                assert(actions@ =~= Seq::empty());
                return Ok(actions);
            },
            SocialPostProjectionPlan::Apply { .. } => {},
        }
        let event_id = event.short_id();
        self.list_post_tx(event, post, mentions_self, received_at, db)?;
        if let Some(target) = post.reply_to {
            Self::add_answer_tx(target.event_id, event, post, db)?;
        }
        Self::append_social_post_materialization_tx(
            event_id,
            &mut db.social_post_materializations,
        )?;
        actions.push(Action::NewPost { event_id });
        if post.news {
            actions.push(
                Action::UpsertNewsRank {
                    post_id: ExternalEventId { rostra_id: event.event.author, event_id },
                    written_at: event.event.timestamp,
                    now,
                },
            );
        }
        assert(actions@ =~= post_actions(*event, *post, now));
        Ok(actions)
    }

    /// Takes a post back; see [`post_reverted`].
    pub fn revert_social_post_tx(
        event: &VerifiedEvent,
        post: &SocialPost,
        db: &mut Tables<'_>,
    ) -> (res: DbResult<Vec<Action>>)
        ensures
            ran(
                crate::error::seen(res),
                final(db)@,
                post_reverted(old(db)@, *event, *post),
            ),
            unread(res) ==> !old(db).intact(),
            res is Ok && old(db).intact() ==> final(db).intact(),
    {
        let mut actions: Vec<Action> = Vec::new();
        assert(actions@ =~= Seq::empty());
        match social_post_projection_plan(event, post) {
            SocialPostProjectionPlan::Skip => {
                return Ok(actions);
            },
            SocialPostProjectionPlan::Apply { .. } => {},
        }
        let event_id = event.short_id();
        db.social_posts_by_time.remove(&(event.event.timestamp, event_id))?;
        Self::remove_social_post_receipt_tx(event_id, db)?;
        if post.news {
            actions.push(
                Action::RemoveNewsRank {
                    post_id: ExternalEventId { rostra_id: event.event.author, event_id },
                },
            );
            assert(actions@ =~= seq![
                Action::RemoveNewsRank {
                    post_id: ExternalEventId { rostra_id: event.event.author, event_id },
                },
            ]);
        }
        db.social_posts_self_mention.remove(&event_id)?;
        if let Some(target) = post.reply_to {
            Self::remove_answer_tx(target.event_id, event, post, db)?;
        }
        Ok(actions)
    }
}

}
