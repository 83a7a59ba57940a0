//! What payloads do once they are there.

use vstd::prelude::*;

use crate::content::{decremented, state_of, unqueued};
use crate::database::Database;
use crate::error::{left, unread, DbError, DbResult, Effect};
use crate::event::{
    EventContentState, EventKind, EventSingletonRecord, SocialVoteProjection, VerifiedEvent,
};
use crate::follow::{followed, unfollowed};
use crate::ids::{EventAuxKey, EventOrder, IrohNodeId, RostraId, ShortEventId, Timestamp};
use crate::insert_event::stored;
use crate::latest::{latest_kept, LatestEventValue};
use crate::payload::{
    is_projected, replaced_by, social_post_replaced_event_id, Action, Follow, Payload, SocialPost,
    SocialProfileUpdate, SocialVote,
};
use crate::profile::{IdSocialProfileRecord, ProfileModel};
use crate::projection::{post_applied_at, post_reverted, reception_of, replacement_noted};
use crate::reception::received;
use crate::retention::RetentionOrigins;
use crate::tables::{DbState, IrohNodeRecord, IrohNodeStats, Latest, Tables};
use crate::usage::{usage_of, usage_set, Bucket};

verus! {

/// Why a payload was not processed.
#[derive(Debug)]
pub enum ProcessEventError {
    /// The database failed or contradicts itself.
    Db(DbError),
    /// The payload is not what the kind of its event asks for.
    Invalid,
}

pub type ProcessEventResult<T> = Result<T, ProcessEventError>;

/// Processing returned `res` and left `after`, as `want` says it does, `None`
/// standing for an invalid payload, or the storage failed under it.
pub open spec fn processed<T: View, S>(
    res: ProcessEventResult<T>,
    after: S,
    want: Effect<Option<T::V>, S>,
) -> bool {
    match res {
        Ok(value) => want == Ok::<(Option<T::V>, S), DbError>((Some(value@), after)),
        Err(ProcessEventError::Invalid) => want == Ok::<(Option<T::V>, S), DbError>((None, after)),
        Err(ProcessEventError::Db(e)) => e.is_fault() || want == Err::<
            (Option<T::V>, S),
            DbError,
        >(e),
    }
}

/// As [`processed`], of an inner step that hands out the value itself.
pub open spec fn stepped<T: View, S>(
    res: DbResult<Option<T>>,
    after: S,
    want: Effect<Option<T::V>, S>,
) -> bool {
    match res {
        Ok(Some(value)) => want == Ok::<(Option<T::V>, S), DbError>((Some(value@), after)),
        Ok(None) => want == Ok::<(Option<T::V>, S), DbError>((None, after)),
        Err(e) => e.is_fault() || want == Err::<(Option<T::V>, S), DbError>(e),
    }
}

/// Taking a payload returned `res` and left `after`, as `want` says it does,
/// or the storage failed under it.
pub open spec fn content_ran(
    res: DbResult<(ContentOutcome, Vec<Action>)>,
    after: DbState,
    want: Effect<(ContentOutcome, Seq<Action>), DbState>,
) -> bool {
    match res {
        Ok((outcome, actions)) => want == Ok::<_, DbError>(((outcome, actions@), after)),
        Err(e) => e.is_fault() || want == Err::<((ContentOutcome, Seq<Action>), DbState), _>(e),
    }
}

/// An endpoint is noted, with the latest time it was announced.
pub open spec fn node_announced(
    db: DbState,
    author: RostraId,
    addr: IrohNodeId,
    ts: Timestamp,
) -> DbState {
    let key = (author, addr);
    let record = if db.ids_nodes.contains_key(key) {
        db.ids_nodes[key]
    } else {
        IrohNodeRecord { announcement_ts: ts, stats: IrohNodeStats::fresh() }
    };
    let announcement_ts = if record.announcement_ts.secs < ts.secs {
        ts
    } else {
        record.announcement_ts
    };
    DbState {
        ids_nodes: db.ids_nodes.insert(key, IrohNodeRecord { announcement_ts, ..record }),
        ..db
    }
}

/// Who is told of a changed follow.
pub open spec fn follow_actions(
    me: Database,
    after: DbState,
    author: RostraId,
    followee: RostraId,
) -> Seq<Action> {
    let about_followees = if author == me.self_id {
        seq![Action::SelfFolloweesChanged, Action::SelfWotChanged]
    } else if after.ids_followees.contains_key((me.self_id, author)) {
        seq![Action::SelfWotChanged]
    } else {
        Seq::empty()
    };
    if followee == me.self_id {
        about_followees.push(Action::SelfFollowersChanged)
    } else {
        about_followees
    }
}

/// A follow or unfollow is applied.
pub open spec fn follow_applied(
    me: Database,
    db: DbState,
    e: VerifiedEvent,
    follow: Follow,
) -> (Seq<Action>, DbState) {
    let author = e.event.author;
    let (updated, after) = if follow.unfollow {
        unfollowed(db, author, e.order(), follow.followee)
    } else {
        followed(db, author, e.order(), follow.followee, follow.selector@)
    };
    if updated {
        (follow_actions(me, after, author, follow.followee), after)
    } else {
        (Seq::empty(), after)
    }
}

/// A vote counts if it is a singleton under the key of the post it is on.
pub open spec fn vote_cast(e: VerifiedEvent, vote: SocialVote) -> Option<SocialVoteProjection> {
    match vote.reply_to {
        Some(target) => if e.event.singleton && e.event.aux_key == vote.aux_key {
            Some(SocialVoteProjection { target, value: vote.value })
        } else {
            None
        },
        None => None,
    }
}

/// A profile as a table value.
pub open spec fn profile_model(e: VerifiedEvent, update: SocialProfileUpdate) -> (
    Timestamp,
    ProfileModel,
) {
    (
        e.event.timestamp,
        ProfileModel {
            event_id: e.id(),
            display_name: update.display_name@,
            bio: update.bio@,
            avatar: match update.avatar {
                Some((media, bytes)) => Some((media@, bytes@)),
                None => None,
            },
        },
    )
}

/// The vote that the singleton row of an event holds.
pub open spec fn vote_held(db: DbState, e: VerifiedEvent) -> Option<SocialVoteProjection> {
    let key = (e.event.author, e.event.kind, e.event.aux_key);
    if db.events_singletons_new.contains_key(key) {
        db.events_singletons_new[key].inner.social_vote
    } else {
        None
    }
}

/// The singleton row of an event gives way to it: it is from an earlier event,
/// or there is none.
pub open spec fn vote_replaces(db: DbState, e: VerifiedEvent) -> bool {
    let key = (e.event.author, e.event.kind, e.event.aux_key);
    db.events_singletons_new.contains_key(key) ==> {
        let row = db.events_singletons_new[key];
        (EventOrder { timestamp: row.ts, event_id: row.inner.event_id }).lt(e.order())
    }
}

/// The counting of a vote, with the one that counted before.
pub open spec fn vote_counted(db: DbState, e: VerifiedEvent, vote: SocialVoteProjection) -> Action {
    Action::CountVote {
        vote,
        author: e.event.author,
        order: e.order(),
        held: vote_held(db, e),
        replaces: vote_replaces(db, e),
    }
}

/// What the payload of an event does by its kind, where the event counts as
/// received at the given time. `None` where the payload is not what the kind
/// asks for; nothing is changed then.
pub open spec fn kind_applied_at(
    me: Database,
    db: DbState,
    e: VerifiedEvent,
    payload: Payload,
    now: Timestamp,
    received_at: Timestamp,
) -> Effect<Option<Seq<Action>>, DbState> {
    let author = e.event.author;
    let plain_dm = !e.event.singleton && e.event.aux_key == (EventAuxKey { hi: 0, lo: 0 });
    match (e.event.kind, payload) {
        (EventKind::DmDevice, Payload::DmDevice) => if plain_dm {
            Ok((Some(seq![Action::ApplyDmDevice { author, order: e.order() }]), db))
        } else {
            Ok((None, db))
        },
        (EventKind::DirectMessage, Payload::DirectMessage) => if plain_dm {
            Ok(
                (
                    Some(seq![Action::DmPending]),
                    DbState { events_dm_pending: db.events_dm_pending.insert(e.id(), None), ..db },
                ),
            )
        } else {
            Ok((None, db))
        },
        (EventKind::Follow, Payload::Follow(follow)) | (
            EventKind::Unfollow,
            Payload::Follow(follow),
        ) => {
            let (actions, after) = follow_applied(me, db, e, follow);
            Ok((Some(actions), after))
        },
        (EventKind::NodeAnnouncement, Payload::NodeAnnouncement(addr)) => Ok(
            (
                Some(seq![Action::TrimNodes { author }]),
                node_announced(db, author, addr, e.event.timestamp),
            ),
        ),
        (EventKind::SocialProfileUpdate, Payload::SocialProfileUpdate(update)) => Ok(
            (
                Some(Seq::empty()),
                DbState {
                    social_profiles: latest_kept::<RostraId, Latest<IdSocialProfileRecord>>(
                        db.social_profiles,
                        author,
                        profile_model(e, update),
                    ).1,
                    ..db
                },
            ),
        ),
        (EventKind::SocialPost, Payload::SocialPost { post, mentions_self }) => match post_applied_at(
            me,
            db,
            e,
            post,
            mentions_self,
            now,
            received_at,
        ) {
            Ok((actions, after)) => Ok((Some(actions), after)),
            Err(err) => Err(err),
        },
        (EventKind::SocialVote, Payload::SocialVote(vote)) => match vote_cast(e, vote) {
            Some(vote) => Ok((Some(seq![vote_counted(db, e, vote)]), db)),
            None => Ok((Some(Seq::empty()), db)),
        },
        (EventKind::Shoutbox, Payload::Shoutbox) => match received(
            db.reception_order_next,
            db.shoutbox_posts_by_received_at,
            received_at,
            e.id(),
        ) {
            Ok((_, (reception_order_next, shoutbox_posts_by_received_at))) => Ok(
                (
                    Some(seq![Action::NewShoutbox { event_id: e.id() }]),
                    DbState { reception_order_next, shoutbox_posts_by_received_at, ..db },
                ),
            ),
            Err(err) => Err(err),
        },
        (EventKind::Other(_), _) => Ok((Some(Seq::empty()), db)),
        _ => Ok((None, db)),
    }
}

/// The singleton row that an event asks for: none unless it is a singleton,
/// nor for a post that does not show up or a vote that does not count.
pub open spec fn singleton_of(e: VerifiedEvent, payload: Payload) -> Option<EventSingletonRecord> {
    if !e.event.singleton {
        None
    } else {
        match payload {
            Payload::SocialPost { post, mentions_self } => if e.event.kind is SocialPost
                && !is_projected(e.event, post) {
                None
            } else {
                Some(EventSingletonRecord { event_id: e.id(), social_vote: None })
            },
            Payload::SocialVote(vote) => if e.event.kind is SocialVote {
                match vote_cast(e, vote) {
                    Some(cast) => Some(
                        EventSingletonRecord { event_id: e.id(), social_vote: Some(cast) },
                    ),
                    None => None,
                }
            } else {
                Some(EventSingletonRecord { event_id: e.id(), social_vote: None })
            },
            _ => Some(EventSingletonRecord { event_id: e.id(), social_vote: None }),
        }
    }
}

/// The singleton row of an event is kept unless a later one is there.
pub open spec fn singleton_kept(
    db: DbState,
    e: VerifiedEvent,
    record: Option<EventSingletonRecord>,
) -> DbState {
    match record {
        None => db,
        Some(inner) => DbState {
            events_singletons_new: latest_kept::<
                (RostraId, EventKind, EventAuxKey),
                Latest<EventSingletonRecord>,
            >(
                db.events_singletons_new,
                (e.event.author, e.event.kind, e.event.aux_key),
                Latest { ts: e.event.timestamp, inner },
            ).1,
            ..db
        },
    }
}

/// What the payload of an event does when it is processed.
pub open spec fn content_inserted(
    me: Database,
    db: DbState,
    e: VerifiedEvent,
    payload: Payload,
    now: Timestamp,
) -> Effect<Option<Seq<Action>>, DbState> {
    content_inserted_at(me, db, e, payload, now, reception_of(me, db, e, now))
}

/// As [`content_inserted`], where the event counts as received at the given
/// time.
pub open spec fn content_inserted_at(
    me: Database,
    db: DbState,
    e: VerifiedEvent,
    payload: Payload,
    now: Timestamp,
    received_at: Timestamp,
) -> Effect<Option<Seq<Action>>, DbState> {
    match kind_applied_at(me, db, e, payload, now, received_at) {
        Ok((Some(actions), after)) => Ok(
            (Some(actions), singleton_kept(after, e, singleton_of(e, payload))),
        ),
        other => other,
    }
}

/// What is taken back of a processed payload, given as the post that it reads
/// as: only posts leave anything to take back.
pub open spec fn content_reverted(
    db: DbState,
    e: VerifiedEvent,
    post: Option<SocialPost>,
) -> Effect<Option<Seq<Action>>, DbState> {
    if !(e.event.kind is SocialPost) {
        Ok((Some(Seq::empty()), db))
    } else {
        match post {
            None => Ok((None, db)),
            Some(post) => match post_reverted(db, e, post) {
                Ok((actions, after)) => Ok((Some(actions), after)),
                Err(err) => Err(err),
            },
        }
    }
}

/// All that a post whose payload is deleted leaves behind is the edit that it
/// was. The result says whether it was one.
pub open spec fn lineage_kept(
    me: Database,
    db: DbState,
    e: VerifiedEvent,
    post: Option<SocialPost>,
) -> Effect<Option<bool>, DbState> {
    if !(e.event.kind is SocialPost) || me.max_content_len <= e.event.content_len {
        Ok((Some(false), db))
    } else {
        match post {
            None => Ok((None, db)),
            Some(post) => match replaced_by(e.event, post) {
                Some(old_id) => Ok(
                    (Some(true), replacement_noted(db, e.event.author, old_id, e.id())),
                ),
                None => Ok((Some(false), db)),
            },
        }
    }
}

/// What processing the payload of an event came to.
#[derive(Debug, Clone, Copy, PartialEq, Eq, Structural)]
pub enum ContentOutcome {
    /// The payload was not waited for.
    Skipped,
    /// It was deleted; whether it was an edit, which is noted.
    Deleted { is_edit: bool },
    /// It was processed.
    Processed,
    /// It is not what the kind of its event asks for.
    Invalid,
}

/// A first processing is noted with its time, where the event has a row for
/// it.
pub open spec fn origin_noted(
    m: Map<ShortEventId, RetentionOrigins>,
    id: ShortEventId,
    now: Timestamp,
) -> Map<ShortEventId, RetentionOrigins> {
    if m.contains_key(id) && m[id].materialized_at is None {
        m.insert(id, RetentionOrigins { materialized_at: Some(now), ..m[id] })
    } else {
        m
    }
}

/// A missing payload with these bytes was processed: the bytes are kept, the
/// event waits no more, and its author's usage is current.
pub open spec fn content_kept(
    db: DbState,
    e: VerifiedEvent,
    state: EventContentState,
    bytes: Seq<u8>,
    now: Timestamp,
) -> Result<DbState, DbError> {
    let hash = e.event.content_hash;
    match usage_set(
        db.ids_data_usage,
        e.event.author,
        usage_of(db.ids_data_usage, e.event.author).moved(
            Bucket::Missing,
            Bucket::Current,
            e.event.content_len,
        ),
    ) {
        Err(err) => Err(err),
        Ok((_, ids_data_usage)) => Ok(
            DbState {
                content_store: if stored(db, hash) is Some {
                    db.content_store
                } else {
                    db.content_store.insert(hash, bytes)
                },
                events_content_missing: unqueued(db.events_content_missing, e.id(), Some(state)),
                events_content_state: db.events_content_state.remove(e.id()),
                events_retention_origins: origin_noted(db.events_retention_origins, e.id(), now),
                ids_data_usage,
                ..db
            },
        ),
    }
}

/// A missing payload turned out invalid: it gives up its reference, and the
/// event waits no more.
pub open spec fn content_rejected(db: DbState, e: VerifiedEvent, state: EventContentState) -> Result<
    DbState,
    DbError,
> {
    match decremented(db.content_rc, e.event.content_hash) {
        Err(err) => Err(err),
        Ok((_, content_rc)) => match usage_set(
            db.ids_data_usage,
            e.event.author,
            usage_of(db.ids_data_usage, e.event.author).moved(
                Bucket::Missing,
                Bucket::Invalid,
                e.event.content_len,
            ),
        ) {
            Err(err) => Err(err),
            Ok((_, ids_data_usage)) => Ok(
                DbState {
                    content_rc,
                    events_content_missing: unqueued(
                        db.events_content_missing,
                        e.id(),
                        Some(state),
                    ),
                    events_content_state: db.events_content_state.insert(
                        e.id(),
                        EventContentState::Invalid,
                    ),
                    ids_data_usage,
                    ..db
                },
            ),
        },
    }
}

/// The post that a payload is, if it is one.
pub open spec fn as_post(payload: Payload) -> Option<SocialPost> {
    match payload {
        Payload::SocialPost { post, .. } => Some(post),
        _ => None,
    }
}

/// What the arrival of a payload does. Only a missing payload is processed,
/// and of a deleted one no more than the edit that it was is noted.
pub open spec fn content_processed(
    me: Database,
    db: DbState,
    e: VerifiedEvent,
    bytes: Seq<u8>,
    payload: Payload,
    now: Timestamp,
) -> Effect<(ContentOutcome, Seq<Action>), DbState> {
    match state_of(db.events_content_state, e.id()) {
        Some(EventContentState::Missing {
            last_fetch_attempt,
            fetch_attempt_count,
            next_fetch_attempt,
        }) => {
            let state = EventContentState::Missing {
                last_fetch_attempt,
                fetch_attempt_count,
                next_fetch_attempt,
            };
            match content_inserted(me, db, e, payload, now) {
                Err(err) => Err(err),
                Ok((Some(actions), applied)) => match content_kept(applied, e, state, bytes, now) {
                    Err(err) => Err(err),
                    Ok(after) => Ok(((ContentOutcome::Processed, actions), after)),
                },
                Ok((None, unchanged)) => match content_rejected(unchanged, e, state) {
                    Err(err) => Err(err),
                    Ok(after) => Ok(((ContentOutcome::Invalid, Seq::empty()), after)),
                },
            }
        },
        Some(EventContentState::Deleted { .. }) => match lineage_kept(me, db, e, as_post(payload)) {
            Err(err) => Err(err),
            Ok((is_edit, after)) => Ok(
                (
                    (ContentOutcome::Deleted { is_edit: is_edit == Some(true) }, Seq::empty()),
                    after,
                ),
            ),
        },
        _ => Ok(((ContentOutcome::Skipped, Seq::empty()), db)),
    }
}

/// A failure that was passed over, if any, is one of the storage; where all rows
/// can be read, it is not that one could not be understood.
pub open spec fn is_failure(failed: Option<DbError>, intact: bool) -> bool {
    failed matches Some(e) ==> e.is_fault() && (e is Malformed ==> !intact)
}

impl Database {
    /// The database as far as the follow of an author could be read: where that
    /// failed, what comes is received now.
    pub open spec fn as_read(self, failed: Option<DbError>) -> Database {
        match failed {
            None => self,
            Some(_) => self.always_fresh(),
        }
    }
}

/// Where what comes is always received now, it is so here too.
pub proof fn lemma_always_fresh(
    me: Database,
    db: DbState,
    e: VerifiedEvent,
    payload: Payload,
    now: Timestamp,
)
    ensures
        content_inserted(me.always_fresh(), db, e, payload, now) == content_inserted_at(
            me,
            db,
            e,
            payload,
            now,
            now,
        ),
{
}

/// The time of reception matters to posts and shoutbox posts alone.
proof fn lemma_reception_matters(
    me: Database,
    db: DbState,
    e: VerifiedEvent,
    payload: Payload,
    now: Timestamp,
    received_at: Timestamp,
)
    requires
        !(e.event.kind is SocialPost) && !(e.event.kind is Shoutbox) || received_at
            == reception_of(me, db, e, now),
    ensures
        content_inserted_at(me, db, e, payload, now, received_at) == content_inserted(
            me,
            db,
            e,
            payload,
            now,
        ),
{
}

impl Database {
    fn announce_node_tx(
        author: RostraId,
        addr: IrohNodeId,
        ts: Timestamp,
        db: &mut Tables<'_>,
    ) -> (res: DbResult<()>)
        ensures
            left(res, final(db)@, Ok(node_announced(old(db)@, author, addr, ts))),
            unread(res) ==> !old(db).intact(),
            res is Ok && old(db).intact() ==> final(db).intact(),
    {
        let key = (author, addr);
        let mut record = match db.ids_nodes.get(&key)? {
            Some(record) => record,
            None => IrohNodeRecord { announcement_ts: ts, stats: IrohNodeStats::default() },
        };
        if record.announcement_ts.secs < ts.secs {
            record.announcement_ts = ts;
        }
        db.ids_nodes.insert(&key, &record)
    }

    fn apply_follow_tx(&self, event: &VerifiedEvent, follow: Follow, db: &mut Tables<'_>) -> (res:
        DbResult<Vec<Action>>)
        ensures
            match res {
                Ok(actions) => (actions@, final(db)@) == follow_applied(
                    *self,
                    old(db)@,
                    *event,
                    follow,
                ),
                Err(e) => e.is_fault(),
            },
            unread(res) ==> !old(db).intact(),
            res is Ok && old(db).intact() ==> final(db).intact(),
    {
        let author = event.event.author;
        let followee = follow.followee;
        let updated = if follow.unfollow {
            Self::insert_unfollow_tx(author, event.event_order(), followee, db)?
        } else {
            Self::insert_follow_tx(author, event.event_order(), followee, follow.selector, db)?
        };
        let mut actions: Vec<Action> = Vec::new();
        if !updated {
            assert(actions@ =~= Seq::empty());
            return Ok(actions);
        }
        if author == self.self_id {
            actions.push(Action::SelfFolloweesChanged);
            actions.push(Action::SelfWotChanged);
        } else if db.ids_followees.contains(&(self.self_id, author))? {
            actions.push(Action::SelfWotChanged);
        }
        if followee == self.self_id {
            actions.push(Action::SelfFollowersChanged);
        }
        assert(actions@ =~= follow_actions(*self, db@, author, followee));
        Ok(actions)
    }

    fn apply_shoutbox_tx(
        event: &VerifiedEvent,
        received_at: Timestamp,
        db: &mut Tables<'_>,
    ) -> (res: DbResult<()>)
        ensures
            left(
                res,
                final(db)@,
                match received(
                    old(db)@.reception_order_next,
                    old(db)@.shoutbox_posts_by_received_at,
                    received_at,
                    event.id(),
                ) {
                    Ok((_, (reception_order_next, shoutbox_posts_by_received_at))) => Ok(
                        DbState {
                            reception_order_next,
                            shoutbox_posts_by_received_at,
                            ..old(db)@
                        },
                    ),
                    Err(err) => Err(err),
                },
            ),
            unread(res) ==> !old(db).intact(),
            res is Ok && old(db).intact() ==> final(db).intact(),
    {
        Self::insert_reception_ordered_tx(
            received_at,
            &event.short_id(),
            &mut db.reception_order_next,
            &mut db.shoutbox_posts_by_received_at,
        )?;
        Ok(())
    }

    fn keep_singleton_tx(
        event: &VerifiedEvent,
        record: Option<EventSingletonRecord>,
        db: &mut Tables<'_>,
    ) -> (res: DbResult<()>)
        ensures
            left(res, final(db)@, Ok(singleton_kept(old(db)@, *event, record))),
            unread(res) ==> !old(db).intact(),
            res is Ok && old(db).intact() ==> final(db).intact(),
    {
        if let Some(inner) = record {
            let key = (event.event.author, event.event.kind, event.event.aux_key);
            Self::insert_latest_value_tx(
                &key,
                Latest { ts: event.event.timestamp, inner },
                &mut db.events_singletons_new,
            )?;
        }
        Ok(())
    }

    fn apply_profile_tx(
        event: &VerifiedEvent,
        update: SocialProfileUpdate,
        db: &mut Tables<'_>,
    ) -> (res: DbResult<()>)
        ensures
            left(
                res,
                final(db)@,
                Ok(
                    DbState {
                        social_profiles: latest_kept::<RostraId, Latest<IdSocialProfileRecord>>(
                            old(db)@.social_profiles,
                            event.event.author,
                            profile_model(*event, update),
                        ).1,
                        ..old(db)@
                    },
                ),
            ),
            unread(res) ==> !old(db).intact(),
            res is Ok && old(db).intact() ==> final(db).intact(),
    {
        Self::insert_latest_value_tx(
            &event.event.author,
            Latest {
                ts: event.event.timestamp,
                inner: IdSocialProfileRecord {
                    event_id: event.short_id(),
                    display_name: update.display_name,
                    bio: update.bio,
                    avatar: update.avatar,
                },
            },
            &mut db.social_profiles,
        )?;
        Ok(())
    }

    fn apply_kind_tx(
        &self,
        event: &VerifiedEvent,
        payload: Payload,
        now: Timestamp,
        received_at: Timestamp,
        db: &mut Tables<'_>,
    ) -> (res: DbResult<Option<Vec<Action>>>)
        ensures
            stepped(
                res,
                final(db)@,
                kind_applied_at(*self, old(db)@, *event, payload, now, received_at),
            ),
            unread(res) ==> !old(db).intact(),
            res is Ok && old(db).intact() ==> final(db).intact(),
    {
        let author = event.event.author;
        let event_id = event.short_id();
        let order = event.event_order();
        let plain_dm = !event.event.singleton && event.event.aux_key.hi == 0
            && event.event.aux_key.lo == 0;
        let mut actions: Vec<Action> = Vec::new();
        assert(actions@ =~= Seq::empty());
        match (event.event.kind, payload) {
            (EventKind::DmDevice, Payload::DmDevice) => {
                if !plain_dm {
                    return Ok(None);
                }
                actions.push(Action::ApplyDmDevice { author, order });
                assert(actions@ =~= seq![Action::ApplyDmDevice { author, order }]);
            },
            (EventKind::DirectMessage, Payload::DirectMessage) => {
                if !plain_dm {
                    return Ok(None);
                }
                db.events_dm_pending.insert(&event_id, &None)?;
                actions.push(Action::DmPending);
                assert(actions@ =~= seq![Action::DmPending]);
            },
            (EventKind::Follow, Payload::Follow(follow)) | (
                EventKind::Unfollow,
                Payload::Follow(follow),
            ) => {
                return Ok(Some(self.apply_follow_tx(event, follow, db)?));
            },
            (EventKind::NodeAnnouncement, Payload::NodeAnnouncement(addr)) => {
                Self::announce_node_tx(author, addr, event.event.timestamp, db)?;
                actions.push(Action::TrimNodes { author });
                assert(actions@ =~= seq![Action::TrimNodes { author }]);
            },
            (EventKind::SocialProfileUpdate, Payload::SocialProfileUpdate(update)) => {
                Self::apply_profile_tx(event, update, db)?;
            },
            (EventKind::SocialPost, Payload::SocialPost { post, mentions_self }) => {
                return Ok(
                    Some(
                        self.apply_social_post_tx(
                            event,
                            &post,
                            mentions_self,
                            now,
                            received_at,
                            db,
                        )?,
                    ),
                );
            },
            (EventKind::SocialVote, Payload::SocialVote(vote)) => {
                if let Some(vote) = Self::cast_vote(event, vote) {
                    let counted = Self::count_vote_tx(event, vote, db)?;
                    actions.push(counted);
                    assert(actions@ =~= seq![counted]);
                }
            },
            (EventKind::Shoutbox, Payload::Shoutbox) => {
                Self::apply_shoutbox_tx(event, received_at, db)?;
                actions.push(Action::NewShoutbox { event_id });
                assert(actions@ =~= seq![Action::NewShoutbox { event_id }]);
            },
            (EventKind::Other(_), _) => {},
            _ => {
                return Ok(None);
            },
        }
        Ok(Some(actions))
    }

    /// The counting of a vote; see [`vote_counted`]. It is to be asked for
    /// before the singleton row of the vote is replaced.
    fn count_vote_tx(event: &VerifiedEvent, vote: SocialVoteProjection, db: &Tables<'_>) -> (res:
        DbResult<Action>)
        ensures
            match res {
                Ok(counted) => counted == vote_counted(db@, *event, vote),
                Err(e) => e.is_fault(),
            },
            unread(res) ==> !db.intact(),
    {
        let key = (event.event.author, event.event.kind, event.event.aux_key);
        let order = event.event_order();
        let (held, replaces) = match db.events_singletons_new.get(&key)? {
            Some(row) => (row.inner.social_vote, row.event_order().before(&order)),
            None => (None, true),
        };
        Ok(Action::CountVote { vote, author: event.event.author, order, held, replaces })
    }

    /// The vote that an event casts, if it counts; see [`vote_cast`].
    pub fn cast_vote(event: &VerifiedEvent, vote: SocialVote) -> (res: Option<
        SocialVoteProjection,
    >)
        ensures
            res == vote_cast(*event, vote),
    {
        match vote.reply_to {
            Some(target) => if event.event.singleton && event.event.aux_key == vote.aux_key {
                Some(SocialVoteProjection { target, value: vote.value })
            } else {
                None
            },
            None => None,
        }
    }

    fn singleton_record(event: &VerifiedEvent, payload: &Payload) -> (res: Option<
        EventSingletonRecord,
    >)
        ensures
            res == singleton_of(*event, *payload),
    {
        if !event.event.singleton {
            return None;
        }
        let event_id = event.short_id();
        match payload {
            Payload::SocialPost { post, .. } => {
                if event.event.kind == EventKind::SocialPost && event.event.deletes_parent_aux
                    && social_post_replaced_event_id(event, post).is_none() {
                    return None;
                }
            },
            Payload::SocialVote(vote) => {
                if event.event.kind == EventKind::SocialVote {
                    return match Self::cast_vote(event, *vote) {
                        Some(cast) => Some(
                            EventSingletonRecord { event_id, social_vote: Some(cast) },
                        ),
                        None => None,
                    };
                }
            },
            _ => {},
        }
        Some(EventSingletonRecord { event_id, social_vote: None })
    }

    /// Applies what the payload of an event does by its kind, where the event
    /// counts as received at the given time; see [`content_inserted_at`].
    /// `None` stands for a payload that is not what the kind asks for.
    pub fn insert_content_received_tx(
        &self,
        event: &VerifiedEvent,
        payload: Payload,
        now: Timestamp,
        received_at: Timestamp,
        db: &mut Tables<'_>,
    ) -> (res: DbResult<Option<Vec<Action>>>)
        ensures
            stepped(
                res,
                final(db)@,
                content_inserted_at(*self, old(db)@, *event, payload, now, received_at),
            ),
            unread(res) ==> !old(db).intact(),
            res is Ok && old(db).intact() ==> final(db).intact(),
    {
        let record = Self::singleton_record(event, &payload);
        match self.apply_kind_tx(event, payload, now, received_at, db)? {
            Some(actions) => {
                Self::keep_singleton_tx(event, record, db)?;
                Ok(Some(actions))
            },
            None => Ok(None),
        }
    }

    fn insert_content_tx(
        &self,
        event: &VerifiedEvent,
        payload: Payload,
        now: Timestamp,
        failed: &mut Option<DbError>,
        db: &mut Tables<'_>,
    ) -> (res: DbResult<Option<Vec<Action>>>)
        ensures
            stepped(
                res,
                final(db)@,
                content_inserted(self.as_read(*final(failed)), old(db)@, *event, payload, now),
            ),
            is_failure(*final(failed), old(db).intact()),
            unread(res) ==> !old(db).intact(),
            res is Ok && old(db).intact() ==> final(db).intact(),
    {
        let (received_at, unread_follow) = match event.event.kind {
            EventKind::SocialPost | EventKind::Shoutbox => self.effective_received_at(
                event.event.author,
                event.event.timestamp,
                now,
                &db.ids_followees,
            ),
            _ => (now, None),
        };
        proof {
            lemma_always_fresh(*self, db@, *event, payload, now);
            if unread_follow is None {
                lemma_reception_matters(*self, db@, *event, payload, now, received_at);
            }
        }
        *failed = unread_follow;
        self.insert_content_received_tx(event, payload, now, received_at, db)
    }

    /// Applies what the payload of an event does by its kind; see
    /// [`content_inserted`]. Where the follow of the author cannot be read, the
    /// event counts as received now, as in [`Database::always_fresh`], and the
    /// failure is kept as passed over;
    /// [`Database::insert_content_received_tx`] takes the time as it is given.
    pub fn process_event_content_inserted_tx(
        &self,
        event: &VerifiedEvent,
        payload: Payload,
        now: Timestamp,
        db: &mut Tables<'_>,
    ) -> (res: ProcessEventResult<Vec<Action>>)
        ensures
            processed(
                res,
                final(db)@,
                content_inserted(
                    self.as_read(final(db).passed_over),
                    old(db)@,
                    *event,
                    payload,
                    now,
                ),
            ),
            is_failure(final(db).passed_over, old(db).intact()),
            res matches Err(ProcessEventError::Db(DbError::Malformed(_))) ==> !old(db).intact(),
            !(res matches Err(ProcessEventError::Db(_))) && old(db).intact()
                ==> final(db).intact(),
    {
        let mut failed: Option<DbError> = None;
        let done = self.insert_content_tx(event, payload, now, &mut failed, db);
        db.passed_over = failed;
        match done {
            Ok(Some(actions)) => Ok(actions),
            Ok(None) => Err(ProcessEventError::Invalid),
            Err(e) => Err(ProcessEventError::Db(e)),
        }
    }

    /// Takes back what the processed payload of an event did; see
    /// [`content_reverted`].
    pub fn process_event_content_reverted_tx(
        event: &VerifiedEvent,
        post: &Option<SocialPost>,
        db: &mut Tables<'_>,
    ) -> (res: ProcessEventResult<Vec<Action>>)
        ensures
            processed(res, final(db)@, content_reverted(old(db)@, *event, *post)),
            res matches Err(ProcessEventError::Db(DbError::Malformed(_))) ==> !old(db).intact(),
            !(res matches Err(ProcessEventError::Db(_))) && old(db).intact()
                ==> final(db).intact(),
    {
        if event.event.kind != EventKind::SocialPost {
            let actions: Vec<Action> = Vec::new();
            assert(actions@ =~= Seq::empty());
            return Ok(actions);
        }
        match post {
            Some(post) => match Self::revert_social_post_tx(event, post, db) {
                Ok(actions) => Ok(actions),
                Err(e) => Err(ProcessEventError::Db(e)),
            },
            None => Err(ProcessEventError::Invalid),
        }
    }

    /// Notes the edit that a deleted post was, and nothing else of it; see
    /// [`lineage_kept`].
    pub fn process_deleted_social_post_replacement_tx(
        &self,
        event: &VerifiedEvent,
        post: &Option<SocialPost>,
        db: &mut Tables<'_>,
    ) -> (res: ProcessEventResult<bool>)
        ensures
            processed(res, final(db)@, lineage_kept(*self, old(db)@, *event, *post)),
            res matches Err(ProcessEventError::Db(DbError::Malformed(_))) ==> !old(db).intact(),
            !(res matches Err(ProcessEventError::Db(_))) && old(db).intact()
                ==> final(db).intact(),
    {
        if event.event.kind != EventKind::SocialPost || self.max_content_len
            <= event.event.content_len {
            return Ok(false);
        }
        let post = match post {
            Some(post) => post,
            None => return Err(ProcessEventError::Invalid),
        };
        match social_post_replaced_event_id(event, post) {
            Some(old_event_id) => match Self::insert_social_post_replacement_tx(
                event,
                old_event_id,
                db,
            ) {
                Ok(()) => Ok(true),
                Err(e) => Err(ProcessEventError::Db(e)),
            },
            None => Ok(false),
        }
    }

    fn keep_content_tx(
        event: &VerifiedEvent,
        state: EventContentState,
        bytes: Vec<u8>,
        now: Timestamp,
        db: &mut Tables<'_>,
    ) -> (res: DbResult<()>)
        ensures
            left(res, final(db)@, content_kept(old(db)@, *event, state, bytes@, now)),
            unread(res) ==> !old(db).intact(),
            res is Ok && old(db).intact() ==> final(db).intact(),
    {
        let event_id = event.short_id();
        let content_hash = event.event.content_hash;
        if !db.content_store.contains(&content_hash)? {
            db.content_store.insert(&content_hash, &bytes)?;
        }
        if let EventContentState::Missing { next_fetch_attempt, .. } = state {
            db.events_content_missing.remove(&(next_fetch_attempt, event_id))?;
        }
        db.events_content_state.remove(&event_id)?;
        Self::track_payload_processed_tx(
            event.event.author,
            event.event.content_len,
            &mut db.ids_data_usage,
        )?;
        if let Some(origins) = db.events_retention_origins.get(&event_id)? {
            if origins.materialized_at.is_none() {
                let origins = RetentionOrigins { materialized_at: Some(now), ..origins };
                db.events_retention_origins.insert(&event_id, &origins)?;
            }
        }
        Ok(())
    }

    fn reject_content_tx(
        event: &VerifiedEvent,
        state: EventContentState,
        db: &mut Tables<'_>,
    ) -> (res: DbResult<()>)
        ensures
            left(res, final(db)@, content_rejected(old(db)@, *event, state)),
            unread(res) ==> !old(db).intact(),
            res is Ok && old(db).intact() ==> final(db).intact(),
    {
        let event_id = event.short_id();
        Self::decrement_content_rc_tx(event.event.content_hash, &mut db.content_rc)?;
        Self::track_payload_invalid_tx(
            event.event.author,
            event.event.content_len,
            &mut db.ids_data_usage,
        )?;
        if let EventContentState::Missing { next_fetch_attempt, .. } = state {
            db.events_content_missing.remove(&(next_fetch_attempt, event_id))?;
        }
        db.events_content_state.insert(&event_id, &EventContentState::Invalid)
    }

    /// Takes a payload that arrived; see [`content_processed`]. `payload` is
    /// what the bytes say. Where the follow of the author cannot be read, the
    /// event counts as received now, as in [`Database::always_fresh`], and the
    /// failure is kept as passed over. The index of candidates is not brought up
    /// to date.
    pub fn process_event_content_inner_tx(
        &self,
        event: &VerifiedEvent,
        bytes: Vec<u8>,
        payload: Payload,
        now: Timestamp,
        db: &mut Tables<'_>,
    ) -> (res: DbResult<(ContentOutcome, Vec<Action>)>)
        ensures
            content_ran(
                res,
                final(db)@,
                content_processed(
                    self.as_read(final(db).passed_over),
                    old(db)@,
                    *event,
                    bytes@,
                    payload,
                    now,
                ),
            ),
            is_failure(final(db).passed_over, old(db).intact()),
            unread(res) ==> !old(db).intact(),
            res is Ok && old(db).intact() ==> final(db).intact(),
    {
        let mut failed: Option<DbError> = None;
        let done = self.take_content_tx(event, bytes, payload, now, &mut failed, db);
        db.passed_over = failed;
        done
    }

    pub(crate) fn take_content_tx(
        &self,
        event: &VerifiedEvent,
        bytes: Vec<u8>,
        payload: Payload,
        now: Timestamp,
        failed: &mut Option<DbError>,
        db: &mut Tables<'_>,
    ) -> (res: DbResult<(ContentOutcome, Vec<Action>)>)
        ensures
            content_ran(
                res,
                final(db)@,
                content_processed(
                    self.as_read(*final(failed)),
                    old(db)@,
                    *event,
                    bytes@,
                    payload,
                    now,
                ),
            ),
            is_failure(*final(failed), old(db).intact()),
            unread(res) ==> !old(db).intact(),
            res is Ok && old(db).intact() ==> final(db).intact(),
    {
        *failed = None;
        let none: Vec<Action> = Vec::new();
        assert(none@ =~= Seq::empty());
        match db.events_content_state.get(&event.short_id())? {
            Some(EventContentState::Missing {
                last_fetch_attempt,
                fetch_attempt_count,
                next_fetch_attempt,
            }) => {
                let state = EventContentState::Missing {
                    last_fetch_attempt,
                    fetch_attempt_count,
                    next_fetch_attempt,
                };
                match self.insert_content_tx(event, payload, now, failed, db)? {
                    Some(actions) => {
                        Self::keep_content_tx(event, state, bytes, now, db)?;
                        Ok((ContentOutcome::Processed, actions))
                    },
                    None => {
                        Self::reject_content_tx(event, state, db)?;
                        Ok((ContentOutcome::Invalid, none))
                    },
                }
            },
            Some(EventContentState::Deleted { .. }) => {
                let post = match payload {
                    Payload::SocialPost { post, .. } => Some(post),
                    _ => None,
                };
                match self.process_deleted_social_post_replacement_tx(event, &post, db) {
                    Ok(is_edit) => Ok((ContentOutcome::Deleted { is_edit }, none)),
                    Err(ProcessEventError::Invalid) => Ok(
                        (ContentOutcome::Deleted { is_edit: false }, none),
                    ),
                    Err(ProcessEventError::Db(e)) => Err(e),
                }
            },
            _ => Ok((ContentOutcome::Skipped, none)),
        }
    }
}

}
