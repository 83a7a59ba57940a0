//! The records that rows hold, and the tables of a database.

use vstd::prelude::*;

use crate::error::{DbError, DbResult};
use crate::event::{
    EventContentState, EventKind, EventReceivedRecord, EventSingletonRecord, EventsMissingRecord,
    VerifiedEvent,
};
use crate::follow::{FolloweesModel, IdsFolloweesRecord};
use crate::ids::{
    Bytes32, ContentHash, EventAuxKey, IrohNodeId, PersonaId, RostraId, ShortEventId,
    Timestamp,
};
use crate::profile::{IdSocialProfileRecord, IdsPersonaRecord, ProfileModel};
use crate::retention::{IndexEntry, IndexRecord, QuotaPruneDecision, RetentionKey, RetentionOrigins};
use crate::table::Table;
use crate::words::{Record, Words};

verus! {

/// Storage used by an identity: event envelopes and payloads, sizes and
/// counts, payloads by lifecycle state.
#[derive(Debug, Clone, Copy, PartialEq, Eq, Structural)]
pub struct IdsDataUsageRecord {
    /// Size of event envelopes currently stored, in bytes.
    pub current_metadata_size: u64,
    /// Size of all event envelopes known of, in bytes.
    pub total_metadata_size: u64,
    /// Number of events currently stored.
    pub current_metadata_num: u64,
    /// Number of events known of.
    pub total_metadata_num: u64,
    /// Size of payloads stored and processed, in bytes.
    pub current_content_size: u64,
    /// Size of all payloads known of, in bytes.
    pub total_content_size: u64,
    /// Number of payloads stored and processed.
    pub current_payload_num: u64,
    /// Number of payloads known of.
    pub total_payload_num: u64,
    /// Size of payloads not received or not processed yet, in bytes.
    pub missing_payload_size: u64,
    /// Number of payloads not received or not processed yet.
    pub missing_payload_num: u64,
    /// Size of payloads deleted by their author, in bytes.
    pub deleted_payload_size: u64,
    /// Number of payloads deleted by their author.
    pub deleted_payload_num: u64,
    /// Size of payloads pruned locally, in bytes.
    pub pruned_payload_size: u64,
    /// Number of payloads pruned locally.
    pub pruned_payload_num: u64,
    /// Size of payloads that failed validation, in bytes.
    pub invalid_payload_size: u64,
    /// Number of payloads that failed validation.
    pub invalid_payload_num: u64,
}

impl Record for IdsDataUsageRecord {
    type Parts = (u64, (u64, (u64, (u64, (u64, (u64, (u64, (u64, (u64, (u64, (u64, (u64, (u64, (u64, (u64, u64)))))))))))))));

    open spec fn parts(self) -> (u64, (u64, (u64, (u64, (u64, (u64, (u64, (u64, (u64, (u64, (u64, (u64, (u64, (u64, (u64, u64))))))))))))))) {
        (self.current_metadata_size, (self.total_metadata_size, (self.current_metadata_num, (self.total_metadata_num, (self.current_content_size, (self.total_content_size, (self.current_payload_num, (self.total_payload_num, (self.missing_payload_size, (self.missing_payload_num, (self.deleted_payload_size, (self.deleted_payload_num, (self.pruned_payload_size, (self.pruned_payload_num, (self.invalid_payload_size, self.invalid_payload_num)))))))))))))))
    }

    open spec fn assembled(p: (u64, (u64, (u64, (u64, (u64, (u64, (u64, (u64, (u64, (u64, (u64, (u64, (u64, (u64, (u64, u64)))))))))))))))) -> Option<Self> {
        Some(IdsDataUsageRecord { current_metadata_size: p.0, total_metadata_size: p.1.0, current_metadata_num: p.1.1.0, total_metadata_num: p.1.1.1.0, current_content_size: p.1.1.1.1.0, total_content_size: p.1.1.1.1.1.0, current_payload_num: p.1.1.1.1.1.1.0, total_payload_num: p.1.1.1.1.1.1.1.0, missing_payload_size: p.1.1.1.1.1.1.1.1.0, missing_payload_num: p.1.1.1.1.1.1.1.1.1.0, deleted_payload_size: p.1.1.1.1.1.1.1.1.1.1.0, deleted_payload_num: p.1.1.1.1.1.1.1.1.1.1.1.0, pruned_payload_size: p.1.1.1.1.1.1.1.1.1.1.1.1.0, pruned_payload_num: p.1.1.1.1.1.1.1.1.1.1.1.1.1.0, invalid_payload_size: p.1.1.1.1.1.1.1.1.1.1.1.1.1.1.0, invalid_payload_num: p.1.1.1.1.1.1.1.1.1.1.1.1.1.1.1 })
    }

    proof fn lemma_parts(self) {
    }

    proof fn lemma_assembled(p: (u64, (u64, (u64, (u64, (u64, (u64, (u64, (u64, (u64, (u64, (u64, (u64, (u64, (u64, (u64, u64)))))))))))))))) {
    }

    fn to_parts(&self) -> (p: (u64, (u64, (u64, (u64, (u64, (u64, (u64, (u64, (u64, (u64, (u64, (u64, (u64, (u64, (u64, u64)))))))))))))))) {
        (self.current_metadata_size, (self.total_metadata_size, (self.current_metadata_num, (self.total_metadata_num, (self.current_content_size, (self.total_content_size, (self.current_payload_num, (self.total_payload_num, (self.missing_payload_size, (self.missing_payload_num, (self.deleted_payload_size, (self.deleted_payload_num, (self.pruned_payload_size, (self.pruned_payload_num, (self.invalid_payload_size, self.invalid_payload_num)))))))))))))))
    }

    fn of_parts(p: (u64, (u64, (u64, (u64, (u64, (u64, (u64, (u64, (u64, (u64, (u64, (u64, (u64, (u64, (u64, u64)))))))))))))))) -> (res: Option<Self>) {
        Some(IdsDataUsageRecord { current_metadata_size: p.0, total_metadata_size: p.1.0, current_metadata_num: p.1.1.0, total_metadata_num: p.1.1.1.0, current_content_size: p.1.1.1.1.0, total_content_size: p.1.1.1.1.1.0, current_payload_num: p.1.1.1.1.1.1.0, total_payload_num: p.1.1.1.1.1.1.1.0, missing_payload_size: p.1.1.1.1.1.1.1.1.0, missing_payload_num: p.1.1.1.1.1.1.1.1.1.0, deleted_payload_size: p.1.1.1.1.1.1.1.1.1.1.0, deleted_payload_num: p.1.1.1.1.1.1.1.1.1.1.1.0, pruned_payload_size: p.1.1.1.1.1.1.1.1.1.1.1.1.0, pruned_payload_num: p.1.1.1.1.1.1.1.1.1.1.1.1.1.0, invalid_payload_size: p.1.1.1.1.1.1.1.1.1.1.1.1.1.1.0, invalid_payload_num: p.1.1.1.1.1.1.1.1.1.1.1.1.1.1.1 })
    }
}

/// A head event; the key says which.
#[derive(Debug, Clone, Copy, PartialEq, Eq, Structural)]
pub struct EventsHeadsTableRecord;

impl Record for EventsHeadsTableRecord {
    type Parts = ();

    open spec fn parts(self) {
        ()
    }

    open spec fn assembled(p: ()) -> Option<Self> {
        Some(EventsHeadsTableRecord)
    }

    proof fn lemma_parts(self) {
    }

    proof fn lemma_assembled(p: ()) {
    }

    fn to_parts(&self) -> (p: ()) {
        ()
    }

    fn of_parts(p: ()) -> (res: Option<Self>) {
        Some(EventsHeadsTableRecord)
    }
}

/// An active follower; the key says which.
#[derive(Debug, Clone, Copy, PartialEq, Eq, Structural)]
pub struct IdsFollowersRecord;

impl Record for IdsFollowersRecord {
    type Parts = ();

    open spec fn parts(self) {
        ()
    }

    open spec fn assembled(p: ()) -> Option<Self> {
        Some(IdsFollowersRecord)
    }

    proof fn lemma_parts(self) {
    }

    proof fn lemma_assembled(p: ()) {
    }

    fn to_parts(&self) -> (p: ()) {
        ()
    }

    fn of_parts(p: ()) -> (res: Option<Self>) {
        Some(IdsFollowersRecord)
    }
}

/// A reply; the key says which.
#[derive(Debug, Clone, Copy, PartialEq, Eq, Structural)]
pub struct SocialPostsRepliesRecord;

impl Record for SocialPostsRepliesRecord {
    type Parts = ();

    open spec fn parts(self) {
        ()
    }

    open spec fn assembled(p: ()) -> Option<Self> {
        Some(SocialPostsRepliesRecord)
    }

    proof fn lemma_parts(self) {
    }

    proof fn lemma_assembled(p: ()) {
    }

    fn to_parts(&self) -> (p: ()) {
        ()
    }

    fn of_parts(p: ()) -> (res: Option<Self>) {
        Some(SocialPostsRepliesRecord)
    }
}

/// A reaction; the key says which.
#[derive(Debug, Clone, Copy, PartialEq, Eq, Structural)]
pub struct SocialPostsReactionsRecord;

impl Record for SocialPostsReactionsRecord {
    type Parts = ();

    open spec fn parts(self) {
        ()
    }

    open spec fn assembled(p: ()) -> Option<Self> {
        Some(SocialPostsReactionsRecord)
    }

    proof fn lemma_parts(self) {
    }

    proof fn lemma_assembled(p: ()) {
    }

    fn to_parts(&self) -> (p: ()) {
        ()
    }

    fn of_parts(p: ()) -> (res: Option<Self>) {
        Some(SocialPostsReactionsRecord)
    }
}

/// The last unfollow event of a pair of identities: the boundary of the
/// current follow epoch.
#[derive(Debug, Clone, Copy, PartialEq, Eq, Structural)]
pub struct IdsUnfollowedRecord {
    pub ts: Timestamp,
    pub event_id: ShortEventId,
}

impl Record for IdsUnfollowedRecord {
    type Parts = (Timestamp, ShortEventId);

    open spec fn parts(self) -> (Timestamp, ShortEventId) {
        (self.ts, self.event_id)
    }

    open spec fn assembled(p: (Timestamp, ShortEventId)) -> Option<Self> {
        Some(IdsUnfollowedRecord { ts: p.0, event_id: p.1 })
    }

    proof fn lemma_parts(self) {
    }

    proof fn lemma_assembled(p: (Timestamp, ShortEventId)) {
    }

    fn to_parts(&self) -> (p: (Timestamp, ShortEventId)) {
        (self.ts, self.event_id)
    }

    fn of_parts(p: (Timestamp, ShortEventId)) -> (res: Option<Self>) {
        Some(IdsUnfollowedRecord { ts: p.0, event_id: p.1 })
    }
}

/// A value of which only the latest version is kept.
#[derive(Debug)]
pub struct Latest<T> {
    /// Author time of the event that it came from.
    pub ts: Timestamp,
    pub inner: T,
}

impl<T: Words + Copy> Record for Latest<T> {
    type Parts = (Timestamp, T);

    open spec fn parts(self) -> (Timestamp, T) {
        (self.ts, self.inner)
    }

    open spec fn assembled(p: (Timestamp, T)) -> Option<Self> {
        Some(Latest { ts: p.0, inner: p.1 })
    }

    proof fn lemma_parts(self) {
    }

    proof fn lemma_assembled(p: (Timestamp, T)) {
    }

    fn to_parts(&self) -> (p: (Timestamp, T)) {
        (self.ts, self.inner)
    }

    fn of_parts(p: (Timestamp, T)) -> (res: Option<Self>) {
        Some(Latest { ts: p.0, inner: p.1 })
    }
}

/// Counts of a post. They can be kept before the post itself is received.
#[derive(Debug, Clone, Copy, PartialEq, Eq, Structural)]
pub struct SocialPostRecord {
    pub reply_count: u64,
    pub reaction_count: u64,
}

impl Record for SocialPostRecord {
    type Parts = (u64, u64);

    open spec fn parts(self) -> (u64, u64) {
        (self.reply_count, self.reaction_count)
    }

    open spec fn assembled(p: (u64, u64)) -> Option<Self> {
        Some(SocialPostRecord { reply_count: p.0, reaction_count: p.1 })
    }

    proof fn lemma_parts(self) {
    }

    proof fn lemma_assembled(p: (u64, u64)) {
    }

    fn to_parts(&self) -> (p: (u64, u64)) {
        (self.reply_count, self.reaction_count)
    }

    fn of_parts(p: (u64, u64)) -> (res: Option<Self>) {
        Some(SocialPostRecord { reply_count: p.0, reaction_count: p.1 })
    }
}

impl Default for SocialPostRecord {
    fn default() -> (res: SocialPostRecord)
        ensures
            res == (SocialPostRecord { reply_count: 0, reaction_count: 0 }),
    {
        SocialPostRecord { reply_count: 0, reaction_count: 0 }
    }
}

/// The sum of the votes on a post.
#[derive(Debug, Clone, Copy, PartialEq, Eq, Structural)]
pub struct SocialVoteSumRecord {
    pub last_vote_time: Timestamp,
    pub current_sum: i64,
}

/// The rank of a news post.
#[derive(Debug, Clone, Copy, PartialEq, Eq, Structural)]
pub struct SocialNewsRankRecord {
    pub creation_ts: Timestamp,
    pub score: i64,
}

/// The key of a post among those by reception.
#[derive(Debug, Clone, Copy, PartialEq, Eq, Structural)]
pub struct ReceiptKey {
    pub received_at: Timestamp,
    pub order: u64,
}

impl Record for ReceiptKey {
    type Parts = (Timestamp, u64);

    open spec fn parts(self) -> (Timestamp, u64) {
        (self.received_at, self.order)
    }

    open spec fn assembled(p: (Timestamp, u64)) -> Option<Self> {
        Some(ReceiptKey { received_at: p.0, order: p.1 })
    }

    proof fn lemma_parts(self) {
    }

    proof fn lemma_assembled(p: (Timestamp, u64)) {
    }

    fn to_parts(&self) -> (p: (Timestamp, u64)) {
        (self.received_at, self.order)
    }

    fn of_parts(p: (Timestamp, u64)) -> (res: Option<Self>) {
        Some(ReceiptKey { received_at: p.0, order: p.1 })
    }
}

/// How reliable an endpoint has been.
#[derive(Debug, Clone, Copy, PartialEq, Eq, Structural)]
pub struct IrohNodeStats {
    pub last_success: Option<Timestamp>,
    pub last_failure: Option<Timestamp>,
    pub success_count: u64,
    pub fail_count: u64,
}

impl Record for IrohNodeStats {
    type Parts = (Option<Timestamp>, (Option<Timestamp>, (u64, u64)));

    open spec fn parts(self) -> (Option<Timestamp>, (Option<Timestamp>, (u64, u64))) {
        (self.last_success, (self.last_failure, (self.success_count, self.fail_count)))
    }

    open spec fn assembled(p: (Option<Timestamp>, (Option<Timestamp>, (u64, u64)))) -> Option<Self> {
        Some(IrohNodeStats { last_success: p.0, last_failure: p.1.0, success_count: p.1.1.0, fail_count: p.1.1.1 })
    }

    proof fn lemma_parts(self) {
    }

    proof fn lemma_assembled(p: (Option<Timestamp>, (Option<Timestamp>, (u64, u64)))) {
    }

    fn to_parts(&self) -> (p: (Option<Timestamp>, (Option<Timestamp>, (u64, u64)))) {
        (self.last_success, (self.last_failure, (self.success_count, self.fail_count)))
    }

    fn of_parts(p: (Option<Timestamp>, (Option<Timestamp>, (u64, u64)))) -> (res: Option<Self>) {
        Some(IrohNodeStats { last_success: p.0, last_failure: p.1.0, success_count: p.1.1.0, fail_count: p.1.1.1 })
    }
}

impl IrohNodeStats {
    /// Nothing was tried yet.
    pub open spec fn fresh() -> IrohNodeStats {
        IrohNodeStats { last_success: None, last_failure: None, success_count: 0, fail_count: 0 }
    }
}

impl Default for IrohNodeStats {
    fn default() -> (res: IrohNodeStats)
        ensures
            res == IrohNodeStats::fresh(),
    {
        IrohNodeStats { last_success: None, last_failure: None, success_count: 0, fail_count: 0 }
    }
}

/// An announced endpoint of an identity.
#[derive(Debug, Clone, Copy, PartialEq, Eq, Structural)]
pub struct IrohNodeRecord {
    pub announcement_ts: Timestamp,
    pub stats: IrohNodeStats,
}

impl Record for IrohNodeRecord {
    type Parts = (Timestamp, IrohNodeStats);

    open spec fn parts(self) -> (Timestamp, IrohNodeStats) {
        (self.announcement_ts, self.stats)
    }

    open spec fn assembled(p: (Timestamp, IrohNodeStats)) -> Option<Self> {
        Some(IrohNodeRecord { announcement_ts: p.0, stats: p.1 })
    }

    proof fn lemma_parts(self) {
    }

    proof fn lemma_assembled(p: (Timestamp, IrohNodeStats)) {
    }

    fn to_parts(&self) -> (p: (Timestamp, IrohNodeStats)) {
        (self.announcement_ts, self.stats)
    }

    fn of_parts(p: (Timestamp, IrohNodeStats)) -> (res: Option<Self>) {
        Some(IrohNodeRecord { announcement_ts: p.0, stats: p.1 })
    }
}

/// The local account: who it is, and the secret of its network identity.
#[derive(Debug, Clone, Copy, PartialEq, Eq, Structural)]
pub struct IdSelfAccountRecord {
    pub rostra_id: RostraId,
    pub iroh_secret: Bytes32,
}

impl Record for IdSelfAccountRecord {
    type Parts = (RostraId, Bytes32);

    open spec fn parts(self) -> (RostraId, Bytes32) {
        (self.rostra_id, self.iroh_secret)
    }

    open spec fn assembled(p: (RostraId, Bytes32)) -> Option<Self> {
        Some(IdSelfAccountRecord { rostra_id: p.0, iroh_secret: p.1 })
    }

    proof fn lemma_parts(self) {
    }

    proof fn lemma_assembled(p: (RostraId, Bytes32)) {
    }

    fn to_parts(&self) -> (p: (RostraId, Bytes32)) {
        (self.rostra_id, self.iroh_secret)
    }

    fn of_parts(p: (RostraId, Bytes32)) -> (res: Option<Self>) {
        Some(IdSelfAccountRecord { rostra_id: p.0, iroh_secret: p.1 })
    }
}

/// The rows of every table.
#[verifier::ext_equal]
pub ghost struct DbState {
    pub content_rc: Map<ContentHash, u64>,
    pub content_retention_author: Map<(RostraId, RetentionKey), ShortEventId>,
    pub content_retention_global: Map<RetentionKey, ShortEventId>,
    pub content_retention_grace: Map<(u64, ShortEventId), ()>,
    pub content_retention_reverse: Map<ShortEventId, IndexEntry>,
    pub content_retention_state: Map<(), IndexRecord>,
    pub content_store: Map<ContentHash, Seq<u8>>,
    pub events: Map<ShortEventId, VerifiedEvent>,
    pub events_by_time: Map<(Timestamp, ShortEventId), ()>,
    pub events_content_missing: Map<(Timestamp, ShortEventId), ()>,
    pub events_content_state: Map<ShortEventId, EventContentState>,
    pub events_dm_pending: Map<ShortEventId, Option<Timestamp>>,
    pub events_heads: Map<(RostraId, ShortEventId), EventsHeadsTableRecord>,
    pub events_missing: Map<(RostraId, ShortEventId), EventsMissingRecord>,
    pub events_quota_pruned: Map<ShortEventId, QuotaPruneDecision>,
    pub events_received_at: Map<(Timestamp, u64), EventReceivedRecord>,
    pub events_retention_origins: Map<ShortEventId, RetentionOrigins>,
    pub events_self: Map<ShortEventId, ()>,
    pub events_singletons_new: Map<(RostraId, EventKind, EventAuxKey), Latest<EventSingletonRecord>>,
    pub ids_data_usage: Map<RostraId, IdsDataUsageRecord>,
    pub ids_follow_events: Map<(RostraId, RostraId, Timestamp, ShortEventId), ()>,
    pub ids_followees: Map<(RostraId, RostraId), FolloweesModel>,
    pub ids_followers: Map<(RostraId, RostraId), IdsFollowersRecord>,
    pub ids_full: Map<RostraId, ()>,
    pub ids_nodes: Map<(RostraId, IrohNodeId), IrohNodeRecord>,
    pub ids_personas: Map<(RostraId, PersonaId), Seq<char>>,
    pub ids_self: Map<(), IdSelfAccountRecord>,
    pub ids_unfollowed: Map<(RostraId, RostraId), IdsUnfollowedRecord>,
    pub reception_order_next: Map<(), u64>,
    pub shoutbox_posts_by_received_at: Map<(Timestamp, u64), ShortEventId>,
    pub social_post_materializations: Map<u64, ShortEventId>,
    pub social_posts: Map<ShortEventId, SocialPostRecord>,
    pub social_posts_by_received_at: Map<(Timestamp, u64), ShortEventId>,
    pub social_posts_by_time: Map<(Timestamp, ShortEventId), ()>,
    pub social_posts_reactions: Map<(ShortEventId, Timestamp, ShortEventId), SocialPostsReactionsRecord>,
    pub social_posts_received_at_keys: Map<ShortEventId, ReceiptKey>,
    pub social_posts_replaced_by: Map<(RostraId, ShortEventId, ShortEventId), ()>,
    pub social_posts_replaces: Map<(RostraId, ShortEventId, ShortEventId), ()>,
    pub social_posts_replies: Map<(ShortEventId, Timestamp, ShortEventId), SocialPostsRepliesRecord>,
    pub social_posts_self_mention: Map<ShortEventId, ()>,
    pub social_profiles: Map<RostraId, (Timestamp, ProfileModel)>,
}

/// Every table of a database, open in one write transaction.
pub struct Tables<'txn> {
    /// Number of events that hold a reference to a payload.
    pub content_rc: Table<'txn, ContentHash, u64>,
    /// Promoted candidates of each author, by key.
    pub content_retention_author: Table<'txn, (RostraId, RetentionKey), ShortEventId>,
    /// Promoted candidates, by key.
    pub content_retention_global: Table<'txn, RetentionKey, ShortEventId>,
    /// Candidates that wait, by the time they become eligible.
    pub content_retention_grace: Table<'txn, (u64, ShortEventId), ()>,
    /// What the candidate index holds of an event.
    pub content_retention_reverse: Table<'txn, ShortEventId, IndexEntry>,
    /// Generation and progress of the candidate index.
    pub content_retention_state: Table<'txn, (), IndexRecord>,
    /// Payloads by hash; equal payloads are stored once.
    pub content_store: Table<'txn, ContentHash, Vec<u8>>,
    /// Every accepted event.
    pub events: Table<'txn, ShortEventId, VerifiedEvent>,
    /// Events by author time.
    pub events_by_time: Table<'txn, (Timestamp, ShortEventId), ()>,
    /// Payloads to fetch, by the time of the next attempt.
    pub events_content_missing: Table<'txn, (Timestamp, ShortEventId), ()>,
    /// Payload state of events whose payload is not processed.
    pub events_content_state: Table<'txn, ShortEventId, EventContentState>,
    /// Direct messages that wait for decryption, with a time that their
    /// handling may note; none at first.
    pub events_dm_pending: Table<'txn, ShortEventId, Option<Timestamp>>,
    /// Events without a known child, by author.
    pub events_heads: Table<'txn, (RostraId, ShortEventId), EventsHeadsTableRecord>,
    /// Events that others refer to and that were not received, by author.
    pub events_missing: Table<'txn, (RostraId, ShortEventId), EventsMissingRecord>,
    /// Local quota decisions.
    pub events_quota_pruned: Table<'txn, ShortEventId, QuotaPruneDecision>,
    /// Events by time and order of reception.
    pub events_received_at: Table<'txn, (Timestamp, u64), EventReceivedRecord>,
    /// Local age and first materialization of events.
    pub events_retention_origins: Table<'txn, ShortEventId, RetentionOrigins>,
    /// Events of the local user.
    pub events_self: Table<'txn, ShortEventId, ()>,
    /// Winning singleton events by author, kind and auxiliary key.
    pub events_singletons_new: Table<'txn, (RostraId, EventKind, EventAuxKey), Latest<EventSingletonRecord>>,
    /// Storage used by each identity.
    pub ids_data_usage: Table<'txn, RostraId, IdsDataUsageRecord>,
    /// Follow events behind the last unfollow: follower, followee, time, event.
    pub ids_follow_events: Table<'txn, (RostraId, RostraId, Timestamp, ShortEventId), ()>,
    /// Active follows: follower, followee.
    pub ids_followees: Table<'txn, (RostraId, RostraId), IdsFolloweesRecord>,
    /// Active follows the other way round: followee, follower.
    pub ids_followers: Table<'txn, (RostraId, RostraId), IdsFollowersRecord>,
    /// Every identity seen.
    pub ids_full: Table<'txn, RostraId, ()>,
    /// Announced endpoints of each identity.
    pub ids_nodes: Table<'txn, (RostraId, IrohNodeId), IrohNodeRecord>,
    /// Personas that users defined.
    pub ids_personas: Table<'txn, (RostraId, PersonaId), IdsPersonaRecord>,
    /// The local account.
    pub ids_self: Table<'txn, (), IdSelfAccountRecord>,
    /// Last unfollow: unfollower, unfollowee.
    pub ids_unfollowed: Table<'txn, (RostraId, RostraId), IdsUnfollowedRecord>,
    /// Next unused reception order; none at the maximum.
    pub reception_order_next: Table<'txn, (), u64>,
    /// Shoutbox posts by effective reception.
    pub shoutbox_posts_by_received_at: Table<'txn, (Timestamp, u64), ShortEventId>,
    /// Materialized posts in commit order.
    pub social_post_materializations: Table<'txn, u64, ShortEventId>,
    /// Reply and reaction counts of posts.
    pub social_posts: Table<'txn, ShortEventId, SocialPostRecord>,
    /// Posts by effective reception.
    pub social_posts_by_received_at: Table<'txn, (Timestamp, u64), ShortEventId>,
    /// Posts by author time.
    pub social_posts_by_time: Table<'txn, (Timestamp, ShortEventId), ()>,
    /// Reactions: post, time, reaction.
    pub social_posts_reactions: Table<'txn, (ShortEventId, Timestamp, ShortEventId), SocialPostsReactionsRecord>,
    /// The key of a post among those by reception.
    pub social_posts_received_at_keys: Table<'txn, ShortEventId, ReceiptKey>,
    /// Edits: author, old post, new post.
    pub social_posts_replaced_by: Table<'txn, (RostraId, ShortEventId, ShortEventId), ()>,
    /// Edits the other way round: author, new post, old post.
    pub social_posts_replaces: Table<'txn, (RostraId, ShortEventId, ShortEventId), ()>,
    /// Replies: post, time, reply.
    pub social_posts_replies: Table<'txn, (ShortEventId, Timestamp, ShortEventId), SocialPostsRepliesRecord>,
    /// Posts of others that mention the local user.
    pub social_posts_self_mention: Table<'txn, ShortEventId, ()>,
    /// Profiles.
    pub social_profiles: Table<'txn, RostraId, Latest<IdSocialProfileRecord>>,
    /// The failure of the storage that the last operation passed over, of those
    /// that go on without what they could not read.
    pub passed_over: Option<DbError>,
}

impl<'txn> View for Tables<'txn> {
    type V = DbState;

    open spec fn view(&self) -> DbState {
        DbState {
            content_rc: self.content_rc@,
            content_retention_author: self.content_retention_author@,
            content_retention_global: self.content_retention_global@,
            content_retention_grace: self.content_retention_grace@,
            content_retention_reverse: self.content_retention_reverse@,
            content_retention_state: self.content_retention_state@,
            content_store: self.content_store@,
            events: self.events@,
            events_by_time: self.events_by_time@,
            events_content_missing: self.events_content_missing@,
            events_content_state: self.events_content_state@,
            events_dm_pending: self.events_dm_pending@,
            events_heads: self.events_heads@,
            events_missing: self.events_missing@,
            events_quota_pruned: self.events_quota_pruned@,
            events_received_at: self.events_received_at@,
            events_retention_origins: self.events_retention_origins@,
            events_self: self.events_self@,
            events_singletons_new: self.events_singletons_new@,
            ids_data_usage: self.ids_data_usage@,
            ids_follow_events: self.ids_follow_events@,
            ids_followees: self.ids_followees@,
            ids_followers: self.ids_followers@,
            ids_full: self.ids_full@,
            ids_nodes: self.ids_nodes@,
            ids_personas: self.ids_personas@,
            ids_self: self.ids_self@,
            ids_unfollowed: self.ids_unfollowed@,
            reception_order_next: self.reception_order_next@,
            shoutbox_posts_by_received_at: self.shoutbox_posts_by_received_at@,
            social_post_materializations: self.social_post_materializations@,
            social_posts: self.social_posts@,
            social_posts_by_received_at: self.social_posts_by_received_at@,
            social_posts_by_time: self.social_posts_by_time@,
            social_posts_reactions: self.social_posts_reactions@,
            social_posts_received_at_keys: self.social_posts_received_at_keys@,
            social_posts_replaced_by: self.social_posts_replaced_by@,
            social_posts_replaces: self.social_posts_replaces@,
            social_posts_replies: self.social_posts_replies@,
            social_posts_self_mention: self.social_posts_self_mention@,
            social_profiles: self.social_profiles@,
        }
    }
}

impl<'txn> Tables<'txn> {
    /// Every row of every table can be read.
    pub open spec fn intact(&self) -> bool {
        &&& self.content_rc.intact()
        &&& self.content_retention_author.intact()
        &&& self.content_retention_global.intact()
        &&& self.content_retention_grace.intact()
        &&& self.content_retention_reverse.intact()
        &&& self.content_retention_state.intact()
        &&& self.content_store.intact()
        &&& self.events.intact()
        &&& self.events_by_time.intact()
        &&& self.events_content_missing.intact()
        &&& self.events_content_state.intact()
        &&& self.events_dm_pending.intact()
        &&& self.events_heads.intact()
        &&& self.events_missing.intact()
        &&& self.events_quota_pruned.intact()
        &&& self.events_received_at.intact()
        &&& self.events_retention_origins.intact()
        &&& self.events_self.intact()
        &&& self.events_singletons_new.intact()
        &&& self.ids_data_usage.intact()
        &&& self.ids_follow_events.intact()
        &&& self.ids_followees.intact()
        &&& self.ids_followers.intact()
        &&& self.ids_full.intact()
        &&& self.ids_nodes.intact()
        &&& self.ids_personas.intact()
        &&& self.ids_self.intact()
        &&& self.ids_unfollowed.intact()
        &&& self.reception_order_next.intact()
        &&& self.shoutbox_posts_by_received_at.intact()
        &&& self.social_post_materializations.intact()
        &&& self.social_posts.intact()
        &&& self.social_posts_by_received_at.intact()
        &&& self.social_posts_by_time.intact()
        &&& self.social_posts_reactions.intact()
        &&& self.social_posts_received_at_keys.intact()
        &&& self.social_posts_replaced_by.intact()
        &&& self.social_posts_replaces.intact()
        &&& self.social_posts_replies.intact()
        &&& self.social_posts_self_mention.intact()
        &&& self.social_profiles.intact()
    }

    /// Each table is the one of its name in the database.
    pub open spec fn named(&self) -> bool {
        &&& self.content_rc.name() == "content_rc"@
        &&& self.content_retention_author.name() == "content_retention_author"@
        &&& self.content_retention_global.name() == "content_retention_global"@
        &&& self.content_retention_grace.name() == "content_retention_grace"@
        &&& self.content_retention_reverse.name() == "content_retention_reverse"@
        &&& self.content_retention_state.name() == "content_retention_state"@
        &&& self.content_store.name() == "content_store"@
        &&& self.events.name() == "events"@
        &&& self.events_by_time.name() == "events_by_time"@
        &&& self.events_content_missing.name() == "events_content_missing"@
        &&& self.events_content_state.name() == "events_content_state"@
        &&& self.events_dm_pending.name() == "events_dm_pending"@
        &&& self.events_heads.name() == "events_heads"@
        &&& self.events_missing.name() == "events_missing"@
        &&& self.events_quota_pruned.name() == "events_quota_pruned"@
        &&& self.events_received_at.name() == "events_received_at"@
        &&& self.events_retention_origins.name() == "events_retention_origins"@
        &&& self.events_self.name() == "events_self"@
        &&& self.events_singletons_new.name() == "events_singletons_new"@
        &&& self.ids_data_usage.name() == "ids_data_usage"@
        &&& self.ids_follow_events.name() == "ids_follow_events"@
        &&& self.ids_followees.name() == "ids_followees"@
        &&& self.ids_followers.name() == "ids_followers"@
        &&& self.ids_full.name() == "ids_full"@
        &&& self.ids_nodes.name() == "ids_nodes"@
        &&& self.ids_personas.name() == "ids_personas"@
        &&& self.ids_self.name() == "ids_self"@
        &&& self.ids_unfollowed.name() == "ids_unfollowed"@
        &&& self.reception_order_next.name() == "reception_order_next"@
        &&& self.shoutbox_posts_by_received_at.name() == "shoutbox_posts_by_received_at"@
        &&& self.social_post_materializations.name() == "social_post_materializations"@
        &&& self.social_posts.name() == "social_posts"@
        &&& self.social_posts_by_received_at.name() == "social_posts_by_received_at"@
        &&& self.social_posts_by_time.name() == "social_posts_by_time"@
        &&& self.social_posts_reactions.name() == "social_posts_reactions"@
        &&& self.social_posts_received_at_keys.name() == "social_posts_received_at_keys"@
        &&& self.social_posts_replaced_by.name() == "social_posts_replaced_by"@
        &&& self.social_posts_replaces.name() == "social_posts_replaces"@
        &&& self.social_posts_replies.name() == "social_posts_replies"@
        &&& self.social_posts_self_mention.name() == "social_posts_self_mention"@
        &&& self.social_profiles.name() == "social_profiles"@
    }

    /// Opens every table, creating those that are missing.
    pub fn open(tx: &'txn redb_bincode::WriteTransaction) -> (res: DbResult<Tables<'txn>>)
        ensures
            match res {
                Ok(tables) => tables.named() && tables.passed_over is None,
                Err(e) => e is Table,
            },
    {
        proof {
            reveal_strlit("content_rc");
            reveal_strlit("content_retention_author");
            reveal_strlit("content_retention_global");
            reveal_strlit("content_retention_grace");
            reveal_strlit("content_retention_reverse");
            reveal_strlit("content_retention_state");
            reveal_strlit("content_store");
            reveal_strlit("events");
            reveal_strlit("events_by_time");
            reveal_strlit("events_content_missing");
            reveal_strlit("events_content_state");
            reveal_strlit("events_dm_pending");
            reveal_strlit("events_heads");
            reveal_strlit("events_missing");
            reveal_strlit("events_quota_pruned");
            reveal_strlit("events_received_at");
            reveal_strlit("events_retention_origins");
            reveal_strlit("events_self");
            reveal_strlit("events_singletons_new");
            reveal_strlit("ids_data_usage");
            reveal_strlit("ids_follow_events");
            reveal_strlit("ids_followees");
            reveal_strlit("ids_followers");
            reveal_strlit("ids_full");
            reveal_strlit("ids_nodes");
            reveal_strlit("ids_personas");
            reveal_strlit("ids_self");
            reveal_strlit("ids_unfollowed");
            reveal_strlit("reception_order_next");
            reveal_strlit("shoutbox_posts_by_received_at");
            reveal_strlit("social_post_materializations");
            reveal_strlit("social_posts");
            reveal_strlit("social_posts_by_received_at");
            reveal_strlit("social_posts_by_time");
            reveal_strlit("social_posts_reactions");
            reveal_strlit("social_posts_received_at_keys");
            reveal_strlit("social_posts_replaced_by");
            reveal_strlit("social_posts_replaces");
            reveal_strlit("social_posts_replies");
            reveal_strlit("social_posts_self_mention");
            reveal_strlit("social_profiles");
        }
        Ok(
            Tables {
                content_rc: Table::open(tx, "content_rc")?,
                content_retention_author: Table::open(tx, "content_retention_author")?,
                content_retention_global: Table::open(tx, "content_retention_global")?,
                content_retention_grace: Table::open(tx, "content_retention_grace")?,
                content_retention_reverse: Table::open(tx, "content_retention_reverse")?,
                content_retention_state: Table::open(tx, "content_retention_state")?,
                content_store: Table::open(tx, "content_store")?,
                events: Table::open(tx, "events")?,
                events_by_time: Table::open(tx, "events_by_time")?,
                events_content_missing: Table::open(tx, "events_content_missing")?,
                events_content_state: Table::open(tx, "events_content_state")?,
                events_dm_pending: Table::open(tx, "events_dm_pending")?,
                events_heads: Table::open(tx, "events_heads")?,
                events_missing: Table::open(tx, "events_missing")?,
                events_quota_pruned: Table::open(tx, "events_quota_pruned")?,
                events_received_at: Table::open(tx, "events_received_at")?,
                events_retention_origins: Table::open(tx, "events_retention_origins")?,
                events_self: Table::open(tx, "events_self")?,
                events_singletons_new: Table::open(tx, "events_singletons_new")?,
                ids_data_usage: Table::open(tx, "ids_data_usage")?,
                ids_follow_events: Table::open(tx, "ids_follow_events")?,
                ids_followees: Table::open(tx, "ids_followees")?,
                ids_followers: Table::open(tx, "ids_followers")?,
                ids_full: Table::open(tx, "ids_full")?,
                ids_nodes: Table::open(tx, "ids_nodes")?,
                ids_personas: Table::open(tx, "ids_personas")?,
                ids_self: Table::open(tx, "ids_self")?,
                ids_unfollowed: Table::open(tx, "ids_unfollowed")?,
                reception_order_next: Table::open(tx, "reception_order_next")?,
                shoutbox_posts_by_received_at: Table::open(tx, "shoutbox_posts_by_received_at")?,
                social_post_materializations: Table::open(tx, "social_post_materializations")?,
                social_posts: Table::open(tx, "social_posts")?,
                social_posts_by_received_at: Table::open(tx, "social_posts_by_received_at")?,
                social_posts_by_time: Table::open(tx, "social_posts_by_time")?,
                social_posts_reactions: Table::open(tx, "social_posts_reactions")?,
                social_posts_received_at_keys: Table::open(tx, "social_posts_received_at_keys")?,
                social_posts_replaced_by: Table::open(tx, "social_posts_replaced_by")?,
                social_posts_replaces: Table::open(tx, "social_posts_replaces")?,
                social_posts_replies: Table::open(tx, "social_posts_replies")?,
                social_posts_self_mention: Table::open(tx, "social_posts_self_mention")?,
                social_profiles: Table::open(tx, "social_profiles")?,
                passed_over: None,
            },
        )
    }
}

}
