//! Signed events and the lifecycle of their payloads.

use vstd::prelude::*;

use crate::ids::{
    Bytes32, ContentHash, EventAuxKey, EventId, EventOrder, ExternalEventId, IrohNodeId, RostraId,
    ShortEventId, Timestamp,
};
use crate::words::{Blank, Record};

verus! {

/// What an event is about.
#[derive(Debug, Clone, Copy, PartialEq, Eq, Structural)]
pub enum EventKind {
    DirectMessage,
    DmDevice,
    Follow,
    Unfollow,
    NodeAnnouncement,
    Shoutbox,
    SocialPost,
    SocialProfileUpdate,
    SocialVote,
    /// Any other kind, by number.
    Other(u16),
}

impl Record for EventKind {
    type Parts = (u8, u16);

    open spec fn parts(self) -> (u8, u16) {
        match self {
            EventKind::DirectMessage => (0, 0),
            EventKind::DmDevice => (1, 0),
            EventKind::Follow => (2, 0),
            EventKind::Unfollow => (3, 0),
            EventKind::NodeAnnouncement => (4, 0),
            EventKind::Shoutbox => (5, 0),
            EventKind::SocialPost => (6, 0),
            EventKind::SocialProfileUpdate => (7, 0),
            EventKind::SocialVote => (8, 0),
            EventKind::Other(n) => (9, n),
        }
    }

    open spec fn assembled(p: (u8, u16)) -> Option<Self> {
        if p.0 == 9 {
            Some(EventKind::Other(p.1))
        } else if p.1 != 0 {
            None
        } else if p.0 == 0 {
            Some(EventKind::DirectMessage)
        } else if p.0 == 1 {
            Some(EventKind::DmDevice)
        } else if p.0 == 2 {
            Some(EventKind::Follow)
        } else if p.0 == 3 {
            Some(EventKind::Unfollow)
        } else if p.0 == 4 {
            Some(EventKind::NodeAnnouncement)
        } else if p.0 == 5 {
            Some(EventKind::Shoutbox)
        } else if p.0 == 6 {
            Some(EventKind::SocialPost)
        } else if p.0 == 7 {
            Some(EventKind::SocialProfileUpdate)
        } else if p.0 == 8 {
            Some(EventKind::SocialVote)
        } else {
            None
        }
    }

    proof fn lemma_parts(self) {
    }

    proof fn lemma_assembled(p: (u8, u16)) {
    }

    fn to_parts(&self) -> (p: (u8, u16)) {
        match *self {
            EventKind::DirectMessage => (0, 0),
            EventKind::DmDevice => (1, 0),
            EventKind::Follow => (2, 0),
            EventKind::Unfollow => (3, 0),
            EventKind::NodeAnnouncement => (4, 0),
            EventKind::Shoutbox => (5, 0),
            EventKind::SocialPost => (6, 0),
            EventKind::SocialProfileUpdate => (7, 0),
            EventKind::SocialVote => (8, 0),
            EventKind::Other(n) => (9, n),
        }
    }

    fn of_parts(p: (u8, u16)) -> (res: Option<Self>) {
        if p.0 == 9 {
            Some(EventKind::Other(p.1))
        } else if p.1 != 0 {
            None
        } else if p.0 == 0 {
            Some(EventKind::DirectMessage)
        } else if p.0 == 1 {
            Some(EventKind::DmDevice)
        } else if p.0 == 2 {
            Some(EventKind::Follow)
        } else if p.0 == 3 {
            Some(EventKind::Unfollow)
        } else if p.0 == 4 {
            Some(EventKind::NodeAnnouncement)
        } else if p.0 == 5 {
            Some(EventKind::Shoutbox)
        } else if p.0 == 6 {
            Some(EventKind::SocialPost)
        } else if p.0 == 7 {
            Some(EventKind::SocialProfileUpdate)
        } else if p.0 == 8 {
            Some(EventKind::SocialVote)
        } else {
            None
        }
    }
}

/// What an author signs.
#[derive(Debug, Clone, Copy, PartialEq, Eq, Structural)]
pub struct Event {
    pub author: RostraId,
    pub kind: EventKind,
    /// Tells singleton events of one author and kind apart.
    pub aux_key: EventAuxKey,
    /// Only the latest event of its author, kind and auxiliary key matters.
    pub singleton: bool,
    /// The event asks for the payload of its auxiliary parent to be deleted.
    pub deletes_parent_aux: bool,
    pub parent_prev: Option<ShortEventId>,
    pub parent_aux: Option<ShortEventId>,
    pub timestamp: Timestamp,
    pub content_len: u32,
    pub content_hash: ContentHash,
}

impl Record for Event {
    type Parts = (RostraId, (EventKind, (EventAuxKey, (bool, (bool, (Option<ShortEventId>, (Option<ShortEventId>, (Timestamp, (u32, ContentHash)))))))));

    open spec fn parts(self) -> (RostraId, (EventKind, (EventAuxKey, (bool, (bool, (Option<ShortEventId>, (Option<ShortEventId>, (Timestamp, (u32, ContentHash))))))))) {
        (self.author, (self.kind, (self.aux_key, (self.singleton, (self.deletes_parent_aux, (self.parent_prev, (self.parent_aux, (self.timestamp, (self.content_len, self.content_hash)))))))))
    }

    open spec fn assembled(p: (RostraId, (EventKind, (EventAuxKey, (bool, (bool, (Option<ShortEventId>, (Option<ShortEventId>, (Timestamp, (u32, ContentHash)))))))))) -> Option<Self> {
        Some(Event { author: p.0, kind: p.1.0, aux_key: p.1.1.0, singleton: p.1.1.1.0, deletes_parent_aux: p.1.1.1.1.0, parent_prev: p.1.1.1.1.1.0, parent_aux: p.1.1.1.1.1.1.0, timestamp: p.1.1.1.1.1.1.1.0, content_len: p.1.1.1.1.1.1.1.1.0, content_hash: p.1.1.1.1.1.1.1.1.1 })
    }

    proof fn lemma_parts(self) {
    }

    proof fn lemma_assembled(p: (RostraId, (EventKind, (EventAuxKey, (bool, (bool, (Option<ShortEventId>, (Option<ShortEventId>, (Timestamp, (u32, ContentHash)))))))))) {
    }

    fn to_parts(&self) -> (p: (RostraId, (EventKind, (EventAuxKey, (bool, (bool, (Option<ShortEventId>, (Option<ShortEventId>, (Timestamp, (u32, ContentHash)))))))))) {
        (self.author, (self.kind, (self.aux_key, (self.singleton, (self.deletes_parent_aux, (self.parent_prev, (self.parent_aux, (self.timestamp, (self.content_len, self.content_hash)))))))))
    }

    fn of_parts(p: (RostraId, (EventKind, (EventAuxKey, (bool, (bool, (Option<ShortEventId>, (Option<ShortEventId>, (Timestamp, (u32, ContentHash)))))))))) -> (res: Option<Self>) {
        Some(Event { author: p.0, kind: p.1.0, aux_key: p.1.1.0, singleton: p.1.1.1.0, deletes_parent_aux: p.1.1.1.1.0, parent_prev: p.1.1.1.1.1.0, parent_aux: p.1.1.1.1.1.1.0, timestamp: p.1.1.1.1.1.1.1.0, content_len: p.1.1.1.1.1.1.1.1.0, content_hash: p.1.1.1.1.1.1.1.1.1 })
    }
}

/// An Ed25519 signature.
#[derive(Debug, Clone, Copy, PartialEq, Eq, Structural)]
pub struct Signature {
    pub r: Bytes32,
    pub s: Bytes32,
}

impl Record for Signature {
    type Parts = (Bytes32, Bytes32);

    open spec fn parts(self) -> (Bytes32, Bytes32) {
        (self.r, self.s)
    }

    open spec fn assembled(p: (Bytes32, Bytes32)) -> Option<Self> {
        Some(Signature { r: p.0, s: p.1 })
    }

    proof fn lemma_parts(self) {
    }

    proof fn lemma_assembled(p: (Bytes32, Bytes32)) {
    }

    fn to_parts(&self) -> (p: (Bytes32, Bytes32)) {
        (self.r, self.s)
    }

    fn of_parts(p: (Bytes32, Bytes32)) -> (res: Option<Self>) {
        Some(Signature { r: p.0, s: p.1 })
    }
}

/// An event whose signature and identifier were checked. Rows of the event
/// table hold it whole.
#[derive(Debug, Clone, Copy, PartialEq, Eq, Structural)]
pub struct VerifiedEvent {
    pub event_id: EventId,
    pub event: Event,
    pub signature: Signature,
}

impl Record for VerifiedEvent {
    type Parts = (EventId, (Event, Signature));

    open spec fn parts(self) -> (EventId, (Event, Signature)) {
        (self.event_id, (self.event, self.signature))
    }

    open spec fn assembled(p: (EventId, (Event, Signature))) -> Option<Self> {
        Some(VerifiedEvent { event_id: p.0, event: p.1.0, signature: p.1.1 })
    }

    proof fn lemma_parts(self) {
    }

    proof fn lemma_assembled(p: (EventId, (Event, Signature))) {
    }

    fn to_parts(&self) -> (p: (EventId, (Event, Signature))) {
        (self.event_id, (self.event, self.signature))
    }

    fn of_parts(p: (EventId, (Event, Signature))) -> (res: Option<Self>) {
        Some(VerifiedEvent { event_id: p.0, event: p.1.0, signature: p.1.1 })
    }
}

impl VerifiedEvent {
    /// The identifier under which the event is stored.
    pub open spec fn id(self) -> ShortEventId {
        self.event_id.spec_to_short()
    }

    /// Where the event stands among others.
    pub open spec fn order(self) -> EventOrder {
        EventOrder { timestamp: self.event.timestamp, event_id: self.id() }
    }

    pub fn short_id(&self) -> (res: ShortEventId)
        ensures
            res == self.id(),
    {
        self.event_id.to_short()
    }

    pub fn event_order(&self) -> (res: EventOrder)
        ensures
            res == self.order(),
    {
        EventOrder { timestamp: self.event.timestamp, event_id: self.event_id.to_short() }
    }
}

/// Processing state of an event's payload. An event without one has had its
/// payload processed.
#[derive(Debug, Clone, Copy, PartialEq, Eq, Structural)]
pub enum EventContentState {
    /// The payload was not received or not processed yet.
    Missing {
        last_fetch_attempt: Option<Timestamp>,
        fetch_attempt_count: u64,
        /// The time under which the fetch queue holds the event.
        next_fetch_attempt: Timestamp,
    },
    /// The author deleted the payload by the event named.
    Deleted { deleted_by: ShortEventId },
    /// The payload was given up locally.
    Pruned,
    /// The payload does not parse.
    Invalid,
}

impl Record for EventContentState {
    type Parts = (u8, (Option<Timestamp>, (u64, (Timestamp, ShortEventId))));

    open spec fn parts(self) -> (u8, (Option<Timestamp>, (u64, (Timestamp, ShortEventId)))) {
        match self {
            EventContentState::Missing {
                last_fetch_attempt,
                fetch_attempt_count,
                next_fetch_attempt,
            } => (
                0,
                (
                    last_fetch_attempt,
                    (fetch_attempt_count, (next_fetch_attempt, ShortEventId { hi: 0, lo: 0 })),
                ),
            ),
            EventContentState::Deleted { deleted_by } => (
                1,
                (None, (0, (Timestamp { secs: 0 }, deleted_by))),
            ),
            EventContentState::Pruned => (
                2,
                (None, (0, (Timestamp { secs: 0 }, ShortEventId { hi: 0, lo: 0 }))),
            ),
            EventContentState::Invalid => (
                3,
                (None, (0, (Timestamp { secs: 0 }, ShortEventId { hi: 0, lo: 0 }))),
            ),
        }
    }

    open spec fn assembled(
        p: (u8, (Option<Timestamp>, (u64, (Timestamp, ShortEventId)))),
    ) -> Option<Self> {
        let no_fetch = p.1.0 is None && p.1.1.0 == 0 && p.1.1.1.0 == (Timestamp { secs: 0 });
        let no_id = p.1.1.1.1 == (ShortEventId { hi: 0, lo: 0 });
        if p.0 == 0 && no_id {
            Some(
                EventContentState::Missing {
                    last_fetch_attempt: p.1.0,
                    fetch_attempt_count: p.1.1.0,
                    next_fetch_attempt: p.1.1.1.0,
                },
            )
        } else if p.0 == 1 && no_fetch {
            Some(EventContentState::Deleted { deleted_by: p.1.1.1.1 })
        } else if p.0 == 2 && no_fetch && no_id {
            Some(EventContentState::Pruned)
        } else if p.0 == 3 && no_fetch && no_id {
            Some(EventContentState::Invalid)
        } else {
            None
        }
    }

    proof fn lemma_parts(self) {
    }

    proof fn lemma_assembled(p: (u8, (Option<Timestamp>, (u64, (Timestamp, ShortEventId))))) {
    }

    fn to_parts(&self) -> (p: (u8, (Option<Timestamp>, (u64, (Timestamp, ShortEventId))))) {
        let zero = Timestamp { secs: 0 };
        let none = ShortEventId { hi: 0, lo: 0 };
        match *self {
            EventContentState::Missing {
                last_fetch_attempt,
                fetch_attempt_count,
                next_fetch_attempt,
            } => (0, (last_fetch_attempt, (fetch_attempt_count, (next_fetch_attempt, none)))),
            EventContentState::Deleted { deleted_by } => (1, (None, (0, (zero, deleted_by)))),
            EventContentState::Pruned => (2, (None, (0, (zero, none)))),
            EventContentState::Invalid => (3, (None, (0, (zero, none)))),
        }
    }

    fn of_parts(p: (u8, (Option<Timestamp>, (u64, (Timestamp, ShortEventId))))) -> (res: Option<
        Self,
    >) {
        let no_fetch = p.1.0.is_none() && p.1.1.0 == 0 && p.1.1.1.0 == (Timestamp { secs: 0 });
        let no_id = p.1.1.1.1 == (ShortEventId { hi: 0, lo: 0 });
        if p.0 == 0 && no_id {
            Some(
                EventContentState::Missing {
                    last_fetch_attempt: p.1.0,
                    fetch_attempt_count: p.1.1.0,
                    next_fetch_attempt: p.1.1.1.0,
                },
            )
        } else if p.0 == 1 && no_fetch {
            Some(EventContentState::Deleted { deleted_by: p.1.1.1.1 })
        } else if p.0 == 2 && no_fetch && no_id {
            Some(EventContentState::Pruned)
        } else if p.0 == 3 && no_fetch && no_id {
            Some(EventContentState::Invalid)
        } else {
            None
        }
    }
}

/// An event that others refer to and that was not received yet.
#[derive(Debug, Clone, Copy, PartialEq, Eq, Structural)]
pub struct EventsMissingRecord {
    /// The greatest of the received events that ask for its payload to be
    /// deleted.
    pub deleted_by: Option<ShortEventId>,
}

impl Record for EventsMissingRecord {
    type Parts = Option<ShortEventId>;

    open spec fn parts(self) -> Option<ShortEventId> {
        self.deleted_by
    }

    open spec fn assembled(p: Option<ShortEventId>) -> Option<Self> {
        Some(EventsMissingRecord { deleted_by: p })
    }

    proof fn lemma_parts(self) {
    }

    proof fn lemma_assembled(p: Option<ShortEventId>) {
    }

    fn to_parts(&self) -> (p: Option<ShortEventId>) {
        self.deleted_by
    }

    fn of_parts(p: Option<ShortEventId>) -> (res: Option<Self>) {
        Some(EventsMissingRecord { deleted_by: p })
    }
}

/// How an event was acquired.
#[derive(Debug, Clone, Copy, PartialEq, Eq, Structural)]
pub enum EventReceivedSource {
    /// A peer sent it on its own.
    Pushed { from_id: Option<RostraId>, from_node: Option<IrohNodeId> },
    /// It was asked for.
    Pulled { from_id: Option<RostraId>, from_node: Option<IrohNodeId> },
    /// The local user made it.
    Local,
}

impl Record for EventReceivedSource {
    type Parts = (u8, (Option<RostraId>, Option<IrohNodeId>));

    open spec fn parts(self) -> (u8, (Option<RostraId>, Option<IrohNodeId>)) {
        match self {
            EventReceivedSource::Pushed { from_id, from_node } => (0, (from_id, from_node)),
            EventReceivedSource::Pulled { from_id, from_node } => (1, (from_id, from_node)),
            EventReceivedSource::Local => (2, (None, None)),
        }
    }

    open spec fn assembled(p: (u8, (Option<RostraId>, Option<IrohNodeId>))) -> Option<Self> {
        if p.0 == 0 {
            Some(EventReceivedSource::Pushed { from_id: p.1.0, from_node: p.1.1 })
        } else if p.0 == 1 {
            Some(EventReceivedSource::Pulled { from_id: p.1.0, from_node: p.1.1 })
        } else if p.0 == 2 && p.1.0 is None && p.1.1 is None {
            Some(EventReceivedSource::Local)
        } else {
            None
        }
    }

    proof fn lemma_parts(self) {
    }

    proof fn lemma_assembled(p: (u8, (Option<RostraId>, Option<IrohNodeId>))) {
    }

    fn to_parts(&self) -> (p: (u8, (Option<RostraId>, Option<IrohNodeId>))) {
        match *self {
            EventReceivedSource::Pushed { from_id, from_node } => (0, (from_id, from_node)),
            EventReceivedSource::Pulled { from_id, from_node } => (1, (from_id, from_node)),
            EventReceivedSource::Local => (2, (None, None)),
        }
    }

    fn of_parts(p: (u8, (Option<RostraId>, Option<IrohNodeId>))) -> (res: Option<Self>) {
        if p.0 == 0 {
            Some(EventReceivedSource::Pushed { from_id: p.1.0, from_node: p.1.1 })
        } else if p.0 == 1 {
            Some(EventReceivedSource::Pulled { from_id: p.1.0, from_node: p.1.1 })
        } else if p.0 == 2 && p.1.0.is_none() && p.1.1.is_none() {
            Some(EventReceivedSource::Local)
        } else {
            None
        }
    }
}

/// When an event came is the row's key; this is which one it was, and how.
#[derive(Debug, Clone, Copy, PartialEq, Eq, Structural)]
pub struct EventReceivedRecord {
    pub event_id: ShortEventId,
    pub source: EventReceivedSource,
}

impl Record for EventReceivedRecord {
    type Parts = (ShortEventId, EventReceivedSource);

    open spec fn parts(self) -> (ShortEventId, EventReceivedSource) {
        (self.event_id, self.source)
    }

    open spec fn assembled(p: (ShortEventId, EventReceivedSource)) -> Option<Self> {
        Some(EventReceivedRecord { event_id: p.0, source: p.1 })
    }

    proof fn lemma_parts(self) {
    }

    proof fn lemma_assembled(p: (ShortEventId, EventReceivedSource)) {
    }

    fn to_parts(&self) -> (p: (ShortEventId, EventReceivedSource)) {
        (self.event_id, self.source)
    }

    fn of_parts(p: (ShortEventId, EventReceivedSource)) -> (res: Option<Self>) {
        Some(EventReceivedRecord { event_id: p.0, source: p.1 })
    }
}

/// The value of a vote.
#[derive(Debug, Clone, Copy, PartialEq, Eq, Structural)]
pub enum SocialVoteValue {
    Up,
    Down,
    /// An earlier vote is taken back.
    Withdrawn,
}

impl Record for SocialVoteValue {
    type Parts = u8;

    open spec fn parts(self) -> u8 {
        match self {
            SocialVoteValue::Up => 0,
            SocialVoteValue::Down => 1,
            SocialVoteValue::Withdrawn => 2,
        }
    }

    open spec fn assembled(p: u8) -> Option<Self> {
        if p == 0 {
            Some(SocialVoteValue::Up)
        } else if p == 1 {
            Some(SocialVoteValue::Down)
        } else if p == 2 {
            Some(SocialVoteValue::Withdrawn)
        } else {
            None
        }
    }

    proof fn lemma_parts(self) {
    }

    proof fn lemma_assembled(p: u8) {
    }

    fn to_parts(&self) -> (p: u8) {
        match *self {
            SocialVoteValue::Up => 0,
            SocialVoteValue::Down => 1,
            SocialVoteValue::Withdrawn => 2,
        }
    }

    fn of_parts(p: u8) -> (res: Option<Self>) {
        if p == 0 {
            Some(SocialVoteValue::Up)
        } else if p == 1 {
            Some(SocialVoteValue::Down)
        } else if p == 2 {
            Some(SocialVoteValue::Withdrawn)
        } else {
            None
        }
    }
}

/// A vote that counts: on what, and how.
#[derive(Debug, Clone, Copy, PartialEq, Eq, Structural)]
pub struct SocialVoteProjection {
    pub target: ExternalEventId,
    pub value: SocialVoteValue,
}

impl Record for SocialVoteProjection {
    type Parts = (ExternalEventId, SocialVoteValue);

    open spec fn parts(self) -> (ExternalEventId, SocialVoteValue) {
        (self.target, self.value)
    }

    open spec fn assembled(p: (ExternalEventId, SocialVoteValue)) -> Option<Self> {
        Some(SocialVoteProjection { target: p.0, value: p.1 })
    }

    proof fn lemma_parts(self) {
    }

    proof fn lemma_assembled(p: (ExternalEventId, SocialVoteValue)) {
    }

    fn to_parts(&self) -> (p: (ExternalEventId, SocialVoteValue)) {
        (self.target, self.value)
    }

    fn of_parts(p: (ExternalEventId, SocialVoteValue)) -> (res: Option<Self>) {
        Some(SocialVoteProjection { target: p.0, value: p.1 })
    }
}

impl Blank for SocialVoteProjection {
    open spec fn blank() -> Self {
        SocialVoteProjection {
            target: ExternalEventId {
                rostra_id: RostraId { bytes: Bytes32 { a: 0, b: 0, c: 0, d: 0 } },
                event_id: ShortEventId { hi: 0, lo: 0 },
            },
            value: SocialVoteValue::Up,
        }
    }

    fn make_blank() -> (x: Self) {
        SocialVoteProjection {
            target: ExternalEventId {
                rostra_id: RostraId { bytes: Bytes32 { a: 0, b: 0, c: 0, d: 0 } },
                event_id: ShortEventId { hi: 0, lo: 0 },
            },
            value: SocialVoteValue::Up,
        }
    }

    fn is_blank(&self) -> (res: bool) {
        self.target.rostra_id.bytes.a == 0 && self.target.rostra_id.bytes.b == 0
            && self.target.rostra_id.bytes.c == 0 && self.target.rostra_id.bytes.d == 0
            && self.target.event_id.hi == 0 && self.target.event_id.lo == 0
            && match self.value {
            SocialVoteValue::Up => true,
            _ => false,
        }
    }
}

/// The winning event among the singleton events of one key.
#[derive(Debug, Clone, Copy, PartialEq, Eq, Structural)]
pub struct EventSingletonRecord {
    pub event_id: ShortEventId,
    /// The vote that the event casts, where it is one.
    pub social_vote: Option<SocialVoteProjection>,
}

impl Record for EventSingletonRecord {
    type Parts = (ShortEventId, Option<SocialVoteProjection>);

    open spec fn parts(self) -> (ShortEventId, Option<SocialVoteProjection>) {
        (self.event_id, self.social_vote)
    }

    open spec fn assembled(p: (ShortEventId, Option<SocialVoteProjection>)) -> Option<Self> {
        Some(EventSingletonRecord { event_id: p.0, social_vote: p.1 })
    }

    proof fn lemma_parts(self) {
    }

    proof fn lemma_assembled(p: (ShortEventId, Option<SocialVoteProjection>)) {
    }

    fn to_parts(&self) -> (p: (ShortEventId, Option<SocialVoteProjection>)) {
        (self.event_id, self.social_vote)
    }

    fn of_parts(p: (ShortEventId, Option<SocialVoteProjection>)) -> (res: Option<Self>) {
        Some(EventSingletonRecord { event_id: p.0, social_vote: p.1 })
    }
}

}
