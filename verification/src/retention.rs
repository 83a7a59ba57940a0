//! What decides how long payloads of others are kept.

use vstd::prelude::*;

use crate::ids::{Bytes32, EventId, RostraId, ShortEventId, Timestamp};
use crate::words::Record;

verus! {

/// Local age and grace origins of an accepted event. They are set once and
/// not renewed by a later delivery.
#[derive(Debug, Clone, Copy, PartialEq, Eq, Structural)]
pub struct RetentionOrigins {
    /// Author time, but not behind the first local receipt.
    pub effective_timestamp: Timestamp,
    /// When the payload was first processed.
    pub materialized_at: Option<Timestamp>,
}

impl Record for RetentionOrigins {
    type Parts = (Timestamp, Option<Timestamp>);

    open spec fn parts(self) -> (Timestamp, Option<Timestamp>) {
        (self.effective_timestamp, self.materialized_at)
    }

    open spec fn assembled(p: (Timestamp, Option<Timestamp>)) -> Option<Self> {
        Some(RetentionOrigins { effective_timestamp: p.0, materialized_at: p.1 })
    }

    proof fn lemma_parts(self) {
    }

    proof fn lemma_assembled(p: (Timestamp, Option<Timestamp>)) {
    }

    fn to_parts(&self) -> (p: (Timestamp, Option<Timestamp>)) {
        (self.effective_timestamp, self.materialized_at)
    }

    fn of_parts(p: (Timestamp, Option<Timestamp>)) -> (res: Option<Self>) {
        Some(RetentionOrigins { effective_timestamp: p.0, materialized_at: p.1 })
    }
}

/// Why a payload was given up.
#[derive(Debug, Clone, Copy, PartialEq, Eq, Structural)]
pub enum QuotaPruneReason {
    /// The author's retained bytes exceeded the quota of an author.
    AuthorQuota,
    /// The retained bytes exceeded the quota of the database.
    GlobalQuota,
}

impl Record for QuotaPruneReason {
    type Parts = bool;

    open spec fn parts(self) -> bool {
        self is GlobalQuota
    }

    open spec fn assembled(p: bool) -> Option<Self> {
        if p {
            Some(QuotaPruneReason::GlobalQuota)
        } else {
            Some(QuotaPruneReason::AuthorQuota)
        }
    }

    proof fn lemma_parts(self) {
    }

    proof fn lemma_assembled(p: bool) {
    }

    fn to_parts(&self) -> (p: bool) {
        match *self {
            QuotaPruneReason::AuthorQuota => false,
            QuotaPruneReason::GlobalQuota => true,
        }
    }

    fn of_parts(p: bool) -> (res: Option<Self>) {
        if p {
            Some(QuotaPruneReason::GlobalQuota)
        } else {
            Some(QuotaPruneReason::AuthorQuota)
        }
    }
}

/// A local quota decision. A deletion by the author is stronger than it and
/// leaves it in place.
#[derive(Debug, Clone, Copy, PartialEq, Eq, Structural)]
pub struct QuotaPruneDecision {
    pub reason: QuotaPruneReason,
    pub pruned_at: Timestamp,
}

impl Record for QuotaPruneDecision {
    type Parts = (QuotaPruneReason, Timestamp);

    open spec fn parts(self) -> (QuotaPruneReason, Timestamp) {
        (self.reason, self.pruned_at)
    }

    open spec fn assembled(p: (QuotaPruneReason, Timestamp)) -> Option<Self> {
        Some(QuotaPruneDecision { reason: p.0, pruned_at: p.1 })
    }

    proof fn lemma_parts(self) {
    }

    proof fn lemma_assembled(p: (QuotaPruneReason, Timestamp)) {
    }

    fn to_parts(&self) -> (p: (QuotaPruneReason, Timestamp)) {
        (self.reason, self.pruned_at)
    }

    fn of_parts(p: (QuotaPruneReason, Timestamp)) -> (res: Option<Self>) {
        Some(QuotaPruneDecision { reason: p.0, pruned_at: p.1 })
    }
}

/// Parameters of the scores by which payloads are ranked, and the grace that a
/// payload has after it was first processed.
#[derive(Debug, Clone, Copy, PartialEq, Eq, Structural)]
pub struct RetentionPolicy {
    pub p0: u64,
    pub p1: u64,
    pub p2: u64,
    pub grace_seconds: u32,
}

impl Record for RetentionPolicy {
    type Parts = (u64, (u64, (u64, u32)));

    open spec fn parts(self) -> (u64, (u64, (u64, u32))) {
        (self.p0, (self.p1, (self.p2, self.grace_seconds)))
    }

    open spec fn assembled(p: (u64, (u64, (u64, u32)))) -> Option<Self> {
        Some(RetentionPolicy { p0: p.0, p1: p.1.0, p2: p.1.1.0, grace_seconds: p.1.1.1 })
    }

    proof fn lemma_parts(self) {
    }

    proof fn lemma_assembled(p: (u64, (u64, (u64, u32)))) {
    }

    fn to_parts(&self) -> (p: (u64, (u64, (u64, u32)))) {
        (self.p0, (self.p1, (self.p2, self.grace_seconds)))
    }

    fn of_parts(p: (u64, (u64, (u64, u32)))) -> (res: Option<Self>) {
        Some(RetentionPolicy { p0: p.0, p1: p.1.0, p2: p.1.1.0, grace_seconds: p.1.1.1 })
    }
}

impl RetentionPolicy {
    /// The first time at which the grace of a payload first processed at
    /// `first` is over.
    pub open spec fn deadline(self, first: Timestamp) -> int {
        first.secs + self.grace_seconds
    }

    /// Whether a payload first processed then, if it was, has had its grace.
    pub fn grace_elapsed(&self, first: Option<Timestamp>, now: Timestamp) -> (res: bool)
        ensures
            res == (first is Some && self.deadline(first->0) <= now.secs),
    {
        match first {
            Some(first) => match first.secs.checked_add(self.grace_seconds as u64) {
                Some(deadline) => deadline <= now.secs,
                None => false,
            },
            None => false,
        }
    }
}

/// A score with the full event identifier behind it, forty-eight bytes as
/// words; smaller keys are given up first.
#[derive(Debug, Clone, Copy, PartialEq, Eq, Structural)]
pub struct RetentionKey {
    pub score_hi: u64,
    pub score_lo: u64,
    pub event: EventId,
}

impl Record for RetentionKey {
    type Parts = (u64, (u64, EventId));

    open spec fn parts(self) -> (u64, (u64, EventId)) {
        (self.score_hi, (self.score_lo, self.event))
    }

    open spec fn assembled(p: (u64, (u64, EventId))) -> Option<Self> {
        Some(RetentionKey { score_hi: p.0, score_lo: p.1.0, event: p.1.1 })
    }

    proof fn lemma_parts(self) {
    }

    proof fn lemma_assembled(p: (u64, (u64, EventId))) {
    }

    fn to_parts(&self) -> (p: (u64, (u64, EventId))) {
        (self.score_hi, (self.score_lo, self.event))
    }

    fn of_parts(p: (u64, (u64, EventId))) -> (res: Option<Self>) {
        Some(RetentionKey { score_hi: p.0, score_lo: p.1.0, event: p.1.1 })
    }
}

impl RetentionKey {
    /// The least key.
    pub open spec fn spec_zero() -> RetentionKey {
        RetentionKey {
            score_hi: 0,
            score_lo: 0,
            event: EventId { bytes: Bytes32 { a: 0, b: 0, c: 0, d: 0 } },
        }
    }

    /// The greatest key.
    pub open spec fn spec_max() -> RetentionKey {
        RetentionKey {
            score_hi: u64::MAX,
            score_lo: u64::MAX,
            event: EventId {
                bytes: Bytes32 { a: u64::MAX, b: u64::MAX, c: u64::MAX, d: u64::MAX },
            },
        }
    }

    #[verifier::when_used_as_spec(spec_zero)]
    pub fn zero() -> (res: RetentionKey)
        ensures
            res == RetentionKey::spec_zero(),
    {
        RetentionKey {
            score_hi: 0,
            score_lo: 0,
            event: EventId { bytes: Bytes32 { a: 0, b: 0, c: 0, d: 0 } },
        }
    }

    #[verifier::when_used_as_spec(spec_max)]
    pub fn max() -> (res: RetentionKey)
        ensures
            res == RetentionKey::spec_max(),
    {
        RetentionKey {
            score_hi: u64::MAX,
            score_lo: u64::MAX,
            event: EventId {
                bytes: Bytes32 { a: u64::MAX, b: u64::MAX, c: u64::MAX, d: u64::MAX },
            },
        }
    }
}

/// Under which policy, and for whose storage, candidates are ranked.
#[derive(Debug, Clone, Copy, PartialEq, Eq, Structural)]
pub struct RetentionGeneration {
    pub policy: RetentionPolicy,
    /// The account that stores the payloads.
    pub holder: RostraId,
}

impl Record for RetentionGeneration {
    type Parts = (RetentionPolicy, RostraId);

    open spec fn parts(self) -> (RetentionPolicy, RostraId) {
        (self.policy, self.holder)
    }

    open spec fn assembled(p: (RetentionPolicy, RostraId)) -> Option<Self> {
        Some(RetentionGeneration { policy: p.0, holder: p.1 })
    }

    proof fn lemma_parts(self) {
    }

    proof fn lemma_assembled(p: (RetentionPolicy, RostraId)) {
    }

    fn to_parts(&self) -> (p: (RetentionPolicy, RostraId)) {
        (self.policy, self.holder)
    }

    fn of_parts(p: (RetentionPolicy, RostraId)) -> (res: Option<Self>) {
        Some(RetentionGeneration { policy: p.0, holder: p.1 })
    }
}

/// The bytes of a number, the most significant first.
pub open spec fn big_endian(x: u64) -> Seq<u8> {
    seq![
        (x / 0x100_0000_0000_0000) as u8,
        (x / 0x1_0000_0000_0000 % 256) as u8,
        (x / 0x100_0000_0000 % 256) as u8,
        (x / 0x1_0000_0000 % 256) as u8,
        (x / 0x100_0000 % 256) as u8,
        (x / 0x1_0000 % 256) as u8,
        (x / 0x100 % 256) as u8,
        (x % 256) as u8,
    ]
}

fn push_big_endian(x: u64, out: &mut Vec<u8>)
    ensures
        final(out)@ == old(out)@ + big_endian(x),
{
    out.push((x / 0x100_0000_0000_0000) as u8);
    out.push((x / 0x1_0000_0000_0000 % 256) as u8);
    out.push((x / 0x100_0000_0000 % 256) as u8);
    out.push((x / 0x1_0000_0000 % 256) as u8);
    out.push((x / 0x100_0000 % 256) as u8);
    out.push((x / 0x1_0000 % 256) as u8);
    out.push((x / 0x100 % 256) as u8);
    out.push((x % 256) as u8);
    assert(out@ =~= old(out)@ + big_endian(x));
}

impl RetentionPolicy {
    /// The policy in twenty-eight bytes: the parameters, and the grace behind
    /// them.
    pub open spec fn bytes(self) -> Seq<u8> {
        big_endian(self.p0) + big_endian(self.p1) + big_endian(self.p2) + big_endian(
            self.grace_seconds as u64,
        ).skip(4)
    }
}

impl RetentionGeneration {
    /// A generation of the given policy, for the account that stores.
    pub fn new(policy: RetentionPolicy, holder: RostraId) -> (res: RetentionGeneration)
        ensures
            res == (RetentionGeneration { policy, holder }),
    {
        RetentionGeneration { policy, holder }
    }

    /// The policy of this generation as bytes.
    pub fn policy_bytes(self) -> (res: Vec<u8>)
        ensures
            res@ == self.policy.bytes(),
            res@.len() == 28,
    {
        let grace: u64 = self.policy.grace_seconds as u64;
        let mut out: Vec<u8> = Vec::new();
        push_big_endian(self.policy.p0, &mut out);
        push_big_endian(self.policy.p1, &mut out);
        push_big_endian(self.policy.p2, &mut out);
        out.push((grace / 0x100_0000 % 256) as u8);
        out.push((grace / 0x1_0000 % 256) as u8);
        out.push((grace / 0x100 % 256) as u8);
        out.push((grace % 256) as u8);
        assert(out@ =~= self.policy.bytes());
        out
    }

    /// The account that stores.
    pub fn holder(self) -> (res: RostraId)
        ensures
            res == self.holder,
    {
        self.holder
    }
}

proof fn lemma_big_endian(x: u64, y: u64)
    requires
        big_endian(x) == big_endian(y),
    ensures
        x == y,
{
    let a = big_endian(x);
    let b = big_endian(y);
    assert(a[0] == b[0] && a[1] == b[1] && a[2] == b[2] && a[3] == b[3]);
    assert(a[4] == b[4] && a[5] == b[5] && a[6] == b[6] && a[7] == b[7]);
    assert(x == y) by (bit_vector)
        requires
            x / 0x100_0000_0000_0000 == y / 0x100_0000_0000_0000,
            x / 0x1_0000_0000_0000 % 256 == y / 0x1_0000_0000_0000 % 256,
            x / 0x100_0000_0000 % 256 == y / 0x100_0000_0000 % 256,
            x / 0x1_0000_0000 % 256 == y / 0x1_0000_0000 % 256,
            x / 0x100_0000 % 256 == y / 0x100_0000 % 256,
            x / 0x1_0000 % 256 == y / 0x1_0000 % 256,
            x / 0x100 % 256 == y / 0x100 % 256,
            x % 256 == y % 256,
    ;
}

/// Policies with the same bytes are the same, so that a generation is told
/// from every other by its bytes and its holder.
pub proof fn law_policy_bytes(p: RetentionPolicy, q: RetentionPolicy)
    requires
        p.bytes() == q.bytes(),
    ensures
        p == q,
{
    let a = p.bytes();
    let b = q.bytes();
    assert(big_endian(p.p0) =~= big_endian(q.p0)) by {
        assert(a.subrange(0, 8) =~= big_endian(p.p0));
        assert(b.subrange(0, 8) =~= big_endian(q.p0));
    }
    assert(big_endian(p.p1) =~= big_endian(q.p1)) by {
        assert(a.subrange(8, 16) =~= big_endian(p.p1));
        assert(b.subrange(8, 16) =~= big_endian(q.p1));
    }
    assert(big_endian(p.p2) =~= big_endian(q.p2)) by {
        assert(a.subrange(16, 24) =~= big_endian(p.p2));
        assert(b.subrange(16, 24) =~= big_endian(q.p2));
    }
    lemma_big_endian(p.p0, q.p0);
    lemma_big_endian(p.p1, q.p1);
    lemma_big_endian(p.p2, q.p2);
    let x = p.grace_seconds as u64;
    let y = q.grace_seconds as u64;
    assert(big_endian(x) =~= big_endian(y)) by {
        assert(a.subrange(24, 28) =~= big_endian(x).skip(4));
        assert(b.subrange(24, 28) =~= big_endian(y).skip(4));
        assert(forall|i: int|
            0 <= i < 4 ==> big_endian(x)[i + 4] == #[trigger] big_endian(x).skip(4)[i]);
        assert(forall|i: int|
            0 <= i < 4 ==> big_endian(y)[i + 4] == #[trigger] big_endian(y).skip(4)[i]);
        assert(big_endian(x)[4] == big_endian(x).skip(4)[0]);
        assert(big_endian(x)[5] == big_endian(x).skip(4)[1]);
        assert(big_endian(x)[6] == big_endian(x).skip(4)[2]);
        assert(big_endian(x)[7] == big_endian(x).skip(4)[3]);
    }
    lemma_big_endian(x, y);
}

/// How far the candidate index has been built. What belongs to an old
/// generation is removed before the first row of a new one is made.
#[derive(Debug, Clone, Copy, PartialEq, Eq, Structural)]
pub enum IndexStage {
    /// Rows of the old generation are being removed.
    Clearing,
    /// Events are being indexed; this one was the last.
    Events(Option<ShortEventId>),
    /// Every event was indexed.
    Ready,
}

impl Record for IndexStage {
    type Parts = (u8, Option<ShortEventId>);

    open spec fn parts(self) -> (u8, Option<ShortEventId>) {
        match self {
            IndexStage::Clearing => (0, None),
            IndexStage::Events(cursor) => (1, cursor),
            IndexStage::Ready => (2, None),
        }
    }

    open spec fn assembled(p: (u8, Option<ShortEventId>)) -> Option<Self> {
        if p.0 == 0 && p.1 is None {
            Some(IndexStage::Clearing)
        } else if p.0 == 1 {
            Some(IndexStage::Events(p.1))
        } else if p.0 == 2 && p.1 is None {
            Some(IndexStage::Ready)
        } else {
            None
        }
    }

    proof fn lemma_parts(self) {
    }

    proof fn lemma_assembled(p: (u8, Option<ShortEventId>)) {
    }

    fn to_parts(&self) -> (p: (u8, Option<ShortEventId>)) {
        match *self {
            IndexStage::Clearing => (0, None),
            IndexStage::Events(cursor) => (1, cursor),
            IndexStage::Ready => (2, None),
        }
    }

    fn of_parts(p: (u8, Option<ShortEventId>)) -> (res: Option<Self>) {
        if p.0 == 0 && p.1.is_none() {
            Some(IndexStage::Clearing)
        } else if p.0 == 1 {
            Some(IndexStage::Events(p.1))
        } else if p.0 == 2 && p.1.is_none() {
            Some(IndexStage::Ready)
        } else {
            None
        }
    }
}

/// Generation and progress of the candidate index.
#[derive(Debug, Clone, Copy, PartialEq, Eq, Structural)]
pub struct IndexRecord {
    pub generation: RetentionGeneration,
    pub stage: IndexStage,
}

impl Record for IndexRecord {
    type Parts = (RetentionGeneration, IndexStage);

    open spec fn parts(self) -> (RetentionGeneration, IndexStage) {
        (self.generation, self.stage)
    }

    open spec fn assembled(p: (RetentionGeneration, IndexStage)) -> Option<Self> {
        Some(IndexRecord { generation: p.0, stage: p.1 })
    }

    proof fn lemma_parts(self) {
    }

    proof fn lemma_assembled(p: (RetentionGeneration, IndexStage)) {
    }

    fn to_parts(&self) -> (p: (RetentionGeneration, IndexStage)) {
        (self.generation, self.stage)
    }

    fn of_parts(p: (RetentionGeneration, IndexStage)) -> (res: Option<Self>) {
        Some(IndexRecord { generation: p.0, stage: p.1 })
    }
}

/// What the candidate index holds of an event: a grace row, or once promoted
/// a row under its key and one under author and key.
#[derive(Debug, Clone, Copy, PartialEq, Eq, Structural)]
pub struct IndexEntry {
    pub author: RostraId,
    pub key: RetentionKey,
    /// The first time at which the payload may be given up.
    pub eligible_at: u64,
    pub promoted: bool,
}

impl Record for IndexEntry {
    type Parts = (RostraId, (RetentionKey, (u64, bool)));

    open spec fn parts(self) -> (RostraId, (RetentionKey, (u64, bool))) {
        (self.author, (self.key, (self.eligible_at, self.promoted)))
    }

    open spec fn assembled(p: (RostraId, (RetentionKey, (u64, bool)))) -> Option<Self> {
        Some(IndexEntry { author: p.0, key: p.1.0, eligible_at: p.1.1.0, promoted: p.1.1.1 })
    }

    proof fn lemma_parts(self) {
    }

    proof fn lemma_assembled(p: (RostraId, (RetentionKey, (u64, bool)))) {
    }

    fn to_parts(&self) -> (p: (RostraId, (RetentionKey, (u64, bool)))) {
        (self.author, (self.key, (self.eligible_at, self.promoted)))
    }

    fn of_parts(p: (RostraId, (RetentionKey, (u64, bool)))) -> (res: Option<Self>) {
        Some(IndexEntry { author: p.0, key: p.1.0, eligible_at: p.1.1.0, promoted: p.1.1.1 })
    }
}

}
