//! Identifiers and times.

use vstd::prelude::*;

use crate::listing::{key_le, key_lt, lemma_pair_lt, lemma_u64_lt};
use crate::words::{Blank, Record};

verus! {

/// Thirty-two bytes as four big-endian words.
#[derive(Debug, Clone, Copy, PartialEq, Eq, Structural, Hash)]
pub struct Bytes32 {
    pub a: u64,
    pub b: u64,
    pub c: u64,
    pub d: u64,
}

impl Record for Bytes32 {
    type Parts = (u64, (u64, (u64, u64)));

    open spec fn parts(self) -> (u64, (u64, (u64, u64))) {
        (self.a, (self.b, (self.c, self.d)))
    }

    open spec fn assembled(p: (u64, (u64, (u64, u64)))) -> Option<Self> {
        Some(Bytes32 { a: p.0, b: p.1.0, c: p.1.1.0, d: p.1.1.1 })
    }

    proof fn lemma_parts(self) {
    }

    proof fn lemma_assembled(p: (u64, (u64, (u64, u64)))) {
    }

    fn to_parts(&self) -> (p: (u64, (u64, (u64, u64)))) {
        (self.a, (self.b, (self.c, self.d)))
    }

    fn of_parts(p: (u64, (u64, (u64, u64)))) -> (res: Option<Self>) {
        Some(Bytes32 { a: p.0, b: p.1.0, c: p.1.1.0, d: p.1.1.1 })
    }
}

/// A user's public identity.
#[derive(Debug, Clone, Copy, PartialEq, Eq, Structural, Hash)]
pub struct RostraId {
    pub bytes: Bytes32,
}

impl Record for RostraId {
    type Parts = Bytes32;

    open spec fn parts(self) -> Bytes32 {
        self.bytes
    }

    open spec fn assembled(p: Bytes32) -> Option<Self> {
        Some(RostraId { bytes: p })
    }

    proof fn lemma_parts(self) {
    }

    proof fn lemma_assembled(p: Bytes32) {
    }

    fn to_parts(&self) -> (p: Bytes32) {
        self.bytes
    }

    fn of_parts(p: Bytes32) -> (res: Option<Self>) {
        Some(RostraId { bytes: p })
    }
}

impl RostraId {
    /// The least identity in key order.
    pub open spec fn spec_zero() -> RostraId {
        RostraId { bytes: Bytes32 { a: 0, b: 0, c: 0, d: 0 } }
    }

    /// The greatest identity in key order.
    pub open spec fn spec_max() -> RostraId {
        RostraId { bytes: Bytes32 { a: u64::MAX, b: u64::MAX, c: u64::MAX, d: u64::MAX } }
    }

    #[verifier::when_used_as_spec(spec_zero)]
    pub fn zero() -> (res: RostraId)
        ensures
            res == RostraId::spec_zero(),
    {
        RostraId { bytes: Bytes32 { a: 0, b: 0, c: 0, d: 0 } }
    }

    #[verifier::when_used_as_spec(spec_max)]
    pub fn max() -> (res: RostraId)
        ensures
            res == RostraId::spec_max(),
    {
        RostraId { bytes: Bytes32 { a: u64::MAX, b: u64::MAX, c: u64::MAX, d: u64::MAX } }
    }
}

/// The network identity of an endpoint.
#[derive(Debug, Clone, Copy, PartialEq, Eq, Structural, Hash)]
pub struct IrohNodeId {
    pub bytes: Bytes32,
}

impl Record for IrohNodeId {
    type Parts = Bytes32;

    open spec fn parts(self) -> Bytes32 {
        self.bytes
    }

    open spec fn assembled(p: Bytes32) -> Option<Self> {
        Some(IrohNodeId { bytes: p })
    }

    proof fn lemma_parts(self) {
    }

    proof fn lemma_assembled(p: Bytes32) {
    }

    fn to_parts(&self) -> (p: Bytes32) {
        self.bytes
    }

    fn of_parts(p: Bytes32) -> (res: Option<Self>) {
        Some(IrohNodeId { bytes: p })
    }
}

/// The hash by which a payload is stored.
#[derive(Debug, Clone, Copy, PartialEq, Eq, Structural, Hash)]
pub struct ContentHash {
    pub bytes: Bytes32,
}

impl Record for ContentHash {
    type Parts = Bytes32;

    open spec fn parts(self) -> Bytes32 {
        self.bytes
    }

    open spec fn assembled(p: Bytes32) -> Option<Self> {
        Some(ContentHash { bytes: p })
    }

    proof fn lemma_parts(self) {
    }

    proof fn lemma_assembled(p: Bytes32) {
    }

    fn to_parts(&self) -> (p: Bytes32) {
        self.bytes
    }

    fn of_parts(p: Bytes32) -> (res: Option<Self>) {
        Some(ContentHash { bytes: p })
    }
}

/// The full identifier of an event.
#[derive(Debug, Clone, Copy, PartialEq, Eq, Structural, Hash)]
pub struct EventId {
    pub bytes: Bytes32,
}

impl Record for EventId {
    type Parts = Bytes32;

    open spec fn parts(self) -> Bytes32 {
        self.bytes
    }

    open spec fn assembled(p: Bytes32) -> Option<Self> {
        Some(EventId { bytes: p })
    }

    proof fn lemma_parts(self) {
    }

    proof fn lemma_assembled(p: Bytes32) {
    }

    fn to_parts(&self) -> (p: Bytes32) {
        self.bytes
    }

    fn of_parts(p: Bytes32) -> (res: Option<Self>) {
        Some(EventId { bytes: p })
    }
}

impl EventId {
    pub open spec fn spec_to_short(&self) -> ShortEventId {
        ShortEventId { hi: self.bytes.a, lo: self.bytes.b }
    }

    /// The leading half of the identifier, under which the event is stored.
    #[verifier::when_used_as_spec(spec_to_short)]
    pub fn to_short(&self) -> (res: ShortEventId)
        ensures
            res == self.spec_to_short(),
    {
        ShortEventId { hi: self.bytes.a, lo: self.bytes.b }
    }
}

/// The truncated identifier under which an event is stored.
#[derive(Debug, Clone, Copy, PartialEq, Eq, Structural, Hash)]
pub struct ShortEventId {
    pub hi: u64,
    pub lo: u64,
}

impl Record for ShortEventId {
    type Parts = (u64, u64);

    open spec fn parts(self) -> (u64, u64) {
        (self.hi, self.lo)
    }

    open spec fn assembled(p: (u64, u64)) -> Option<Self> {
        Some(ShortEventId { hi: p.0, lo: p.1 })
    }

    proof fn lemma_parts(self) {
    }

    proof fn lemma_assembled(p: (u64, u64)) {
    }

    fn to_parts(&self) -> (p: (u64, u64)) {
        (self.hi, self.lo)
    }

    fn of_parts(p: (u64, u64)) -> (res: Option<Self>) {
        Some(ShortEventId { hi: p.0, lo: p.1 })
    }
}

impl ShortEventId {
    pub open spec fn spec_zero() -> ShortEventId {
        ShortEventId { hi: 0, lo: 0 }
    }

    pub open spec fn spec_max() -> ShortEventId {
        ShortEventId { hi: u64::MAX, lo: u64::MAX }
    }

    /// The least identifier in key order.
    #[verifier::when_used_as_spec(spec_zero)]
    pub fn zero() -> (res: ShortEventId)
        ensures
            res == ShortEventId::spec_zero(),
    {
        ShortEventId { hi: 0, lo: 0 }
    }

    /// The greatest identifier in key order.
    #[verifier::when_used_as_spec(spec_max)]
    pub fn max() -> (res: ShortEventId)
        ensures
            res == ShortEventId::spec_max(),
    {
        ShortEventId { hi: u64::MAX, lo: u64::MAX }
    }

    /// Byte order of identifiers.
    pub open spec fn lt(self, other: ShortEventId) -> bool {
        self.hi < other.hi || self.hi == other.hi && self.lo < other.lo
    }
}

/// An event together with its author.
#[derive(Debug, Clone, Copy, PartialEq, Eq, Structural, Hash)]
pub struct ExternalEventId {
    pub rostra_id: RostraId,
    pub event_id: ShortEventId,
}

impl Record for ExternalEventId {
    type Parts = (RostraId, ShortEventId);

    open spec fn parts(self) -> (RostraId, ShortEventId) {
        (self.rostra_id, self.event_id)
    }

    open spec fn assembled(p: (RostraId, ShortEventId)) -> Option<Self> {
        Some(ExternalEventId { rostra_id: p.0, event_id: p.1 })
    }

    proof fn lemma_parts(self) {
    }

    proof fn lemma_assembled(p: (RostraId, ShortEventId)) {
    }

    fn to_parts(&self) -> (p: (RostraId, ShortEventId)) {
        (self.rostra_id, self.event_id)
    }

    fn of_parts(p: (RostraId, ShortEventId)) -> (res: Option<Self>) {
        Some(ExternalEventId { rostra_id: p.0, event_id: p.1 })
    }
}

/// Seconds since the epoch.
#[derive(Debug, Clone, Copy, PartialEq, Eq, Structural, Hash)]
pub struct Timestamp {
    pub secs: u64,
}

impl Record for Timestamp {
    type Parts = u64;

    open spec fn parts(self) -> u64 {
        self.secs
    }

    open spec fn assembled(p: u64) -> Option<Self> {
        Some(Timestamp { secs: p })
    }

    proof fn lemma_parts(self) {
    }

    proof fn lemma_assembled(p: u64) {
    }

    fn to_parts(&self) -> (p: u64) {
        self.secs
    }

    fn of_parts(p: u64) -> (res: Option<Self>) {
        Some(Timestamp { secs: p })
    }
}

impl Timestamp {
    pub open spec fn spec_zero() -> Timestamp {
        Timestamp { secs: 0 }
    }

    pub open spec fn spec_max() -> Timestamp {
        Timestamp { secs: u64::MAX }
    }

    #[verifier::when_used_as_spec(spec_zero)]
    pub fn zero() -> (res: Timestamp)
        ensures
            res == Timestamp::spec_zero(),
    {
        Timestamp { secs: 0 }
    }

    #[verifier::when_used_as_spec(spec_max)]
    pub fn max() -> (res: Timestamp)
        ensures
            res == Timestamp::spec_max(),
    {
        Timestamp { secs: u64::MAX }
    }

    /// The time that many seconds later, or the last one there is.
    pub fn saturating_add_secs(self, secs: u64) -> (res: Timestamp)
        ensures
            res.secs == (if self.secs + secs <= u64::MAX { self.secs + secs } else { u64::MAX as int }),
    {
        Timestamp { secs: self.secs.saturating_add(secs) }
    }
}

/// What distinguishes singleton events of one author and kind.
#[derive(Debug, Clone, Copy, PartialEq, Eq, Structural, Hash)]
pub struct EventAuxKey {
    pub hi: u64,
    pub lo: u64,
}

impl Record for EventAuxKey {
    type Parts = (u64, u64);

    open spec fn parts(self) -> (u64, u64) {
        (self.hi, self.lo)
    }

    open spec fn assembled(p: (u64, u64)) -> Option<Self> {
        Some(EventAuxKey { hi: p.0, lo: p.1 })
    }

    proof fn lemma_parts(self) {
    }

    proof fn lemma_assembled(p: (u64, u64)) {
    }

    fn to_parts(&self) -> (p: (u64, u64)) {
        (self.hi, self.lo)
    }

    fn of_parts(p: (u64, u64)) -> (res: Option<Self>) {
        Some(EventAuxKey { hi: p.0, lo: p.1 })
    }
}

/// One of a user's personas.
#[derive(Debug, Clone, Copy, PartialEq, Eq, Structural, Hash)]
pub struct PersonaId {
    pub n: u8,
}

impl Record for PersonaId {
    type Parts = u8;

    open spec fn parts(self) -> u8 {
        self.n
    }

    open spec fn assembled(p: u8) -> Option<Self> {
        Some(PersonaId { n: p })
    }

    proof fn lemma_parts(self) {
    }

    proof fn lemma_assembled(p: u8) {
    }

    fn to_parts(&self) -> (p: u8) {
        self.n
    }

    fn of_parts(p: u8) -> (res: Option<Self>) {
        Some(PersonaId { n: p })
    }
}

impl Blank for RostraId {
    open spec fn blank() -> Self {
        RostraId { bytes: Bytes32 { a: 0, b: 0, c: 0, d: 0 } }
    }

    fn make_blank() -> (x: Self) {
        RostraId { bytes: Bytes32 { a: 0, b: 0, c: 0, d: 0 } }
    }

    fn is_blank(&self) -> (res: bool) {
        self.bytes.a == 0 && self.bytes.b == 0 && self.bytes.c == 0 && self.bytes.d == 0
    }
}

impl Blank for IrohNodeId {
    open spec fn blank() -> Self {
        IrohNodeId { bytes: Bytes32 { a: 0, b: 0, c: 0, d: 0 } }
    }

    fn make_blank() -> (x: Self) {
        IrohNodeId { bytes: Bytes32 { a: 0, b: 0, c: 0, d: 0 } }
    }

    fn is_blank(&self) -> (res: bool) {
        self.bytes.a == 0 && self.bytes.b == 0 && self.bytes.c == 0 && self.bytes.d == 0
    }
}

impl Blank for ShortEventId {
    open spec fn blank() -> Self {
        ShortEventId { hi: 0, lo: 0 }
    }

    fn make_blank() -> (x: Self) {
        ShortEventId { hi: 0, lo: 0 }
    }

    fn is_blank(&self) -> (res: bool) {
        self.hi == 0 && self.lo == 0
    }
}

impl Blank for Timestamp {
    open spec fn blank() -> Self {
        Timestamp { secs: 0 }
    }

    fn make_blank() -> (x: Self) {
        Timestamp { secs: 0 }
    }

    fn is_blank(&self) -> (res: bool) {
        self.secs == 0
    }
}

impl Blank for ExternalEventId {
    open spec fn blank() -> Self {
        ExternalEventId { rostra_id: RostraId { bytes: Bytes32 { a: 0, b: 0, c: 0, d: 0 } }, event_id: ShortEventId { hi: 0, lo: 0 } }
    }

    fn make_blank() -> (x: Self) {
        ExternalEventId { rostra_id: RostraId { bytes: Bytes32 { a: 0, b: 0, c: 0, d: 0 } }, event_id: ShortEventId { hi: 0, lo: 0 } }
    }

    fn is_blank(&self) -> (res: bool) {
        self.rostra_id.is_blank() && self.event_id.is_blank()
    }
}

/// The position of an event in the order that decides between events: by
/// author time, then by identifier.
#[derive(Debug, Clone, Copy, PartialEq, Eq, Structural)]
pub struct EventOrder {
    pub timestamp: Timestamp,
    pub event_id: ShortEventId,
}

impl Record for EventOrder {
    type Parts = (Timestamp, ShortEventId);

    open spec fn parts(self) -> (Timestamp, ShortEventId) {
        (self.timestamp, self.event_id)
    }

    open spec fn assembled(p: (Timestamp, ShortEventId)) -> Option<Self> {
        Some(EventOrder { timestamp: p.0, event_id: p.1 })
    }

    proof fn lemma_parts(self) {
    }

    proof fn lemma_assembled(p: (Timestamp, ShortEventId)) {
    }

    fn to_parts(&self) -> (p: (Timestamp, ShortEventId)) {
        (self.timestamp, self.event_id)
    }

    fn of_parts(p: (Timestamp, ShortEventId)) -> (res: Option<Self>) {
        Some(EventOrder { timestamp: p.0, event_id: p.1 })
    }
}

impl EventOrder {
    pub open spec fn lt(self, other: EventOrder) -> bool {
        ||| self.timestamp.secs < other.timestamp.secs
        ||| self.timestamp == other.timestamp && self.event_id.lt(other.event_id)
    }

    pub open spec fn le(self, other: EventOrder) -> bool {
        !other.lt(self)
    }

    pub open spec fn spec_max_of(self, other: EventOrder) -> EventOrder {
        if self.lt(other) {
            other
        } else {
            self
        }
    }

    /// Whether this position is before the other.
    pub fn before(&self, other: &EventOrder) -> (res: bool)
        ensures
            res == self.lt(*other),
    {
        self.timestamp.secs < other.timestamp.secs || self.timestamp.secs == other.timestamp.secs
            && (self.event_id.hi < other.event_id.hi || self.event_id.hi == other.event_id.hi
            && self.event_id.lo < other.event_id.lo)
    }

    /// The greater of two positions.
    pub fn max_of(self, other: EventOrder) -> (res: EventOrder)
        ensures
            res == self.spec_max_of(other),
    {
        if self.before(&other) {
            other
        } else {
            self
        }
    }
}

/// The greater of two positions does not depend on their order, nor that of
/// three on how they are grouped, and it is one of them.
pub proof fn law_max_of(a: EventOrder, b: EventOrder, c: EventOrder)
    ensures
        a.spec_max_of(b) == b.spec_max_of(a),
        a.spec_max_of(b).spec_max_of(c) == a.spec_max_of(b.spec_max_of(c)),
        a.spec_max_of(a) == a,
        a.spec_max_of(b) == a || a.spec_max_of(b) == b,
        a.le(a.spec_max_of(b)),
        b.le(a.spec_max_of(b)),
{
}

/// Times are keys in their own order.
pub proof fn lemma_timestamp_key(x: Timestamp, y: Timestamp)
    ensures
        key_lt(x, y) <==> x.secs < y.secs,
{
    lemma_u64_lt(x.secs, y.secs);
}

/// Event identifiers are keys in byte order.
pub proof fn lemma_short_id_key(x: ShortEventId, y: ShortEventId)
    ensures
        key_lt(x, y) <==> x.lt(y),
{
    lemma_pair_lt(x.hi, x.lo, y.hi, y.lo);
    lemma_u64_lt(x.hi, y.hi);
    lemma_u64_lt(x.lo, y.lo);
}

/// Time and identifier as a key are ordered as events are.
pub proof fn lemma_order_key(x: EventOrder, y: EventOrder)
    ensures
        key_lt((x.timestamp, x.event_id), (y.timestamp, y.event_id)) <==> x.lt(y),
{
    lemma_pair_lt(x.timestamp, x.event_id, y.timestamp, y.event_id);
    lemma_timestamp_key(x.timestamp, y.timestamp);
    lemma_short_id_key(x.event_id, y.event_id);
}

/// The least and the greatest event identifier enclose every other.
pub proof fn lemma_short_id_bounds(x: ShortEventId)
    ensures
        key_le(ShortEventId::spec_zero(), x),
        key_le(x, ShortEventId::spec_max()),
{
    lemma_short_id_key(x, ShortEventId::spec_zero());
    lemma_short_id_key(ShortEventId::spec_max(), x);
}

/// The least and the greatest time enclose every other.
pub proof fn lemma_timestamp_bounds(x: Timestamp)
    ensures
        key_le(Timestamp::spec_zero(), x),
        key_le(x, Timestamp::spec_max()),
{
    lemma_timestamp_key(x, Timestamp::spec_zero());
    lemma_timestamp_key(Timestamp::spec_max(), x);
}

/// The least and the greatest identity enclose every other.
pub proof fn lemma_rostra_id_bounds(x: RostraId)
    ensures
        key_le(RostraId::spec_zero(), x),
        key_le(x, RostraId::spec_max()),
{
    let z = RostraId::spec_zero().bytes;
    let m = RostraId::spec_max().bytes;
    let y = x.bytes;
    lemma_pair_lt(y.a, (y.b, (y.c, y.d)), z.a, (z.b, (z.c, z.d)));
    lemma_pair_lt(y.b, (y.c, y.d), z.b, (z.c, z.d));
    lemma_pair_lt(y.c, y.d, z.c, z.d);
    lemma_pair_lt(m.a, (m.b, (m.c, m.d)), y.a, (y.b, (y.c, y.d)));
    lemma_pair_lt(m.b, (m.c, m.d), y.b, (y.c, y.d));
    lemma_pair_lt(m.c, m.d, y.c, y.d);
    lemma_u64_lt(y.a, z.a);
    lemma_u64_lt(y.b, z.b);
    lemma_u64_lt(y.c, z.c);
    lemma_u64_lt(y.d, z.d);
    lemma_u64_lt(m.a, y.a);
    lemma_u64_lt(m.b, y.b);
    lemma_u64_lt(m.c, y.c);
    lemma_u64_lt(m.d, y.d);
}

}
