//! Posts as readers see them.

use vstd::prelude::*;

use crate::content::state_of;
use crate::database::Database;
use crate::error::{unread, DbError, DbResult};
use crate::event::{EventContentState, VerifiedEvent};
use crate::ids::{lemma_timestamp_key, ExternalEventId, RostraId, ShortEventId, Timestamp};
use crate::insert_event::stored;
use crate::lineage::{lemma_version_stored, reply_total, versions_of};
use crate::listing::{key_le, key_lt, lemma_pair_lt, lemma_u64_lt};
use crate::payload::{has_body, SocialPost};
use crate::projection::counts_of;
use crate::retention::QuotaPruneReason;
use crate::tables::{DbState, Tables};

verus! {

/// A place among posts by author time.
#[derive(Debug, Clone, Copy, PartialEq, Eq, Structural)]
pub struct EventPaginationCursor {
    pub ts: Timestamp,
    pub event_id: ShortEventId,
}

impl EventPaginationCursor {
    pub open spec fn spec_zero() -> EventPaginationCursor {
        EventPaginationCursor { ts: Timestamp::spec_zero(), event_id: ShortEventId::spec_zero() }
    }

    pub open spec fn spec_max() -> EventPaginationCursor {
        EventPaginationCursor { ts: Timestamp::spec_max(), event_id: ShortEventId::spec_max() }
    }

    /// The first place.
    #[verifier::when_used_as_spec(spec_zero)]
    pub fn zero() -> (res: EventPaginationCursor)
        ensures
            res == EventPaginationCursor::spec_zero(),
    {
        EventPaginationCursor { ts: Timestamp::zero(), event_id: ShortEventId::zero() }
    }

    /// The last place.
    #[verifier::when_used_as_spec(spec_max)]
    pub fn max() -> (res: EventPaginationCursor)
        ensures
            res == EventPaginationCursor::spec_max(),
    {
        EventPaginationCursor { ts: Timestamp::max(), event_id: ShortEventId::max() }
    }

    /// The key of the row at this place.
    pub open spec fn key(self) -> (Timestamp, ShortEventId) {
        (self.ts, self.event_id)
    }
}

/// A place among posts by reception.
#[derive(Debug, Clone, Copy, PartialEq, Eq, Structural)]
pub struct ReceivedAtPaginationCursor {
    pub ts: Timestamp,
    /// The order among those received at the same time.
    pub seq: u64,
}

impl ReceivedAtPaginationCursor {
    pub open spec fn spec_zero() -> ReceivedAtPaginationCursor {
        ReceivedAtPaginationCursor { ts: Timestamp::spec_zero(), seq: 0 }
    }

    pub open spec fn spec_max() -> ReceivedAtPaginationCursor {
        ReceivedAtPaginationCursor { ts: Timestamp::spec_max(), seq: u64::MAX }
    }

    /// The first place.
    #[verifier::when_used_as_spec(spec_zero)]
    pub fn zero() -> (res: ReceivedAtPaginationCursor)
        ensures
            res == ReceivedAtPaginationCursor::spec_zero(),
    {
        ReceivedAtPaginationCursor { ts: Timestamp::zero(), seq: 0 }
    }

    /// The last place.
    #[verifier::when_used_as_spec(spec_max)]
    pub fn max() -> (res: ReceivedAtPaginationCursor)
        ensures
            res == ReceivedAtPaginationCursor::spec_max(),
    {
        ReceivedAtPaginationCursor { ts: Timestamp::max(), seq: u64::MAX }
    }

    /// The key of the row at this place.
    pub open spec fn key(self) -> (Timestamp, u64) {
        (self.ts, self.seq)
    }

    /// The place behind this one: the next order, or the next second where
    /// there is none.
    pub open spec fn spec_next(self) -> ReceivedAtPaginationCursor {
        if self.seq < u64::MAX {
            ReceivedAtPaginationCursor { ts: self.ts, seq: (self.seq + 1) as u64 }
        } else if self.ts.secs < u64::MAX {
            ReceivedAtPaginationCursor {
                ts: Timestamp { secs: (self.ts.secs + 1) as u64 },
                seq: 0,
            }
        } else {
            ReceivedAtPaginationCursor { ts: self.ts, seq: 0 }
        }
    }

    /// The place behind this one.
    pub fn next(self) -> (res: ReceivedAtPaginationCursor)
        ensures
            res == self.spec_next(),
    {
        if self.seq < u64::MAX {
            ReceivedAtPaginationCursor { ts: self.ts, seq: self.seq + 1 }
        } else {
            ReceivedAtPaginationCursor { ts: self.ts.saturating_add_secs(1), seq: 0 }
        }
    }
}

/// The next place is behind this one, and nothing is between the two. The last
/// place has none behind it.
pub proof fn law_cursor_next(c: ReceivedAtPaginationCursor, key: (Timestamp, u64))
    requires
        c != ReceivedAtPaginationCursor::spec_max(),
    ensures
        key_lt(c.key(), c.spec_next().key()),
        key_lt(c.key(), key) <==> key_le(c.spec_next().key(), key),
{
    let n = c.spec_next();
    lemma_pair_lt(c.ts, c.seq, n.ts, n.seq);
    lemma_pair_lt(c.ts, c.seq, key.0, key.1);
    lemma_pair_lt(key.0, key.1, n.ts, n.seq);
    lemma_timestamp_key(c.ts, n.ts);
    lemma_timestamp_key(c.ts, key.0);
    lemma_timestamp_key(key.0, n.ts);
    lemma_u64_lt(c.seq, n.seq);
    lemma_u64_lt(c.seq, key.1);
    lemma_u64_lt(key.1, n.seq);
}

/// A post with what is known of it.
#[derive(Debug)]
pub struct SocialPostRecord<C> {
    pub ts: Timestamp,
    pub event_id: ShortEventId,
    pub author: RostraId,
    pub reply_to: Option<ExternalEventId>,
    pub content: C,
    /// Replies to it and to the posts that it replaced.
    pub reply_count: u64,
}

/// Whether a payload can be had.
#[derive(Debug, Clone, Copy, PartialEq, Eq, Structural)]
pub enum EventContentAvailability {
    /// It was processed.
    Available,
    Missing,
    Deleted,
    /// It was given up here, for its size if a reason is given.
    Pruned { quota_reason: Option<QuotaPruneReason> },
    Invalid,
}

/// The latest version of a post.
#[derive(Debug)]
pub struct SocialPostState {
    pub event_id: ShortEventId,
    pub author: RostraId,
    pub timestamp: Timestamp,
    /// The post, where its payload can be had and says something.
    pub post: Option<SocialPostRecord<SocialPost>>,
    pub availability: EventContentAvailability,
}

/// A shoutbox post.
#[derive(Debug)]
pub struct ShoutboxPostRecord<C> {
    pub received_ts: Timestamp,
    pub event_id: ShortEventId,
    pub author: RostraId,
    pub content: C,
}

/// The payload of an event, where it was processed and is stored.
pub open spec fn payload_of(db: DbState, id: ShortEventId) -> Option<Seq<u8>> {
    if db.events.contains_key(id) && state_of(db.events_content_state, id) is None {
        stored(db, db.events[id].event.content_hash)
    } else {
        None
    }
}

/// What a payload reads as, where there is one: what `read` makes of it.
pub open spec fn reads_as<C, F: Fn(&Vec<u8>) -> Option<C>>(
    read: F,
    bytes: Option<Seq<u8>>,
    content: Option<C>,
) -> bool {
    match bytes {
        None => content is None,
        Some(bytes) => exists|b: Vec<u8>|
            #![trigger b@]
            b@ == bytes && call_ensures(read, (&b,), content),
    }
}

/// A reader takes any bytes.
pub open spec fn reads_all<C, F: Fn(&Vec<u8>) -> Option<C>>(read: F) -> bool {
    forall|b: &Vec<u8>| call_requires(read, (b,))
}

/// The record of a post that reads as `post`, listed at the given time.
pub open spec fn record_of(
    db: DbState,
    id: ShortEventId,
    ts: Timestamp,
    post: Option<SocialPost>,
) -> DbResult<Option<SocialPostRecord<SocialPost>>> {
    match post {
        None => Ok(None),
        Some(post) => {
            let author = db.events[id].event.author;
            match reply_total(db.social_posts, db.social_posts_replaces, author, id) {
                Err(e) => Err(e),
                Ok(reply_count) => Ok(
                    Some(
                        SocialPostRecord {
                            ts,
                            event_id: id,
                            author,
                            reply_to: post.reply_to,
                            content: post,
                            reply_count,
                        },
                    ),
                ),
            }
        },
    }
}

/// What comes of reading a post: its record, for what its payload reads as.
pub open spec fn post_read<F: Fn(&Vec<u8>) -> Option<SocialPost>>(
    db: DbState,
    read_post: F,
    id: ShortEventId,
    ts: Timestamp,
    res: DbResult<Option<SocialPostRecord<SocialPost>>>,
) -> bool {
    exists|post: Option<SocialPost>|
        reads_as(read_post, payload_of(db, id), post) && res == #[trigger] record_of(
            db,
            id,
            ts,
            post,
        )
}

/// The latest version of an event that is stored, or the event itself.
pub open spec fn latest_version(db: DbState, id: ShortEventId) -> DbResult<ShortEventId> {
    if db.events.contains_key(id) {
        match versions_of(db.social_posts_replaced_by, db.events[id].event.author, id) {
            Some(versions) => Ok(versions.last()),
            None => Err(DbError::CyclicEdits { event_id: id }),
        }
    } else {
        Ok(id)
    }
}

/// The latest version of an event that is stored is stored.
pub open spec fn version_stored(db: DbState, id: ShortEventId) -> bool {
    db.events.contains_key(id) ==> (latest_version(db, id) matches Ok(latest)
        ==> db.events.contains_key(latest))
}

/// A post that replaces another is stored.
pub open spec fn edits_stored(db: DbState) -> bool {
    forall|k: (RostraId, ShortEventId, ShortEventId)| #[trigger]
        db.social_posts_replaced_by.contains_key(k) ==> db.events.contains_key(k.2)
}

/// Where posts that replace others are stored, so is every latest version.
pub proof fn law_versions_stored(db: DbState, id: ShortEventId)
    requires
        edits_stored(db),
    ensures
        version_stored(db, id),
{
    if db.events.contains_key(id) {
        let author = db.events[id].event.author;
        lemma_version_stored(db.social_posts_replaced_by, db.events, author, id);
    }
}

/// A post is shown unless it deletes another and says nothing itself.
pub open spec fn says_more_than_delete(e: VerifiedEvent, post: SocialPost) -> bool {
    e.event.deletes_parent_aux ==> has_body(post)
}

/// A post as shown by itself: its latest version, with the time at which it
/// was written, for what its payload reads as.
pub open spec fn shown_post(db: DbState, id: ShortEventId, post: Option<SocialPost>) -> DbResult<
    Option<SocialPostRecord<SocialPost>>,
> {
    match post {
        Some(content) => if says_more_than_delete(db.events[id], content) {
            record_of(db, id, db.events[id].event.timestamp, post)
        } else {
            Ok(None)
        },
        None => Ok(None),
    }
}

/// Whether the payload of a stored event can be had.
pub open spec fn availability_of(db: DbState, id: ShortEventId) -> EventContentAvailability {
    match state_of(db.events_content_state, id) {
        None => EventContentAvailability::Available,
        Some(EventContentState::Missing { .. }) => EventContentAvailability::Missing,
        Some(EventContentState::Deleted { .. }) => EventContentAvailability::Deleted,
        Some(EventContentState::Invalid) => EventContentAvailability::Invalid,
        Some(EventContentState::Pruned) => EventContentAvailability::Pruned {
            quota_reason: if db.events_quota_pruned.contains_key(id) {
                Some(db.events_quota_pruned[id].reason)
            } else {
                None
            },
        },
    }
}

impl Database {
    pub(crate) fn read_payload_tx<C, F: Fn(&Vec<u8>) -> Option<C>>(
        event_id: ShortEventId,
        read: &F,
        db: &Tables<'_>,
    ) -> (res: DbResult<Option<(C, VerifiedEvent)>>)
        requires
            reads_all(*read),
        ensures
            match res {
                Ok(Some((content, event))) => db@.events.contains_key(event_id)
                    && db@.events[event_id] == event && reads_as(
                    *read,
                    payload_of(db@, event_id),
                    Some(content),
                ),
                Ok(None) => reads_as::<C, F>(*read, payload_of(db@, event_id), None),
                Err(e) => e.is_fault(),
            },
            unread(res) ==> !db.intact(),
    {
        let event = match db.events.get(&event_id)? {
            Some(event) => event,
            None => return Ok(None),
        };
        if db.events_content_state.contains(&event_id)? {
            return Ok(None);
        }
        let bytes = match db.content_store.get(&event.event.content_hash)? {
            Some(bytes) => bytes,
            None => return Ok(None),
        };
        match read(&bytes) {
            Some(content) => Ok(Some((content, event))),
            None => Ok(None),
        }
    }

    /// The record of a post, listed at the given time; none where its payload
    /// cannot be had or is no post.
    pub fn social_post_record_by_id_tx<F: Fn(&Vec<u8>) -> Option<SocialPost>>(
        event_id: ShortEventId,
        ts: Timestamp,
        read_post: &F,
        db: &Tables<'_>,
    ) -> (res: DbResult<Option<SocialPostRecord<SocialPost>>>)
        requires
            reads_all(*read_post),
        ensures
            (res matches Err(e) && e.is_fault()) || post_read(db@, *read_post, event_id, ts, res),
            unread(res) ==> !db.intact(),
    {
        let (post, event) = match Self::read_payload_tx(event_id, read_post, db)? {
            Some(found) => found,
            None => {
                assert(record_of(db@, event_id, ts, None) matches Ok(None));
                return Ok(None);
            },
        };
        let ghost reading = Some(post);
        let author = event.event.author;
        match Self::social_post_reply_count_tx(
            author,
            event_id,
            &db.social_posts,
            &db.social_posts_replaces,
        ) {
            Ok(reply_count) => {
                let record = SocialPostRecord {
                    ts,
                    event_id,
                    author,
                    reply_to: post.reply_to,
                    content: post,
                    reply_count,
                };
                assert(record_of(db@, event_id, ts, reading) == Ok::<_, DbError>(Some(record)));
                Ok(Some(record))
            },
            Err(e) => {
                assert(e.is_fault() || record_of(db@, event_id, ts, reading) == Err::<
                    Option<SocialPostRecord<SocialPost>>,
                    DbError,
                >(e));
                Err(e)
            },
        }
    }

    /// A post with its event and the counts that are kept of it; none where
    /// its payload cannot be had or is no post.
    pub fn get_social_post_record_tx<F: Fn(&Vec<u8>) -> Option<SocialPost>>(
        event_id: ShortEventId,
        read_post: &F,
        db: &Tables<'_>,
    ) -> (res: DbResult<
        Option<(SocialPost, VerifiedEvent, crate::tables::SocialPostRecord)>,
    >)
        requires
            reads_all(*read_post),
        ensures
            match res {
                Ok(Some((post, event, counts))) => {
                    &&& reads_as(*read_post, payload_of(db@, event_id), Some(post))
                    &&& db@.events.contains_key(event_id)
                    &&& event == db@.events[event_id]
                    &&& counts == counts_of(db@.social_posts, event_id)
                },
                Ok(None) => reads_as(*read_post, payload_of(db@, event_id), None),
                Err(e) => e.is_fault(),
            },
            unread(res) ==> !db.intact(),
    {
        let (post, event) = match Self::read_payload_tx(event_id, read_post, db)? {
            Some(found) => found,
            None => return Ok(None),
        };
        let counts = match db.social_posts.get(&event_id)? {
            Some(counts) => counts,
            None => crate::tables::SocialPostRecord { reply_count: 0, reaction_count: 0 },
        };
        Ok(Some((post, event, counts)))
    }

    /// The latest version of an event that is stored, or the event itself.
    pub(crate) fn latest_version_tx(event_id: ShortEventId, db: &Tables<'_>) -> (res: DbResult<ShortEventId>)
        ensures
            match res {
                Ok(latest) => latest_version(db@, event_id) == Ok::<_, DbError>(latest),
                Err(e) => e.is_fault() || latest_version(db@, event_id) == Err::<
                    ShortEventId,
                    _,
                >(e),
            },
            unread(res) ==> !db.intact(),
    {
        match db.events.get(&event_id)? {
            Some(event) => Self::latest_social_post_version_tx(
                event.event.author,
                event_id,
                &db.social_posts_replaced_by,
            ),
            None => Ok(event_id),
        }
    }

    fn show_post_tx<F: Fn(&Vec<u8>) -> Option<SocialPost>>(
        event_id: ShortEventId,
        read_post: &F,
        db: &Tables<'_>,
    ) -> (res: DbResult<Option<SocialPostRecord<SocialPost>>>)
        requires
            reads_all(*read_post),
        ensures
            (res matches Err(e) && e.is_fault()) || post_shown_alone(db@, *read_post, event_id, res),
            unread(res) ==> !db.intact(),
    {
        let (post, event, _) = match Self::get_social_post_record_tx(event_id, read_post, db)? {
            Some(found) => found,
            None => {
                assert(shown_post(db@, event_id, None) matches Ok(None));
                return Ok(None);
            },
        };
        let ghost reading = Some(post);
        if event.event.deletes_parent_aux && !post.says_something() {
            assert(shown_post(db@, event_id, reading) matches Ok(None));
            return Ok(None);
        }
        let author = event.event.author;
        match Self::social_post_reply_count_tx(
            author,
            event_id,
            &db.social_posts,
            &db.social_posts_replaces,
        ) {
            Ok(reply_count) => {
                let record = SocialPostRecord {
                    ts: event.event.timestamp,
                    event_id,
                    author,
                    reply_to: post.reply_to,
                    content: post,
                    reply_count,
                };
                assert(shown_post(db@, event_id, reading) == Ok::<_, DbError>(Some(record)));
                Ok(Some(record))
            },
            Err(e) => {
                assert(e.is_fault() || shown_post(db@, event_id, reading) == Err::<
                    Option<SocialPostRecord<SocialPost>>,
                    DbError,
                >(e));
                Err(e)
            },
        }
    }

    /// The latest version of a post.
    pub fn get_social_post<F: Fn(&Vec<u8>) -> Option<SocialPost>>(
        event_id: ShortEventId,
        read_post: &F,
        db: &Tables<'_>,
    ) -> (res: DbResult<Option<SocialPostRecord<SocialPost>>>)
        requires
            reads_all(*read_post),
        ensures
            (res matches Err(e) && e.is_fault()) || match latest_version(db@, event_id) {
                Err(e) => res == Err::<Option<SocialPostRecord<SocialPost>>, _>(e),
                Ok(latest) => post_shown_alone(db@, *read_post, latest, res),
            },
            unread(res) ==> !db.intact(),
    {
        let latest = Self::latest_version_tx(event_id, db)?;
        Self::show_post_tx(latest, read_post, db)
    }

    /// Whether the payload of an event can be had; none where the event is not
    /// stored.
    pub fn get_event_content_availability_tx(event_id: ShortEventId, db: &Tables<'_>) -> (res:
        DbResult<Option<EventContentAvailability>>)
        ensures
            match res {
                Ok(found) => found == (if db@.events.contains_key(event_id) {
                    Some(availability_of(db@, event_id))
                } else {
                    None
                }),
                Err(e) => e.is_fault(),
            },
            unread(res) ==> !db.intact(),
    {
        if !db.events.contains(&event_id)? {
            return Ok(None);
        }
        Ok(
            Some(
                match db.events_content_state.get(&event_id)? {
                    None => EventContentAvailability::Available,
                    Some(EventContentState::Missing { .. }) => EventContentAvailability::Missing,
                    Some(EventContentState::Deleted { .. }) => EventContentAvailability::Deleted,
                    Some(EventContentState::Invalid) => EventContentAvailability::Invalid,
                    Some(EventContentState::Pruned) => {
                        let quota_reason = match db.events_quota_pruned.get(&event_id)? {
                            Some(decision) => Some(decision.reason),
                            None => None,
                        };
                        EventContentAvailability::Pruned { quota_reason }
                    },
                },
            ),
        )
    }

    /// The latest version of a post with what is known of its payload; none
    /// where the event is not stored.
    pub fn get_social_post_state<F: Fn(&Vec<u8>) -> Option<SocialPost>>(
        event_id: ShortEventId,
        read_post: &F,
        db: &Tables<'_>,
    ) -> (res: DbResult<Option<SocialPostState>>)
        requires
            reads_all(*read_post),
            version_stored(db@, event_id),
        ensures
            (res matches Err(e) && e.is_fault()) || post_state(db@, *read_post, event_id, res),
            unread(res) ==> !db.intact(),
    {
        if !db.events.contains(&event_id)? {
            return Ok(None);
        }
        let latest = Self::latest_version_tx(event_id, db)?;
        let event = match db.events.get(&latest)? {
            Some(event) => event,
            None => return Ok(None),
        };
        let availability = match Self::get_event_content_availability_tx(latest, db)? {
            Some(availability) => availability,
            None => return Ok(None),
        };
        let post = Self::show_post_tx(latest, read_post, db)?;
        Ok(
            Some(
                SocialPostState {
                    event_id: latest,
                    author: event.event.author,
                    timestamp: event.event.timestamp,
                    post,
                    availability,
                },
            ),
        )
    }
}

/// A post is shown by itself for what its payload reads as.
pub open spec fn post_shown_alone<F: Fn(&Vec<u8>) -> Option<SocialPost>>(
    db: DbState,
    read_post: F,
    id: ShortEventId,
    res: DbResult<Option<SocialPostRecord<SocialPost>>>,
) -> bool {
    exists|post: Option<SocialPost>|
        reads_as(read_post, payload_of(db, id), post) && res == #[trigger] shown_post(db, id, post)
}

/// What is known of the latest version of a post.
pub open spec fn post_state<F: Fn(&Vec<u8>) -> Option<SocialPost>>(
    db: DbState,
    read_post: F,
    id: ShortEventId,
    res: DbResult<Option<SocialPostState>>,
) -> bool {
    if !db.events.contains_key(id) {
        res == Ok::<Option<SocialPostState>, DbError>(None)
    } else {
        match latest_version(db, id) {
            Err(e) => res == Err::<Option<SocialPostState>, DbError>(e),
            Ok(latest) => match res {
                Ok(None) => false,
                Ok(Some(state)) => {
                    &&& state.event_id == latest
                    &&& state.author == db.events[latest].event.author
                    &&& state.timestamp == db.events[latest].event.timestamp
                    &&& state.availability == availability_of(db, latest)
                    &&& post_shown_alone(db, read_post, latest, Ok(state.post))
                },
                Err(e) => post_shown_alone(db, read_post, latest, Err(e)),
            },
        }
    }
}

}
