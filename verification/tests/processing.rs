//! Processing events and their payloads.

use rostra_client_db::database::Database;
use rostra_client_db::error::DbError;
use rostra_client_db::event::{
    Event, EventContentState, EventKind, Signature, SocialVoteProjection, SocialVoteValue,
    VerifiedEvent,
};
use rostra_client_db::graph::EventContentResult;
use rostra_client_db::ids::{
    Bytes32, ContentHash, EventAuxKey, EventId, ExternalEventId, IrohNodeId, RostraId,
    ShortEventId, Timestamp,
};
use rostra_client_db::insert_event::InsertEventOutcome;
use rostra_client_db::payload::{
    Action, Follow, Payload, SocialPost, SocialProfileUpdate, SocialVote,
};
use rostra_client_db::process_content::{ContentOutcome, ProcessEventError};
use rostra_client_db::process_event::ProcessEventState;
use rostra_client_db::retention::{
    QuotaPruneDecision, QuotaPruneReason, RetentionOrigins, RetentionPolicy,
};
use rostra_client_db::tables::{IdsDataUsageRecord, Tables};

fn run(f: impl FnOnce(&mut Tables<'_>)) {
    let raw = redb::Database::builder()
        .create_with_backend(redb::backends::InMemoryBackend::new())
        .unwrap();
    let db = redb_bincode::Database::from(raw);
    let tx = db.begin_write().unwrap();
    let mut tables = Tables::open(&tx).unwrap();
    f(&mut tables);
}

fn bytes(n: u64) -> Bytes32 {
    Bytes32 { a: n, b: n, c: n, d: n }
}

fn person(n: u64) -> RostraId {
    RostraId { bytes: bytes(n) }
}

fn ts(secs: u64) -> Timestamp {
    Timestamp { secs }
}

fn account(n: u64) -> Database {
    Database { self_id: person(n), db_init_time: ts(0), max_content_len: 1_000_000 }
}

fn text(body: &str) -> SocialPost {
    SocialPost {
        djot_content: Some(body.to_owned()),
        reaction: None,
        reply_to: None,
        news: false,
        persona_tags: vec![],
    }
}

fn push_text(out: &mut Vec<u8>, text: &Option<String>) {
    match text {
        Some(t) => {
            out.push(1);
            out.push(t.len() as u8);
            out.extend_from_slice(t.as_bytes());
        }
        None => out.push(0),
    }
}

fn take_text(rest: &mut &[u8]) -> Option<Option<String>> {
    let tail: &[u8] = rest;
    match tail.first()? {
        0 => {
            *rest = &tail[1..];
            Some(None)
        }
        1 => {
            let n = *tail.get(1)? as usize;
            let body = tail.get(2..2 + n)?.to_vec();
            *rest = &tail[2 + n..];
            Some(Some(String::from_utf8(body).ok()?))
        }
        _ => None,
    }
}

/// The bytes of a post.
fn encode(post: &SocialPost) -> Vec<u8> {
    let mut out = vec![80, post.news as u8];
    push_text(&mut out, &post.djot_content);
    push_text(&mut out, &post.reaction);
    match post.reply_to {
        Some(to) => {
            out.push(1);
            for w in [
                to.rostra_id.bytes.a,
                to.rostra_id.bytes.b,
                to.rostra_id.bytes.c,
                to.rostra_id.bytes.d,
                to.event_id.hi,
                to.event_id.lo,
            ] {
                out.extend_from_slice(&w.to_be_bytes());
            }
        }
        None => out.push(0),
    }
    for tag in &post.persona_tags {
        push_text(&mut out, &Some(tag.clone()));
    }
    out
}

/// The post that bytes hold.
fn decode(raw: &Vec<u8>) -> Option<SocialPost> {
    let mut rest: &[u8] = raw.get(2..)?;
    if raw[0] != 80 {
        return None;
    }
    let djot_content = take_text(&mut rest)?;
    let reaction = take_text(&mut rest)?;
    let reply_to = match rest.first()? {
        0 => {
            rest = &rest[1..];
            None
        }
        _ => {
            let mut w = [0u64; 6];
            for (i, word) in w.iter_mut().enumerate() {
                *word = u64::from_be_bytes(rest.get(1 + 8 * i..9 + 8 * i)?.try_into().ok()?);
            }
            rest = &rest[49..];
            Some(ExternalEventId {
                rostra_id: RostraId { bytes: Bytes32 { a: w[0], b: w[1], c: w[2], d: w[3] } },
                event_id: ShortEventId { hi: w[4], lo: w[5] },
            })
        }
    };
    let mut persona_tags = vec![];
    while !rest.is_empty() {
        persona_tags.push(take_text(&mut rest)??);
    }
    Some(SocialPost { djot_content, reaction, reply_to, news: raw[1] == 1, persona_tags })
}

/// An event with a payload; equal payloads have equal hashes.
fn event(n: u64, author: RostraId, kind: EventKind, payload: &[u8]) -> VerifiedEvent {
    let sum = payload.iter().fold(17u64, |s, b| s.wrapping_mul(31).wrapping_add(*b as u64 + 1));
    VerifiedEvent {
        event_id: EventId { bytes: bytes(n) },
        event: Event {
            author,
            kind,
            aux_key: EventAuxKey { hi: 0, lo: 0 },
            singleton: false,
            deletes_parent_aux: false,
            parent_prev: None,
            parent_aux: None,
            timestamp: ts(1000 + n),
            content_len: payload.len() as u32,
            content_hash: ContentHash { bytes: bytes(sum) },
        },
        signature: Signature { r: bytes(0), s: bytes(0) },
    }
}

fn post_event(n: u64, author: RostraId, post: &SocialPost) -> VerifiedEvent {
    event(n, author, EventKind::SocialPost, &encode(post))
}

/// An empty event that deletes the payload of another.
fn deletion(n: u64, target: &VerifiedEvent) -> VerifiedEvent {
    let mut e = event(n, target.event.author, EventKind::SocialPost, &[]);
    e.event.parent_prev = Some(target.short_id());
    e.event.parent_aux = Some(target.short_id());
    e.event.deletes_parent_aux = true;
    e
}

/// Older payloads score less.
fn score(_: RetentionPolicy, _: EventId, _: RostraId, _: u32, age: Timestamp) -> (u64, u64) {
    (1 << 63, age.secs)
}

fn read_retained(_: &VerifiedEvent, raw: &Vec<u8>) -> Option<SocialPost> {
    decode(raw)
}

fn arrive(me: &Database, e: &VerifiedEvent, now: u64, db: &mut Tables<'_>) -> ProcessEventState {
    me.process_event_tx(e, ts(now), true, read_retained, &score, db).unwrap().1
}

fn deliver_post(
    me: &Database,
    e: &VerifiedEvent,
    post: &SocialPost,
    mentions_self: bool,
    now: u64,
    db: &mut Tables<'_>,
) -> (ContentOutcome, Vec<Action>) {
    let raw = encode(post);
    let payload = Payload::SocialPost { post: decode(&raw).unwrap(), mentions_self };
    me.process_event_content_tx(e, raw, payload, ts(now), &score, db).unwrap()
}

fn deliver_unreadable(me: &Database, e: &VerifiedEvent, raw: &[u8], db: &mut Tables<'_>) -> ContentOutcome {
    me.process_event_content_tx(e, raw.to_vec(), Payload::Unreadable, ts(1), &score, db).unwrap().0
}

fn state(db: &Tables<'_>, id: ShortEventId) -> Option<EventContentState> {
    Database::get_event_content_state_tx(id, &db.events_content_state).unwrap()
}

fn references(db: &Tables<'_>, e: &VerifiedEvent) -> u64 {
    Database::get_content_rc_tx(e.event.content_hash, &db.content_rc).unwrap()
}

fn usage(db: &Tables<'_>, author: RostraId) -> IdsDataUsageRecord {
    Database::get_data_usage_tx(author, &db.ids_data_usage).unwrap()
}

fn queue(db: &Tables<'_>) -> Vec<(Timestamp, ShortEventId)> {
    db.events_content_missing
        .collect(&(ts(0), ShortEventId::zero()), &(ts(u64::MAX), ShortEventId::max()))
        .unwrap()
        .into_iter()
        .map(|(k, _)| k)
        .collect()
}

fn replies(db: &Tables<'_>, id: ShortEventId) -> u64 {
    match Database::get_social_post_tx(id, &db.social_posts).unwrap() {
        Some(record) => record.reply_count,
        None => 0,
    }
}

#[test]
fn test_empty_content_event_skips_missing_state() {
    run(|db| {
        let me = account(7);
        let e = event(1, person(7), EventKind::SocialPost, &[]);
        arrive(&me, &e, 50, db);
        assert_eq!(state(db, e.short_id()), None);
        assert_eq!(references(db, &e), 1);
        assert!(!db.events_content_missing.contains(&(ts(0), e.short_id())).unwrap());
        let u = usage(db, person(7));
        assert_eq!(u.current_metadata_num, 1);
        assert_eq!(u.missing_payload_num, 0);
        assert_eq!(u.missing_payload_size, 0);
        assert_eq!(u.total_payload_num, 1);
        assert_eq!(u.total_content_size, 0);
        assert_eq!(u.current_payload_num, 1);
    });
}

#[test]
fn test_data_usage_new_payload_starts_missing() {
    run(|db| {
        let me = account(7);
        let e = event(1, person(7), EventKind::SocialPost, &[0; 500]);
        arrive(&me, &e, 50, db);
        let u = usage(db, person(7));
        assert_eq!(u.current_metadata_num, 1);
        assert_eq!(u.total_metadata_num, 1);
        assert_eq!(u.total_content_size, 500);
        assert_eq!(u.total_payload_num, 1);
        assert_eq!(u.missing_payload_size, 500);
        assert_eq!(u.missing_payload_num, 1);
        assert_eq!(u.current_content_size, 0);
        assert_eq!(u.current_payload_num, 0);
        assert_eq!(queue(db), vec![(ts(0), e.short_id())]);
    });
}

#[test]
fn test_data_usage_payload_processing() {
    run(|db| {
        let me = account(7);
        let post = text("Test post");
        let e = post_event(1, person(7), &post);
        let len = e.event.content_len as u64;
        arrive(&me, &e, 50, db);
        deliver_post(&me, &e, &post, false, 50, db);
        let u = usage(db, person(7));
        assert_eq!(u.missing_payload_size, 0);
        assert_eq!(u.missing_payload_num, 0);
        assert_eq!(u.current_content_size, len);
        assert_eq!(u.current_payload_num, 1);
        assert_eq!(u.total_content_size, len);
        assert_eq!(u.total_payload_num, 1);
        assert_eq!(
            db.content_store.get(&e.event.content_hash).unwrap(),
            Some(encode(&post))
        );
    });
}

#[test]
fn test_data_usage_payload_deletion() {
    run(|db| {
        let me = account(7);
        let post = text("Delete me");
        let e = post_event(1, person(7), &post);
        let len = e.event.content_len as u64;
        arrive(&me, &e, 50, db);
        deliver_post(&me, &e, &post, false, 50, db);
        arrive(&me, &deletion(2, &e), 50, db);
        let u = usage(db, person(7));
        assert_eq!(u.current_content_size, 0);
        assert_eq!(u.current_payload_num, 1);
        assert_eq!(u.deleted_payload_size, len);
        assert_eq!(u.deleted_payload_num, 1);
        assert_eq!(u.total_content_size, len);
        assert_eq!(u.total_payload_num, 2);
        assert_eq!(u.missing_payload_size, 0);
        assert_eq!(u.missing_payload_num, 0);
        assert_eq!(u.current_metadata_num, 2);
    });
}

#[test]
fn test_data_usage_missing_payload_deletion() {
    run(|db| {
        let me = account(7);
        let e = event(1, person(7), EventKind::SocialPost, &[0; 500]);
        arrive(&me, &e, 50, db);
        arrive(&me, &deletion(2, &e), 50, db);
        let u = usage(db, person(7));
        assert_eq!(u.missing_payload_size, 0);
        assert_eq!(u.missing_payload_num, 0);
        assert_eq!(u.deleted_payload_size, 500);
        assert_eq!(u.deleted_payload_num, 1);
        assert_eq!(u.current_content_size, 0);
        assert_eq!(u.current_payload_num, 1);
        assert_eq!(u.total_content_size, 500);
        assert_eq!(u.total_payload_num, 2);
    });
}

fn prune(e: &VerifiedEvent, db: &mut Tables<'_>) -> bool {
    Database::prune_event_content_tx(
        e.short_id(),
        e.event.content_hash,
        db,
        Some((e.event.author, e.event.content_len)),
    )
    .unwrap()
}

#[test]
fn test_data_usage_payload_pruning() {
    run(|db| {
        let me = account(7);
        let post = text("Prune me");
        let e = post_event(1, person(7), &post);
        let len = e.event.content_len as u64;
        arrive(&me, &e, 50, db);
        deliver_post(&me, &e, &post, false, 50, db);
        assert!(prune(&e, db));
        let u = usage(db, person(7));
        assert_eq!(u.current_content_size, 0);
        assert_eq!(u.current_payload_num, 0);
        assert_eq!(u.pruned_payload_size, len);
        assert_eq!(u.pruned_payload_num, 1);
        assert_eq!(u.total_content_size, len);
        assert_eq!(u.total_payload_num, 1);
        assert!(prune(&e, db));
        assert_eq!(usage(db, person(7)), u);
    });
}

#[test]
fn test_data_usage_unprocessed_payload_pruning() {
    run(|db| {
        let me = account(7);
        let e = event(1, person(7), EventKind::SocialPost, &[0; 500]);
        arrive(&me, &e, 50, db);
        assert!(prune(&e, db));
        let u = usage(db, person(7));
        assert_eq!(u.missing_payload_size, 0);
        assert_eq!(u.missing_payload_num, 0);
        assert_eq!(u.pruned_payload_size, 500);
        assert_eq!(u.pruned_payload_num, 1);
        assert_eq!(u.current_content_size, 0);
        assert_eq!(u.current_payload_num, 0);
        assert_eq!(u.total_content_size, 500);
        assert_eq!(u.total_payload_num, 1);
        assert!(queue(db).is_empty());
    });
}

#[test]
fn test_data_usage_payload_invalid() {
    run(|db| {
        let me = account(7);
        let e = event(1, person(7), EventKind::SocialPost, &[0; 500]);
        arrive(&me, &e, 50, db);
        assert_eq!(deliver_unreadable(&me, &e, &[0; 500], db), ContentOutcome::Invalid);
        let u = usage(db, person(7));
        assert_eq!(u.missing_payload_size, 0);
        assert_eq!(u.missing_payload_num, 0);
        assert_eq!(u.invalid_payload_size, 500);
        assert_eq!(u.invalid_payload_num, 1);
        assert_eq!(u.current_content_size, 0);
        assert_eq!(u.current_payload_num, 0);
        assert_eq!(u.total_content_size, 500);
        assert_eq!(u.total_payload_num, 1);
        assert!(!db.content_rc.contains(&e.event.content_hash).unwrap());
    });
}

#[test]
fn test_data_usage_invalid_payload_deletion() {
    run(|db| {
        let me = account(7);
        let e = event(1, person(7), EventKind::SocialPost, &[0; 500]);
        arrive(&me, &e, 50, db);
        deliver_unreadable(&me, &e, &[0; 500], db);
        arrive(&me, &deletion(2, &e), 50, db);
        let u = usage(db, person(7));
        assert_eq!(u.invalid_payload_size, 0);
        assert_eq!(u.invalid_payload_num, 0);
        assert_eq!(u.deleted_payload_size, 500);
        assert_eq!(u.deleted_payload_num, 1);
        assert_eq!(u.current_content_size, 0);
        assert_eq!(u.current_payload_num, 1);
        assert_eq!(u.total_content_size, 500);
        assert_eq!(u.total_payload_num, 2);
        assert!(!db.content_rc.contains(&e.event.content_hash).unwrap());
    });
}

const PERMUTATIONS: [[usize; 3]; 6] =
    [[0, 1, 2], [0, 2, 1], [1, 0, 2], [1, 2, 0], [2, 0, 1], [2, 1, 0]];

#[test]
fn test_deletion_is_monotone_across_delivery_permutations() {
    let post = text("monotone target");
    let target = post_event(1, person(7), &post);
    let deleter = deletion(2, &target);
    let mut ordinary = event(3, person(7), EventKind::SocialPost, &[]);
    ordinary.event.parent_prev = Some(target.short_id());
    let events = [deleter, ordinary, target];
    for order in PERMUTATIONS {
        run(|db| {
            let me = account(7);
            for i in order {
                arrive(&me, &events[i], 50, db);
            }
            deliver_post(&me, &target, &post, false, 50, db);
            assert_eq!(
                state(db, target.short_id()),
                Some(EventContentState::Deleted { deleted_by: deleter.short_id() })
            );
            assert_eq!(references(db, &target), 0);
            assert!(queue(db).is_empty());
            assert!(!Database::has_event_content_tx(
                target.short_id(),
                target.event.content_hash,
                &db.events_content_state,
                &db.content_store
            )
            .unwrap());
        });
    }
}

#[test]
fn test_direct_deleters_converge_across_delivery_permutations() {
    let post = text("canonical target");
    let target = post_event(1, person(7), &post);
    let mut first = deletion(2, &target);
    first.event.timestamp = ts(1_000);
    let mut second = deletion(3, &target);
    second.event.timestamp = ts(1_001);
    second.event.parent_prev = Some(first.short_id());
    let events = [first, second, target];
    for order in PERMUTATIONS {
        run(|db| {
            let me = account(7);
            for i in order {
                arrive(&me, &events[i], 50, db);
            }
            deliver_post(&me, &target, &post, false, 50, db);
            assert_eq!(
                state(db, target.short_id()),
                Some(EventContentState::Deleted { deleted_by: second.short_id() })
            );
            assert_eq!(references(db, &target), 0);
            assert!(queue(db).is_empty());
            assert!(!Database::has_event_content_tx(
                target.short_id(),
                target.event.content_hash,
                &db.events_content_state,
                &db.content_store
            )
            .unwrap());
            let read = Database::get_event_content_full_tx(
                target.short_id(),
                target.event.content_hash,
                &db.events_content_state,
                &db.content_store,
            );
            assert!(matches!(
                read,
                Ok(Some(EventContentResult::Deleted { deleted_by })) if deleted_by == second.short_id()
            ));
        });
    }
}

#[test]
fn test_deleter_attribution_update_does_not_repeat_reversion() {
    run(|db| {
        let me = account(7);
        let parent_post = text("parent");
        let parent = post_event(1, person(7), &parent_post);
        let mut reply_post = text("reply");
        reply_post.reply_to =
            Some(ExternalEventId { rostra_id: person(7), event_id: parent.short_id() });
        let reply = post_event(2, person(7), &reply_post);
        for (e, post) in [(&parent, &parent_post), (&reply, &reply_post)] {
            arrive(&me, e, 50, db);
            deliver_post(&me, e, post, false, 50, db);
        }
        assert_eq!(replies(db, parent.short_id()), 1);
        let mut winner = reply.short_id();
        for (n, at, wins) in [(3, 5_000, true), (4, 5_001, true), (5, 4_999, false)] {
            let mut d = deletion(n, &reply);
            d.event.timestamp = ts(at);
            arrive(&me, &d, 50, db);
            if wins {
                winner = d.short_id();
            }
            assert_eq!(
                state(db, reply.short_id()),
                Some(EventContentState::Deleted { deleted_by: winner })
            );
            assert_eq!(replies(db, parent.short_id()), 0);
        }
    });
}

#[test]
fn test_follow_unfollow_refollow_flow() {
    run(|db| {
        let me = account(7);
        let (a, b) = (person(7), person(8));
        for (n, unfollow) in [(1, false), (2, true), (3, false)] {
            let raw = vec![n as u8];
            let e = event(n, a, EventKind::Follow, &raw);
            Database::insert_event_tx(&e, db, true).unwrap();
            let follow = Follow { followee: b, unfollow, selector: vec![] };
            me.process_event_content_tx(&e, raw, Payload::Follow(follow), ts(50), &score, db).unwrap();
            assert_eq!(db.ids_followees.contains(&(a, b)).unwrap(), !unfollow);
            assert_eq!(db.ids_followers.contains(&(b, a)).unwrap(), !unfollow);
            assert_eq!(db.ids_unfollowed.contains(&(a, b)).unwrap(), n > 1);
        }
    });
}

#[test]
fn test_self_mention_detection() {
    run(|db| {
        let me = account(7);
        let (a, b) = (person(7), person(8));
        let own = post_event(3, a, &text("My own post"));
        let mut reply = text("Reply to A");
        reply.reply_to = Some(ExternalEventId { rostra_id: a, event_id: own.short_id() });
        let mut reply_mention = text("Hey, replying to you!");
        reply_mention.reply_to = reply.reply_to;
        let posts = [
            (1, b, text("Hello!"), true, true),
            (2, b, text("Just a regular post"), false, false),
            (3, a, text("My own post"), false, false),
            (4, a, text("I am!"), true, false),
            (5, b, reply, false, false),
            (6, b, reply_mention, true, true),
        ];
        for (n, author, post, mentions, _) in &posts {
            let e = post_event(*n, *author, post);
            arrive(&me, &e, 50, db);
            deliver_post(&me, &e, post, *mentions, 50, db);
        }
        let mut listed = vec![];
        for (n, author, post, _, expect) in &posts {
            let id = post_event(*n, *author, post).short_id();
            assert_eq!(Database::is_self_mention(id, db), *expect);
            assert_eq!(Database::read_self_mention_tx(id, db).unwrap(), *expect);
            if *expect {
                listed.push(id);
            }
        }
        assert_eq!(Database::get_self_mentions(db), listed);
    });
}

#[test]
fn test_content_processing_idempotency() {
    run(|db| {
        let me = account(7);
        let post = text("Test post");
        let e = post_event(1, person(7), &post);
        let mut answer = text("Reply");
        answer.reply_to = Some(ExternalEventId { rostra_id: person(7), event_id: e.short_id() });
        let reply = post_event(2, person(8), &answer);
        arrive(&me, &e, 50, db);
        assert!(matches!(state(db, e.short_id()), Some(EventContentState::Missing { .. })));
        let (outcome, _) = deliver_post(&me, &e, &post, false, 50, db);
        assert_eq!(outcome, ContentOutcome::Processed);
        assert_eq!(state(db, e.short_id()), None);
        arrive(&me, &reply, 50, db);
        assert!(matches!(state(db, reply.short_id()), Some(EventContentState::Missing { .. })));
        deliver_post(&me, &reply, &answer, false, 50, db);
        assert_eq!(state(db, reply.short_id()), None);
        assert_eq!(replies(db, e.short_id()), 1);
        let (outcome, actions) = deliver_post(&me, &reply, &answer, false, 50, db);
        assert_eq!(outcome, ContentOutcome::Skipped);
        assert!(actions.is_empty());
        assert_eq!(replies(db, e.short_id()), 1);
    });
}

#[test]
fn test_delete_while_unprocessed() {
    run(|db| {
        let me = account(7);
        let post = text("Test post");
        let e = post_event(1, person(7), &post);
        arrive(&me, &e, 50, db);
        assert_eq!(references(db, &e), 1);
        arrive(&me, &deletion(2, &e), 50, db);
        assert!(matches!(state(db, e.short_id()), Some(EventContentState::Deleted { .. })));
        assert_eq!(references(db, &e), 0);
        let (outcome, _) = deliver_post(&me, &e, &post, false, 50, db);
        assert_eq!(outcome, ContentOutcome::Deleted { is_edit: false });
        assert!(matches!(state(db, e.short_id()), Some(EventContentState::Deleted { .. })));
        assert!(!db.social_posts.contains(&e.short_id()).unwrap());
    });
}

#[test]
fn test_two_deletes_same_target() {
    run(|db| {
        let me = account(7);
        let e = post_event(1, person(7), &text("Test post"));
        let first = deletion(2, &e);
        let second = deletion(3, &e);
        arrive(&me, &e, 50, db);
        arrive(&me, &first, 50, db);
        assert_eq!(references(db, &e), 0);
        let before = usage(db, person(7));
        arrive(&me, &second, 50, db);
        assert_eq!(references(db, &e), 0);
        assert_eq!(
            state(db, e.short_id()),
            Some(EventContentState::Deleted { deleted_by: second.short_id() })
        );
        let after = usage(db, person(7));
        assert_eq!(after.deleted_payload_num, before.deleted_payload_num);
        assert_eq!(after.deleted_payload_size, before.deleted_payload_size);
    });
}

#[test]
fn test_prune_then_delete() {
    run(|db| {
        let me = account(7);
        let e = post_event(1, person(7), &text("Test post"));
        arrive(&me, &e, 50, db);
        Database::prune_event_content_tx(e.short_id(), e.event.content_hash, db, None).unwrap();
        assert_eq!(state(db, e.short_id()), Some(EventContentState::Pruned));
        assert_eq!(references(db, &e), 0);
        // The usage was left out above, so it is brought in line here.
        Database::track_payload_pruning_tx(
            person(7),
            e.event.content_len,
            Some(EventContentState::Missing {
                last_fetch_attempt: None,
                fetch_attempt_count: 0,
                next_fetch_attempt: ts(0),
            }),
            &mut db.ids_data_usage,
        )
        .unwrap();
        arrive(&me, &deletion(2, &e), 50, db);
        assert!(matches!(state(db, e.short_id()), Some(EventContentState::Deleted { .. })));
        assert_eq!(references(db, &e), 0);
    });
}

#[test]
fn test_delete_then_prune() {
    run(|db| {
        let me = account(7);
        let e = post_event(1, person(7), &text("Test post"));
        arrive(&me, &e, 50, db);
        arrive(&me, &deletion(2, &e), 50, db);
        assert!(matches!(state(db, e.short_id()), Some(EventContentState::Deleted { .. })));
        assert_eq!(references(db, &e), 0);
        assert!(!Database::prune_event_content_tx(e.short_id(), e.event.content_hash, db, None)
            .unwrap());
        assert!(matches!(state(db, e.short_id()), Some(EventContentState::Deleted { .. })));
        assert_eq!(references(db, &e), 0);
    });
}

#[test]
fn test_invalid_then_prune() {
    run(|db| {
        let me = account(7);
        let e = event(1, person(7), EventKind::SocialPost, &[0; 500]);
        arrive(&me, &e, 50, db);
        deliver_unreadable(&me, &e, &[0; 500], db);
        assert_eq!(state(db, e.short_id()), Some(EventContentState::Invalid));
        assert_eq!(references(db, &e), 0);
        assert!(!Database::prune_event_content_tx(e.short_id(), e.event.content_hash, db, None)
            .unwrap());
        assert_eq!(state(db, e.short_id()), Some(EventContentState::Invalid));
        assert_eq!(references(db, &e), 0);
    });
}

#[test]
fn test_predeleted_envelope_bookkeeping_converges() {
    for (author, is_self) in [(person(7), true), (person(8), false)] {
        let target = post_event(1, author, &text("deleted target payload"));
        let len = target.event.content_len as u64;
        let deleter = deletion(2, &target);
        for delete_first in [false, true] {
            run(|db| {
                let me = account(7);
                let order = if delete_first { [deleter, target] } else { [target, deleter] };
                arrive(&me, &order[0], 1, db);
                let mut u = IdsDataUsageRecord::default();
                u.current_metadata_size = 192;
                u.total_metadata_size = 192;
                u.current_metadata_num = 1;
                u.total_metadata_num = 1;
                u.total_payload_num = 1;
                if delete_first {
                    u.current_payload_num = 1;
                    assert_eq!(state(db, target.short_id()), None);
                    assert_eq!(references(db, &target), 0);
                    assert!(queue(db).is_empty());
                } else {
                    u.total_content_size = len;
                    u.missing_payload_size = len;
                    u.missing_payload_num = 1;
                    assert_eq!(
                        state(db, target.short_id()),
                        Some(EventContentState::Missing {
                            last_fetch_attempt: None,
                            fetch_attempt_count: 0,
                            next_fetch_attempt: ts(0),
                        })
                    );
                    assert_eq!(references(db, &target), 1);
                    assert_eq!(queue(db), vec![(ts(0), target.short_id())]);
                }
                assert_eq!(usage(db, author), u);
                arrive(&me, &order[1], 1, db);
                for e in [&target, &deleter] {
                    assert_eq!(db.events_self.contains(&e.short_id()).unwrap(), is_self);
                }
                let mut u = IdsDataUsageRecord::default();
                u.current_metadata_size = 384;
                u.total_metadata_size = 384;
                u.current_metadata_num = 2;
                u.total_metadata_num = 2;
                u.total_content_size = len;
                u.current_payload_num = 1;
                u.total_payload_num = 2;
                u.deleted_payload_size = len;
                u.deleted_payload_num = 1;
                assert_eq!(usage(db, author), u);
                assert!(!db.content_rc.contains(&target.event.content_hash).unwrap());
                assert!(queue(db).is_empty());
                assert_eq!(
                    state(db, target.short_id()),
                    Some(EventContentState::Deleted { deleted_by: deleter.short_id() })
                );
            });
        }
    }
}

#[test]
fn test_delete_processed_content() {
    run(|db| {
        let me = account(7);
        let post = text("Process then delete");
        let e = post_event(1, person(7), &post);
        let len = e.event.content_len as u64;
        arrive(&me, &e, 50, db);
        deliver_post(&me, &e, &post, false, 50, db);
        assert_eq!(state(db, e.short_id()), None);
        assert_eq!(references(db, &e), 1);
        arrive(&me, &deletion(2, &e), 50, db);
        assert!(matches!(state(db, e.short_id()), Some(EventContentState::Deleted { .. })));
        assert_eq!(references(db, &e), 0);
        let u = usage(db, person(7));
        assert_eq!(u.current_content_size, 0);
        assert_eq!(u.current_payload_num, 1);
        assert_eq!(u.deleted_payload_size, len);
        assert_eq!(u.deleted_payload_num, 1);
    });
}

#[test]
fn test_two_events_same_invalid_content() {
    run(|db| {
        let me = account(7);
        let a = event(1, person(7), EventKind::SocialPost, &[0; 300]);
        let b = event(2, person(7), EventKind::SocialPost, &[0; 300]);
        assert_eq!(a.event.content_hash, b.event.content_hash);
        arrive(&me, &a, 50, db);
        arrive(&me, &b, 50, db);
        assert_eq!(references(db, &a), 2);
        deliver_unreadable(&me, &a, &[0; 300], db);
        assert_eq!(references(db, &a), 1);
        deliver_unreadable(&me, &b, &[0; 300], db);
        assert_eq!(references(db, &a), 0);
        let u = usage(db, person(7));
        assert_eq!(u.invalid_payload_num, 2);
        assert_eq!(u.missing_payload_num, 0);
        assert_eq!(u.current_payload_num, 0);
    });
}

#[test]
fn test_process_content_for_nonexistent_event() {
    run(|db| {
        let me = account(7);
        let post = text("Test post");
        let e = post_event(1, person(7), &post);
        let (outcome, actions) = deliver_post(&me, &e, &post, false, 50, db);
        assert_eq!(outcome, ContentOutcome::Skipped);
        assert!(actions.is_empty());
        assert!(!Database::has_event_tx(e.short_id(), &db.events).unwrap());
        assert!(!db.social_posts.contains(&e.short_id()).unwrap());
    });
}

#[test]
fn test_content_length_limit_is_exclusive() {
    let max: u32 = 64;
    for separate_delivery in [false, true] {
        for len in [max - 1, max, max + 1] {
            let raw = redb::Database::builder()
                .create_with_backend(redb::backends::InMemoryBackend::new())
                .unwrap();
            let file = redb_bincode::Database::from(raw);
            let me = Database { self_id: person(7), db_init_time: ts(0), max_content_len: max };
            let raw = vec![0x5a; len as usize];
            let e = event(1, person(7), EventKind::Other(0), &raw);
            let exceeds = max <= len;
            let mut tx = file.begin_write().unwrap();
            let envelope = arrive(&me, &e, 50, &mut Tables::open(&tx).unwrap());
            let expect = if exceeds { ProcessEventState::Pruned } else { ProcessEventState::New };
            assert_eq!(envelope, expect);
            if separate_delivery {
                tx.commit().unwrap();
                tx = file.begin_write().unwrap();
            }
            let db = &mut Tables::open(&tx).unwrap();
            me.process_event_content_tx(&e, raw, Payload::Opaque, ts(50), &score, db).unwrap();
            assert_eq!(
                state(db, e.short_id()),
                if exceeds { Some(EventContentState::Pruned) } else { None }
            );
            assert!(queue(db).is_empty());
            assert_eq!(references(db, &e), !exceeds as u64);
            let u = usage(db, person(7));
            let (kept, given_up) = if exceeds { (0, len as u64) } else { (len as u64, 0) };
            assert_eq!(u.total_content_size, len as u64);
            assert_eq!(u.total_payload_num, 1);
            assert_eq!(u.current_content_size, kept);
            assert_eq!(u.current_payload_num, !exceeds as u64);
            assert_eq!(u.pruned_payload_size, given_up);
            assert_eq!(u.pruned_payload_num, exceeds as u64);
            assert_eq!(u.missing_payload_size, 0);
            assert_eq!(u.missing_payload_num, 0);
            assert_eq!(u.invalid_payload_size, 0);
            assert_eq!(u.invalid_payload_num, 0);
            assert_eq!(u.deleted_payload_size, 0);
            assert_eq!(u.deleted_payload_num, 0);
            assert_eq!(db.content_store.contains(&e.event.content_hash).unwrap(), !exceeds);
        }
    }
}

#[test]
fn test_process_social_vote_with_content() {
    run(|db| {
        let me = account(7);
        let target = ExternalEventId { rostra_id: person(8), event_id: ShortEventId::zero() };
        let aux_key = EventAuxKey { hi: 4, lo: 5 };
        let mut e = event(1, person(7), EventKind::SocialVote, &[1]);
        e.event.aux_key = aux_key;
        e.event.singleton = true;
        arrive(&me, &e, 50, db);
        let vote = SocialVote { reply_to: Some(target), value: SocialVoteValue::Up, aux_key };
        let (outcome, actions) =
            me.process_event_content_tx(&e, vec![1], Payload::SocialVote(vote), ts(50), &score, db).unwrap();
        assert_eq!(outcome, ContentOutcome::Processed);
        let cast = SocialVoteProjection { target, value: SocialVoteValue::Up };
        assert_eq!(
            actions,
            vec![Action::CountVote {
                vote: cast,
                author: person(7),
                order: e.event_order(),
                held: None,
                replaces: true,
            }]
        );
        let mut vote_again = |n: u64, at: u64, value: SocialVoteValue| {
            let mut again = event(n, person(7), EventKind::SocialVote, &[n as u8]);
            again.event.aux_key = aux_key;
            again.event.singleton = true;
            again.event.timestamp = ts(at);
            arrive(&me, &again, 60, db);
            let vote = SocialVote { reply_to: Some(target), value, aux_key };
            let payload = Payload::SocialVote(vote);
            let (_, actions) = me
                .process_event_content_tx(&again, vec![n as u8], payload, ts(60), &score, db)
                .unwrap();
            match actions[..] {
                [Action::CountVote { vote, held, replaces, .. }] => {
                    let key = (person(7), EventKind::SocialVote, aux_key);
                    let row = db.events_singletons_new.get(&key).unwrap().unwrap();
                    let counts = if replaces { Some(vote) } else { held };
                    assert_eq!(row.inner.social_vote, counts);
                    (held.map(|v| v.value), replaces)
                }
                _ => panic!("one vote is to be counted"),
            }
        };
        let at = e.event.timestamp.secs;
        let (up, down) = (SocialVoteValue::Up, SocialVoteValue::Down);
        assert_eq!(vote_again(2, at + 10, down), (Some(up), true));
        assert_eq!(vote_again(3, at + 5, up), (Some(down), false));
        assert_eq!(vote_again(4, at + 20, up), (Some(down), true));
        assert_eq!(Database::cast_vote(&e, vote), Some(cast));
        e.event.aux_key = EventAuxKey { hi: 4, lo: 6 };
        assert_eq!(Database::cast_vote(&e, vote), None);
        let nowhere = SocialVote { reply_to: None, value: SocialVoteValue::Down, aux_key };
        assert_eq!(Database::cast_vote(&e, nowhere), None);
    });
}

#[test]
fn payloads_of_each_kind_take_effect() {
    run(|db| {
        let me = account(7);
        let author = person(8);
        let node = IrohNodeId { bytes: bytes(40) };
        let announced = event(1, author, EventKind::NodeAnnouncement, &[1]);
        arrive(&me, &announced, 50, db);
        let payload = Payload::NodeAnnouncement(node);
        let (_, actions) =
            me.process_event_content_tx(&announced, vec![1], payload, ts(60), &score, db).unwrap();
        assert_eq!(actions, vec![Action::TrimNodes { author }]);
        let row = db.ids_nodes.get(&(author, node)).unwrap().unwrap();
        assert_eq!(row.announcement_ts, announced.event.timestamp);
        let profile = event(2, author, EventKind::SocialProfileUpdate, &[2]);
        arrive(&me, &profile, 50, db);
        let payload = Payload::SocialProfileUpdate(SocialProfileUpdate {
            display_name: "Ada".to_owned(),
            bio: "numbers".to_owned(),
            avatar: Some(("image/png".to_owned(), vec![9, 8])),
        });
        me.process_event_content_tx(&profile, vec![2], payload, ts(60), &score, db).unwrap();
        let kept = Database::get_social_profile_tx(author, &db.social_profiles).unwrap().unwrap();
        assert_eq!(kept.display_name, "Ada");
        assert_eq!(kept.bio, "numbers");
        assert_eq!(kept.avatar, Some(("image/png".to_owned(), vec![9, 8])));
        assert_eq!(kept.event_id, profile.short_id());
        let shout = event(3, author, EventKind::Shoutbox, &[3]);
        arrive(&me, &shout, 50, db);
        let (_, actions) =
            me.process_event_content_tx(&shout, vec![3], Payload::Shoutbox, ts(60), &score, db).unwrap();
        assert_eq!(actions, vec![Action::NewShoutbox { event_id: shout.short_id() }]);
        let message = event(4, author, EventKind::DirectMessage, &[4]);
        arrive(&me, &message, 50, db);
        let (_, actions) = me
            .process_event_content_tx(&message, vec![4], Payload::DirectMessage, ts(60), &score, db)
            .unwrap();
        assert_eq!(actions, vec![Action::DmPending]);
        assert_eq!(db.events_dm_pending.get(&message.short_id()).unwrap(), Some(None));
    });
}

#[test]
fn unreadable_payloads_are_told_from_faults() {
    run(|db| {
        let me = account(7);
        let e = event(1, person(8), EventKind::SocialPost, &[1]);
        assert!(matches!(
            me.process_event_content_inserted_tx(&e, Payload::Unreadable, ts(1), db),
            Err(ProcessEventError::Invalid)
        ));
        assert!(matches!(
            Database::process_event_content_reverted_tx(&e, &None, db),
            Err(ProcessEventError::Invalid)
        ));
        assert!(matches!(
            me.process_deleted_social_post_replacement_tx(&e, &None, db),
            Err(ProcessEventError::Invalid)
        ));
        let post = text("never applied");
        let mut reply = text("answer");
        let gone = post_event(2, person(8), &post).short_id();
        reply.reply_to = Some(ExternalEventId { rostra_id: person(8), event_id: gone });
        assert!(matches!(
            Database::process_event_content_reverted_tx(&e, &Some(reply), db),
            Err(ProcessEventError::Db(DbError::Overflow))
        ));
    });
}

#[test]
fn retention_origins_are_immutable_and_replay_is_not_receipt() {
    run(|db| {
        let me = account(7);
        let post = text("future");
        let mut future = post_event(1, person(7), &post);
        future.event.timestamp = ts(500);
        arrive(&me, &future, 100, db);
        let origins = |db: &Tables<'_>, e: &VerifiedEvent| {
            db.events_retention_origins.get(&e.short_id()).unwrap()
        };
        assert_eq!(
            origins(db, &future),
            Some(RetentionOrigins { effective_timestamp: ts(100), materialized_at: None })
        );
        for now in [200, 50, u64::MAX] {
            arrive(&me, &future, now, db);
            deliver_post(&me, &future, &post, false, now, db);
            assert_eq!(
                origins(db, &future),
                Some(RetentionOrigins {
                    effective_timestamp: ts(100),
                    materialized_at: Some(ts(200))
                })
            );
        }
        let past = text("historical");
        let mut historical = post_event(2, person(7), &past);
        historical.event.timestamp = ts(10);
        arrive(&me, &historical, 300, db);
        deliver_post(&me, &historical, &past, false, 300, db);
        assert_eq!(
            origins(db, &historical),
            Some(RetentionOrigins { effective_timestamp: ts(10), materialized_at: Some(ts(300)) })
        );
        let untracked = event(3, person(7), EventKind::SocialPost, &[]);
        me.process_event_tx(&untracked, ts(400), false, read_retained, &score, db).unwrap();
        assert_eq!(origins(db, &untracked), None);
        let empty = event(4, person(7), EventKind::SocialPost, &[]);
        arrive(&me, &empty, 400, db);
        assert_eq!(
            origins(db, &empty),
            Some(RetentionOrigins { effective_timestamp: ts(400), materialized_at: Some(ts(400)) })
        );
    });
}

#[test]
fn a_decision_on_record_is_applied_to_an_event_that_comes_again() {
    run(|db| {
        let me = account(7);
        let e = post_event(1, person(8), &text("kept out"));
        let decision =
            QuotaPruneDecision { reason: QuotaPruneReason::GlobalQuota, pruned_at: ts(9) };
        db.events_quota_pruned.insert(&e.short_id(), &decision).unwrap();
        assert_eq!(arrive(&me, &e, 50, db), ProcessEventState::Pruned);
        assert_eq!(state(db, e.short_id()), Some(EventContentState::Pruned));
        assert!(queue(db).is_empty());
    });
}

#[test]
fn events_ask_for_what_follows_from_them() {
    run(|db| {
        let me = account(7);
        let mut own = post_event(2, person(7), &text("own"));
        own.event.parent_prev = Some(post_event(1, person(7), &text("lost")).short_id());
        let (outcome, state, actions) =
            me.process_event_tx(&own, ts(50), true, read_retained, &score, db).unwrap();
        assert!(matches!(
            outcome,
            InsertEventOutcome::Inserted { was_missing: false, is_deleted: false, .. }
        ));
        assert_eq!(state, ProcessEventState::New);
        assert_eq!(
            actions,
            vec![
                Action::NewHead { author: person(7), event_id: own.short_id() },
                Action::SelfHead { head: Some(own.short_id()) },
                Action::MissingEvents { author: person(7) },
                Action::ContentMissing,
            ]
        );
        let (outcome, state, actions) =
            me.process_event_tx(&own, ts(51), true, read_retained, &score, db).unwrap();
        assert!(matches!(outcome, InsertEventOutcome::AlreadyPresent));
        assert_eq!(state, ProcessEventState::Existing);
        assert!(actions.is_empty());
    });
}

fn told(me: &Database, e: &VerifiedEvent, db: &mut Tables<'_>) -> Vec<Action> {
    me.process_event_tx(e, ts(50), true, read_retained, &score, db).unwrap().2
}

#[test]
fn test_new_heads_broadcast() {
    run(|db| {
        let e = post_event(1, person(7), &text("Test post"));
        let head = Action::NewHead { author: person(7), event_id: e.short_id() };
        assert!(told(&account(7), &e, db).contains(&head));
    });
}

#[test]
fn test_new_heads_broadcast_not_for_non_head() {
    run(|db| {
        let me = account(7);
        let parent = post_event(1, person(7), &text("Parent post"));
        let mut child = post_event(2, person(7), &text("Child post"));
        child.event.parent_prev = Some(parent.short_id());
        told(&me, &child, db);
        let actions = told(&me, &parent, db);
        assert!(!actions.iter().any(|a| matches!(a, Action::NewHead { .. })));
    });
}

#[test]
fn test_self_head_updated_broadcast() {
    run(|db| {
        let e = post_event(1, person(7), &text("Self post"));
        let head = Action::SelfHead { head: Some(e.short_id()) };
        assert!(told(&account(7), &e, db).contains(&head));
    });
}

#[test]
fn test_self_head_updated_not_for_others() {
    run(|db| {
        let e = post_event(1, person(8), &text("Other user post"));
        let actions = told(&account(7), &e, db);
        assert!(!actions.iter().any(|a| matches!(a, Action::SelfHead { .. })));
    });
}

#[test]
fn test_new_posts_broadcast() {
    run(|db| {
        let me = account(7);
        let post = text("Test social post");
        let e = post_event(1, person(7), &post);
        arrive(&me, &e, 50, db);
        let (_, actions) = deliver_post(&me, &e, &post, false, 50, db);
        assert_eq!(actions, vec![Action::NewPost { event_id: e.short_id() }]);
        let kept = db.content_store.get(&e.event.content_hash).unwrap().unwrap();
        assert_eq!(decode(&kept).unwrap().djot_content, post.djot_content);
    });
}

fn follow(me: &Database, n: u64, author: RostraId, followee: RostraId, db: &mut Tables<'_>) -> Vec<Action> {
    let raw = vec![n as u8];
    let e = event(n, author, EventKind::Follow, &raw);
    arrive(me, &e, 50, db);
    let payload = Payload::Follow(Follow { followee, unfollow: false, selector: vec![] });
    me.process_event_content_tx(&e, raw, payload, ts(50), &score, db).unwrap().1
}

#[test]
fn test_self_followees_watch_channel() {
    run(|db| {
        let me = account(7);
        let before = Database::read_followees_tx(person(7), &db.ids_followees).unwrap();
        assert!(before.is_empty());
        let actions = follow(&me, 1, person(7), person(8), db);
        assert!(actions.contains(&Action::SelfFolloweesChanged));
        let after = Database::read_followees_tx(person(7), &db.ids_followees).unwrap();
        let after: Vec<RostraId> = after.into_iter().map(|(id, _)| id).collect();
        assert_eq!(after, vec![person(8)]);
    });
}

#[test]
fn test_self_followers_watch_channel() {
    run(|db| {
        let me = account(7);
        let before = Database::read_followers_tx(person(7), &db.ids_followers).unwrap();
        assert!(before.is_empty());
        let actions = follow(&me, 1, person(8), person(7), db);
        assert_eq!(actions, vec![Action::SelfFollowersChanged]);
        let after = Database::read_followers_tx(person(7), &db.ids_followers).unwrap();
        let after: Vec<RostraId> = after.into_iter().map(|(id, _)| id).collect();
        assert_eq!(after, vec![person(8)]);
    });
}

#[test]
fn test_self_wot_watch_channel() {
    run(|db| {
        let me = account(7);
        let actions = follow(&me, 1, person(7), person(8), db);
        assert!(actions.contains(&Action::SelfWotChanged));
        let direct = Database::read_followees_tx(person(7), &db.ids_followees).unwrap();
        let wot = Database::compute_wot_tx(person(7), direct, &db.ids_followees).unwrap();
        assert_eq!(wot.followees.len(), 1);
        assert_eq!(wot.followees[0].0, person(8));
        assert!(wot.extended.is_empty());
        let actions = follow(&me, 2, person(8), person(9), db);
        assert_eq!(actions, vec![Action::SelfWotChanged]);
        assert!(follow(&me, 3, person(20), person(21), db).is_empty());
    });
}

#[test]
fn payloads_are_expected_only_while_they_are_missing() {
    run(|db| {
        let me = account(7);
        let post = text("waited for");
        let e = post_event(1, person(8), &post);
        let expected = |db: &Tables<'_>| {
            Database::can_insert_event_content_tx(&e, &db.events_content_state).unwrap()
        };
        arrive(&me, &e, 50, db);
        assert!(expected(db));
        prune(&e, db);
        assert!(!expected(db));
    });
}

#[test]
fn retention_aborted_ingestion_does_not_consume_origins() {
    let raw = redb::Database::builder()
        .create_with_backend(redb::backends::InMemoryBackend::new())
        .unwrap();
    let file = redb_bincode::Database::from(raw);
    let me = account(7);
    let post = text("abort");
    let mut e = post_event(1, person(7), &post);
    e.event.timestamp = ts(500);
    {
        let tx = file.begin_write().unwrap();
        let mut db = Tables::open(&tx).unwrap();
        arrive(&me, &e, 100, &mut db);
        deliver_post(&me, &e, &post, false, 100, &mut db);
        assert!(db.events_retention_origins.contains(&e.short_id()).unwrap());
    }
    let tx = file.begin_write().unwrap();
    {
        let mut db = Tables::open(&tx).unwrap();
        assert_eq!(db.events_retention_origins.get(&e.short_id()).unwrap(), None);
        arrive(&me, &e, 200, &mut db);
        deliver_post(&me, &e, &post, false, 200, &mut db);
    }
    tx.commit().unwrap();
    let tx = file.begin_write().unwrap();
    let db = Tables::open(&tx).unwrap();
    assert_eq!(
        db.events_retention_origins.get(&e.short_id()).unwrap(),
        Some(RetentionOrigins { effective_timestamp: ts(200), materialized_at: Some(ts(200)) })
    );
}

#[test]
fn a_blank_edit_only_deletes() {
    for (body, shows) in [(" \n ", false), ("new text", true)] {
        run(|db| {
            let me = account(7);
            let first = text("first");
            let e = post_event(1, person(8), &first);
            arrive(&me, &e, 50, db);
            deliver_post(&me, &e, &first, false, 50, db);
            let next = text(body);
            let mut edit = post_event(2, person(8), &next);
            edit.event.parent_aux = Some(e.short_id());
            edit.event.deletes_parent_aux = true;
            arrive(&me, &edit, 60, db);
            let (outcome, actions) = deliver_post(&me, &edit, &next, false, 60, db);
            assert_eq!(outcome, ContentOutcome::Processed);
            assert_eq!(actions.is_empty(), !shows);
            let by_time = (edit.event.timestamp, edit.short_id());
            assert_eq!(db.social_posts_by_time.contains(&by_time).unwrap(), shows);
            let lineage = (person(8), e.short_id(), edit.short_id());
            assert_eq!(db.social_posts_replaced_by.contains(&lineage).unwrap(), shows);
            assert!(matches!(state(db, e.short_id()), Some(EventContentState::Deleted { .. })));
        });
    }
}

#[test]
fn a_reading_that_fails_counts_as_none() {
    let failed = || -> Result<bool, DbError> {
        Err(DbError::Row(redb::StorageError::ValueTooLarge(1)))
    };
    assert!(Database::mention_read(Ok(true)));
    assert!(!Database::mention_read(Ok(false)));
    assert!(!Database::mention_read(failed()));
    let id = ShortEventId::zero();
    assert_eq!(Database::mentions_read(Ok(vec![id])), vec![id]);
    assert!(Database::mentions_read(Err(failed().unwrap_err())).is_empty());
    let me = Database { self_id: person(7), db_init_time: ts(100), max_content_len: 1_000 };
    let began = |read| me.received_at_given(person(8), ts(50), ts(500), read);
    assert_eq!(began(Ok(Some(ts(51)))), ts(50));
    assert_eq!(began(Ok(Some(ts(50)))), ts(500));
    assert_eq!(began(Ok(None)), ts(500));
    assert_eq!(began(Err(failed().unwrap_err())), ts(500));
    assert_eq!(me.received_at_given(person(7), ts(50), ts(500), Ok(Some(ts(51)))), ts(500));
    assert_eq!(me.received_at_given(person(8), ts(100), ts(500), Ok(Some(ts(200)))), ts(500));
}
