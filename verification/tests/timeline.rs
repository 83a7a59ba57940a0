//! Reading posts: pages, versions, receipts and personas.

use std::cell::{Cell, RefCell};

use rostra_client_db::database::Database;
use rostra_client_db::error::DbError;
use rostra_client_db::event::{Event, EventContentState, EventKind, Signature, VerifiedEvent};
use rostra_client_db::ids::{
    Bytes32, ContentHash, EventAuxKey, EventId, EventOrder, ExternalEventId, PersonaId, RostraId,
    ShortEventId, Timestamp,
};
use rostra_client_db::merging::paginate_social_post_index_rev;
use rostra_client_db::payload::{Action, Payload, SocialPost};
use rostra_client_db::process_content::ContentOutcome;
use rostra_client_db::process_event::ProcessEventState;
use rostra_client_db::profile::IdsPersonaRecord;
use rostra_client_db::retention::RetentionPolicy;
use rostra_client_db::social::{
    EventContentAvailability, EventPaginationCursor, ReceivedAtPaginationCursor, SocialPostRecord,
};
use rostra_client_db::tables::{
    ReceiptKey, SocialPostsReactionsRecord, SocialPostsRepliesRecord, Tables,
};

fn run(f: impl FnOnce(&mut Tables<'_>)) {
    let raw = redb::Database::builder()
        .create_with_backend(redb::backends::InMemoryBackend::new())
        .unwrap();
    let db = redb_bincode::Database::from(raw);
    let tx = db.begin_write().unwrap();
    let mut tables = Tables::open(&tx).unwrap();
    f(&mut tables);
}

fn bytes(n: u64) -> Bytes32 {
    Bytes32 { a: n, b: n, c: n, d: n }
}

fn person(n: u64) -> RostraId {
    RostraId { bytes: bytes(n) }
}

fn ts(secs: u64) -> Timestamp {
    Timestamp { secs }
}

fn account(n: u64) -> Database {
    Database { self_id: person(n), db_init_time: ts(0), max_content_len: 1_000_000 }
}

fn text(body: &str) -> SocialPost {
    SocialPost {
        djot_content: Some(body.to_owned()),
        reaction: None,
        reply_to: None,
        news: false,
        persona_tags: vec![],
    }
}

fn push_text(out: &mut Vec<u8>, text: &Option<String>) {
    match text {
        Some(t) => {
            out.push(1);
            out.push(t.len() as u8);
            out.extend_from_slice(t.as_bytes());
        }
        None => out.push(0),
    }
}

fn take_text(rest: &mut &[u8]) -> Option<Option<String>> {
    let tail: &[u8] = rest;
    match tail.first()? {
        0 => {
            *rest = &tail[1..];
            Some(None)
        }
        1 => {
            let n = *tail.get(1)? as usize;
            let body = tail.get(2..2 + n)?.to_vec();
            *rest = &tail[2 + n..];
            Some(Some(String::from_utf8(body).ok()?))
        }
        _ => None,
    }
}

/// The bytes of a post.
fn encode(post: &SocialPost) -> Vec<u8> {
    let mut out = vec![80, post.news as u8];
    push_text(&mut out, &post.djot_content);
    push_text(&mut out, &post.reaction);
    match post.reply_to {
        Some(to) => {
            out.push(1);
            for w in [
                to.rostra_id.bytes.a,
                to.rostra_id.bytes.b,
                to.rostra_id.bytes.c,
                to.rostra_id.bytes.d,
                to.event_id.hi,
                to.event_id.lo,
            ] {
                out.extend_from_slice(&w.to_be_bytes());
            }
        }
        None => out.push(0),
    }
    for tag in &post.persona_tags {
        push_text(&mut out, &Some(tag.clone()));
    }
    out
}

/// The post that bytes hold.
fn decode(raw: &Vec<u8>) -> Option<SocialPost> {
    let mut rest: &[u8] = raw.get(2..)?;
    if raw[0] != 80 {
        return None;
    }
    let djot_content = take_text(&mut rest)?;
    let reaction = take_text(&mut rest)?;
    let reply_to = match rest.first()? {
        0 => {
            rest = &rest[1..];
            None
        }
        _ => {
            let mut w = [0u64; 6];
            for (i, word) in w.iter_mut().enumerate() {
                *word = u64::from_be_bytes(rest.get(1 + 8 * i..9 + 8 * i)?.try_into().ok()?);
            }
            rest = &rest[49..];
            Some(ExternalEventId {
                rostra_id: RostraId { bytes: Bytes32 { a: w[0], b: w[1], c: w[2], d: w[3] } },
                event_id: ShortEventId { hi: w[4], lo: w[5] },
            })
        }
    };
    let mut persona_tags = vec![];
    while !rest.is_empty() {
        persona_tags.push(take_text(&mut rest)??);
    }
    Some(SocialPost { djot_content, reaction, reply_to, news: raw[1] == 1, persona_tags })
}

/// An event with a payload; equal payloads have equal hashes.
fn event(n: u64, author: RostraId, kind: EventKind, payload: &[u8]) -> VerifiedEvent {
    let sum = payload.iter().fold(17u64, |s, b| s.wrapping_mul(31).wrapping_add(*b as u64 + 1));
    VerifiedEvent {
        event_id: EventId { bytes: bytes(n) },
        event: Event {
            author,
            kind,
            aux_key: EventAuxKey { hi: 0, lo: 0 },
            singleton: false,
            deletes_parent_aux: false,
            parent_prev: None,
            parent_aux: None,
            timestamp: ts(1000 + n),
            content_len: payload.len() as u32,
            content_hash: ContentHash { bytes: bytes(sum) },
        },
        signature: Signature { r: bytes(0), s: bytes(0) },
    }
}

fn post_event(n: u64, author: RostraId, post: &SocialPost) -> VerifiedEvent {
    event(n, author, EventKind::SocialPost, &encode(post))
}

/// An empty event that deletes the payload of another.
fn deletion(n: u64, target: &VerifiedEvent) -> VerifiedEvent {
    let mut e = event(n, target.event.author, EventKind::SocialPost, &[]);
    e.event.parent_prev = Some(target.short_id());
    e.event.parent_aux = Some(target.short_id());
    e.event.deletes_parent_aux = true;
    e
}

/// Older payloads score less.
fn score(_: RetentionPolicy, _: EventId, _: RostraId, _: u32, age: Timestamp) -> (u64, u64) {
    (1 << 63, age.secs)
}

fn read_retained(_: &VerifiedEvent, raw: &Vec<u8>) -> Option<SocialPost> {
    decode(raw)
}

fn arrive(me: &Database, e: &VerifiedEvent, now: u64, db: &mut Tables<'_>) -> ProcessEventState {
    me.process_event_tx(e, ts(now), true, read_retained, &score, db).unwrap().1
}

fn deliver_post(
    me: &Database,
    e: &VerifiedEvent,
    post: &SocialPost,
    mentions_self: bool,
    now: u64,
    db: &mut Tables<'_>,
) -> (ContentOutcome, Vec<Action>) {
    let raw = encode(post);
    let payload = Payload::SocialPost { post: decode(&raw).unwrap(), mentions_self };
    me.process_event_content_tx(e, raw, payload, ts(now), &score, db).unwrap()
}

fn state(db: &Tables<'_>, id: ShortEventId) -> Option<EventContentState> {
    Database::get_event_content_state_tx(id, &db.events_content_state).unwrap()
}

fn publish(
    me: &Database,
    n: u64,
    author: RostraId,
    at: u64,
    received: u64,
    post: &SocialPost,
    db: &mut Tables<'_>,
) -> VerifiedEvent {
    let mut e = post_event(n, author, post);
    e.event.timestamp = ts(at);
    arrive(me, &e, received, db);
    deliver_post(me, &e, post, false, received, db);
    e
}

fn ids(records: &[SocialPostRecord<SocialPost>]) -> Vec<ShortEventId> {
    records.iter().map(|r| r.event_id).collect()
}

fn stream(entries: &[(u64, u64)]) -> Vec<EventOrder> {
    entries
        .iter()
        .map(|(t, n)| EventOrder { timestamp: ts(*t), event_id: ShortEventId { hi: *n, lo: *n } })
        .collect()
}

#[test]
fn metadata_merge_stops_loading_when_page_is_full() {
    let streams = vec![
        stream(&[(9, 1), (6, 1), (3, 1)]),
        stream(&[(8, 2), (5, 2), (2, 2)]),
        stream(&[(7, 3), (4, 3), (1, 3)]),
    ];
    let loads = Cell::new(0);
    let records = paginate_social_post_index_rev(&streams, 2, |t, id| {
        loads.set(loads.get() + 1);
        Ok(Some((t, id)))
    })
    .unwrap();
    assert_eq!(loads.get(), 2);
    assert_eq!(
        records,
        vec![(ts(9), ShortEventId { hi: 1, lo: 1 }), (ts(8), ShortEventId { hi: 2, lo: 2 })]
    );
}

#[test]
fn metadata_merge_skips_unreadable_candidates_and_zero_limit_loads_none() {
    let loads = RefCell::new(vec![]);
    let streams = vec![stream(&[(9, 1), (7, 1)]), stream(&[(8, 2), (6, 2)])];
    let records = paginate_social_post_index_rev(&streams, 2, |t, id| {
        loads.borrow_mut().push((t, id));
        Ok(if t != ts(9) && t != ts(7) { Some((t, id)) } else { None })
    })
    .unwrap();
    assert_eq!(records.len(), 2);
    let seen: Vec<Timestamp> = loads.borrow().iter().map(|(t, _)| *t).collect();
    assert_eq!(seen, vec![ts(9), ts(8), ts(7), ts(6)]);
    let zero = Cell::new(0);
    let records = paginate_social_post_index_rev(&vec![stream(&[(9, 1)])], 0, |_, _| {
        zero.set(zero.get() + 1);
        Ok(Some(()))
    })
    .unwrap();
    assert!(records.is_empty());
    assert_eq!(zero.get(), 0);
}

#[test]
fn a_failed_load_ends_the_merge() {
    let streams = vec![stream(&[(9, 1), (7, 1)])];
    let res = paginate_social_post_index_rev(&streams, 5, |t, _| {
        if t == ts(7) {
            Err(DbError::Overflow)
        } else {
            Ok(Some(t))
        }
    });
    assert!(matches!(res, Err(DbError::Overflow)));
}

fn answers(reaction: bool) {
    run(|db| {
        let me = account(41);
        let author = person(41);
        let original = publish(&me, 1, author, 10, 100, &text("original"), db);
        let mut edited = post_event(2, author, &text("edited"));
        edited.event.timestamp = ts(20);
        edited.event.parent_aux = Some(original.short_id());
        edited.event.deletes_parent_aux = true;
        arrive(&me, &edited, 100, db);
        deliver_post(&me, &edited, &text("edited"), false, 100, db);
        let targets = [original.short_id(), edited.short_id()];
        let mut expected = vec![];
        for (i, at) in [40u64, 60, 50, 50].into_iter().enumerate() {
            let mut post = text(&format!("comment {i}"));
            if reaction {
                post.djot_content = None;
                post.reaction = Some("👍".to_owned());
            }
            post.reply_to =
                Some(ExternalEventId { rostra_id: author, event_id: targets[i % 2] });
            let e = publish(&me, 50 + i as u64, person(50 + i as u64), at, 100, &post, db);
            expected.push((at, e.short_id().hi, e.short_id()));
        }
        expected.sort_by_key(|(at, hi, _)| (*at, *hi));
        expected.reverse();
        let expected: Vec<(Timestamp, ShortEventId)> =
            expected.into_iter().map(|(at, _, id)| (ts(at), id)).collect();
        let (newest, middle) = (ShortEventId { hi: 254, lo: 254 }, ShortEventId { hi: 253, lo: 253 });
        let (first_row, second_row) = ((targets[1], ts(70), newest), (targets[0], ts(55), middle));
        if reaction {
            db.social_posts_reactions.insert(&first_row, &SocialPostsReactionsRecord).unwrap();
            db.social_posts_reactions.insert(&second_row, &SocialPostsReactionsRecord).unwrap();
        } else {
            db.social_posts_replies.insert(&first_row, &SocialPostsRepliesRecord).unwrap();
            db.social_posts_replies.insert(&second_row, &SocialPostsRepliesRecord).unwrap();
        }
        let page = |cursor, limit| {
            if reaction {
                Database::paginate_social_post_reactions_rev(targets[1], cursor, limit, &decode, db)
                    .unwrap()
            } else {
                Database::paginate_social_post_comments_rev(targets[1], cursor, limit, &decode, db)
                    .unwrap()
            }
        };
        let places = |records: &[SocialPostRecord<SocialPost>]| -> Vec<(Timestamp, ShortEventId)> {
            records.iter().map(|r| (r.ts, r.event_id)).collect()
        };
        let (records, cursor) = page(None, 2);
        assert_eq!(places(&records), expected[..2]);
        let at = |i: usize| {
            Some(EventPaginationCursor { ts: expected[i].0, event_id: expected[i].1 })
        };
        assert_eq!(cursor, at(1));
        let (records, cursor) = page(cursor, 10);
        assert_eq!(places(&records), expected[2..]);
        assert_eq!(cursor, at(3));
        let (records, cursor) = page(cursor, 10);
        assert!(records.is_empty());
        assert_eq!(cursor, None);
        let (records, cursor) = page(None, 0);
        assert!(records.is_empty());
        assert_eq!(cursor, None);
        for n in 1..5 {
            for m in 0..5 {
                let (first, middle) = page(None, n);
                let (second, _) = page(middle, m);
                let (whole, _) = page(None, n + m);
                assert_eq!([places(&first), places(&second)].concat(), places(&whole));
            }
        }
    });
}

#[test]
fn comment_pages_merge_historical_versions_with_exclusive_cursors() {
    answers(false);
}

#[test]
fn reaction_pages_merge_historical_versions_with_exclusive_cursors() {
    answers(true);
}

#[test]
fn test_social_posts_by_received_at_pagination() {
    run(|db| {
        let me = account(7);
        let (a, b) = (person(7), person(8));
        let b1 = publish(&me, 1, b, 1001, 100, &text("Post by B"), db);
        let mut reply = text("Reply from A to B");
        reply.reply_to = Some(ExternalEventId { rostra_id: b, event_id: b1.short_id() });
        let a1 = publish(&me, 2, a, 1002, 200, &reply, db);
        let b2 = publish(&me, 3, b, 1003, 300, &text("Second post by B"), db);
        let all = |_: &SocialPostRecord<SocialPost>| true;
        let (posts, _) =
            Database::paginate_social_posts_by_received_at_rev(None, 10, &all, &decode, db).unwrap();
        assert_eq!(ids(&posts), vec![b2.short_id(), a1.short_id(), b1.short_id()]);
        let (posts, _) =
            Database::paginate_social_posts_by_received_at(None, 10, &all, &decode, db).unwrap();
        assert_eq!(ids(&posts), vec![b1.short_id(), a1.short_id(), b2.short_id()]);
        assert_eq!(posts[0].reply_count, 1);
        assert_eq!(posts[0].content.djot_content, Some("Post by B".to_owned()));
        let to_a = |r: &SocialPostRecord<SocialPost>| {
            r.author != a && r.reply_to.map(|to| to.rostra_id) == Some(a)
        };
        let (posts, _) =
            Database::paginate_social_posts_by_received_at_rev(None, 10, &to_a, &decode, db).unwrap();
        assert!(posts.is_empty());
        let (posts, next) = Database::paginate_social_posts(None, 2, &all, &decode, db).unwrap();
        assert_eq!(ids(&posts), vec![b1.short_id(), a1.short_id()]);
        let (posts, next) = Database::paginate_social_posts(next, 2, &all, &decode, db).unwrap();
        assert_eq!(ids(&posts), vec![b2.short_id()]);
        assert_eq!(next, None);
        let (posts, next) = Database::paginate_social_posts_rev(None, 2, &all, &decode, db).unwrap();
        assert_eq!(ids(&posts), vec![b2.short_id(), a1.short_id()]);
        let (posts, next) = Database::paginate_social_posts_rev(next, 2, &all, &decode, db).unwrap();
        assert_eq!(ids(&posts), vec![b1.short_id()]);
        assert_eq!(next, None);
        let found = Database::get_posts_by_id(
            &vec![b2.short_id(), ShortEventId::max(), b1.short_id()],
            &decode,
            db,
        )
        .unwrap();
        let found: Vec<ShortEventId> = found.into_iter().map(|(id, _)| id).collect();
        assert_eq!(found, vec![b2.short_id(), b1.short_id()]);
    });
}

fn receipts(db: &Tables<'_>) -> Vec<(u64, u64, ShortEventId)> {
    let rows = db
        .social_posts_by_received_at
        .collect(&(ts(0), 0), &(ts(u64::MAX), u64::MAX))
        .unwrap();
    for ((at, order), id) in &rows {
        assert_eq!(
            db.social_posts_received_at_keys.get(id).unwrap(),
            Some(ReceiptKey { received_at: *at, order: *order })
        );
    }
    rows.into_iter().map(|((at, order), id)| (at.secs, order, id)).collect()
}

#[test]
fn social_receipt_reversion_updates_cursors_without_reusing_order() {
    run(|db| {
        let me = account(87);
        let author = person(87);
        let old = publish(&me, 1, author, 100, 700, &text("old"), db);
        let removed = publish(&me, 2, author, 101, 900, &text("removed"), db);
        assert_eq!(receipts(db), vec![(700, 1, old.short_id()), (900, 3, removed.short_id())]);
        assert_eq!(db.reception_order_next.get(&()).unwrap(), Some(4));
        let mut deleter = deletion(3, &removed);
        deleter.event.timestamp = ts(103);
        deleter.event.kind = EventKind::Other(0);
        arrive(&me, &deleter, 950, db);
        arrive(&me, &deleter, 950, db);
        assert_eq!(receipts(db), vec![(700, 1, old.short_id())]);
        assert!(!db.social_posts_received_at_keys.contains(&removed.short_id()).unwrap());
        assert_eq!(db.reception_order_next.get(&()).unwrap(), Some(5));
        let at = |t: u64, seq: u64| Some(ReceivedAtPaginationCursor { ts: ts(t), seq });
        assert_eq!(Database::get_latest_social_post_received_at_cursor(db).unwrap(), at(700, 1));
        let later = publish(&me, 4, author, 102, 900, &text("later"), db);
        assert_eq!(receipts(db), vec![(700, 1, old.short_id()), (900, 6, later.short_id())]);
        assert_eq!(db.reception_order_next.get(&()).unwrap(), Some(7));
        assert_eq!(Database::get_latest_social_post_received_at_cursor(db).unwrap(), at(900, 6));
        let all = |_: &SocialPostRecord<SocialPost>| true;
        let (posts, next) =
            Database::paginate_social_posts_by_received_at(None, 1, &all, &decode, db).unwrap();
        assert_eq!(ids(&posts), vec![old.short_id()]);
        assert_eq!(next, at(900, 6));
        let (posts, next) =
            Database::paginate_social_posts_by_received_at_rev(None, 1, &all, &decode, db).unwrap();
        assert_eq!(ids(&posts), vec![later.short_id()]);
        assert_eq!(next, at(700, 1));
    });
}

/// The reception rows of both directions and the next order.
type Receipts = (Vec<((u64, u64), ShortEventId)>, Vec<(ShortEventId, (u64, u64))>, Option<u64>);

fn receipt_rows(db: &Tables<'_>) -> Receipts {
    let rows = db
        .social_posts_by_received_at
        .collect(&(ts(0), 0), &(ts(u64::MAX), u64::MAX))
        .unwrap();
    let keys = db
        .social_posts_received_at_keys
        .collect(&ShortEventId::zero(), &ShortEventId::max())
        .unwrap();
    (
        rows.into_iter().map(|((at, order), id)| ((at.secs, order), id)).collect(),
        keys.into_iter().map(|(id, key)| (id, (key.received_at.secs, key.order))).collect(),
        db.reception_order_next.get(&()).unwrap(),
    )
}

fn in_memory() -> redb_bincode::Database {
    let raw = redb::Database::builder()
        .create_with_backend(redb::backends::InMemoryBackend::new())
        .unwrap();
    redb_bincode::Database::from(raw)
}

#[test]
fn inconsistent_social_receipt_mapping_aborts_complete_deletion() {
    for actual in [None, Some(ShortEventId::zero())] {
        let file = in_memory();
        let me = account(88);
        let tx = file.begin_write().unwrap();
        let (target, corrupted) = {
            let mut db = Tables::open(&tx).unwrap();
            let target = publish(&me, 1, person(88), 200, 800, &text("target"), &mut db);
            let (at, order, _) = receipts(&db)[0];
            match &actual {
                Some(other) => {
                    db.social_posts_by_received_at.insert(&(ts(at), order), other).unwrap()
                }
                None => db.social_posts_by_received_at.remove(&(ts(at), order)).unwrap(),
            }
            (target, receipt_rows(&db))
        };
        tx.commit().unwrap();
        let deleter = deletion(2, &target);
        {
            let tx = file.begin_write().unwrap();
            let mut db = Tables::open(&tx).unwrap();
            let res = me.process_event_tx(&deleter, ts(900), true, read_retained, &score, &mut db);
            match res {
                Err(DbError::SocialPostReceiptMismatch { event_id, actual_event_id }) => {
                    assert_eq!(event_id, target.short_id());
                    assert_eq!(actual_event_id, actual);
                }
                _ => panic!("the receipt does not match"),
            }
        }
        let tx = file.begin_write().unwrap();
        let mut db = Tables::open(&tx).unwrap();
        assert_eq!(receipt_rows(&db), corrupted);
        assert!(!db.events.contains(&deleter.short_id()).unwrap());
        assert!(!db.events_content_state.contains(&target.short_id()).unwrap());
        let res = Database::remove_social_post_receipt_tx(target.short_id(), &mut db);
        assert!(matches!(res, Err(DbError::SocialPostReceiptMismatch { .. })));
        assert_eq!(receipt_rows(&db), corrupted);
    }
}

#[test]
fn duplicate_social_receipt_mapping_aborts_complete_insertion() {
    let file = in_memory();
    let me = account(90);
    let post = text("target");
    let mut target = post_event(1, person(90), &post);
    target.event.timestamp = ts(250);
    let seeded = ReceiptKey { received_at: ts(600), order: 40 };
    let tx = file.begin_write().unwrap();
    {
        let mut db = Tables::open(&tx).unwrap();
        db.social_posts_received_at_keys.insert(&target.short_id(), &seeded).unwrap();
    }
    tx.commit().unwrap();
    {
        let tx = file.begin_write().unwrap();
        let mut db = Tables::open(&tx).unwrap();
        arrive(&me, &target, 700, &mut db);
        let payload = Payload::SocialPost { post: text("target"), mentions_self: false };
        let res =
            me.process_event_content_tx(&target, encode(&post), payload, ts(700), &score, &mut db);
        assert!(matches!(
            res,
            Err(DbError::SocialPostReceiptAlreadyIndexed { event_id }) if event_id == target.short_id()
        ));
    }
    let tx = file.begin_write().unwrap();
    let db = Tables::open(&tx).unwrap();
    assert_eq!(receipt_rows(&db), (vec![], vec![(target.short_id(), (600, 40))], None));
    assert!(!db.events.contains(&target.short_id()).unwrap());
    assert!(!db.social_posts_by_time.contains(&(ts(250), target.short_id())).unwrap());
}

#[test]
fn reception_orders_end_and_never_collide() {
    run(|db| {
        let order = Database::insert_reception_ordered_tx(
            ts(5),
            &ShortEventId::zero(),
            &mut db.reception_order_next,
            &mut db.social_posts_by_received_at,
        )
        .unwrap();
        assert_eq!(order, 0);
        db.social_posts_by_received_at.insert(&(ts(5), 1), &ShortEventId::max()).unwrap();
        assert!(matches!(
            Database::insert_reception_ordered_tx(
                ts(5),
                &ShortEventId::zero(),
                &mut db.reception_order_next,
                &mut db.social_posts_by_received_at,
            ),
            Err(DbError::Occupied)
        ));
        db.reception_order_next.insert(&(), &u64::MAX).unwrap();
        assert!(matches!(
            Database::insert_reception_ordered_tx(
                ts(5),
                &ShortEventId::zero(),
                &mut db.reception_order_next,
                &mut db.social_posts_by_received_at,
            ),
            Err(DbError::ReceptionOrderExhausted)
        ));
    });
}

#[test]
fn the_latest_version_of_a_post_is_shown() {
    run(|db| {
        let me = account(7);
        let author = person(8);
        let original = publish(&me, 1, author, 10, 100, &text("first"), db);
        let mut edit = post_event(2, author, &text("second"));
        edit.event.parent_aux = Some(original.short_id());
        edit.event.deletes_parent_aux = true;
        arrive(&me, &edit, 100, db);
        deliver_post(&me, &edit, &text("second"), false, 100, db);
        let mut reply = text("to the first");
        reply.reply_to = Some(ExternalEventId { rostra_id: author, event_id: original.short_id() });
        publish(&me, 3, person(9), 30, 100, &reply, db);
        let shown = Database::get_social_post(original.short_id(), &decode, db).unwrap().unwrap();
        assert_eq!(shown.event_id, edit.short_id());
        assert_eq!(shown.content.djot_content, Some("second".to_owned()));
        assert_eq!(shown.reply_count, 1);
        assert!(Database::is_social_post_replaced_tx(
            author,
            original.short_id(),
            &db.social_posts_replaced_by
        )
        .unwrap());
        assert_eq!(
            Database::social_post_versions_tx(author, edit.short_id(), &db.social_posts_replaces)
                .unwrap(),
            vec![edit.short_id(), original.short_id()]
        );
        let state =
            Database::get_social_post_state(original.short_id(), &decode, db).unwrap().unwrap();
        assert_eq!(state.event_id, edit.short_id());
        assert_eq!(state.availability, EventContentAvailability::Available);
        assert_eq!(
            Database::get_event_content_availability_tx(original.short_id(), db).unwrap(),
            Some(EventContentAvailability::Deleted)
        );
        assert_eq!(
            Database::get_event_content_availability_tx(ShortEventId::max(), db).unwrap(),
            None
        );
    });
}

#[test]
fn edits_that_go_round_are_refused() {
    run(|db| {
        let (x, y) = (ShortEventId { hi: 1, lo: 1 }, ShortEventId { hi: 2, lo: 2 });
        for (old, new) in [(x, y), (y, x)] {
            db.social_posts_replaced_by.insert(&(person(7), old, new), &()).unwrap();
        }
        assert!(matches!(
            Database::latest_social_post_version_tx(person(7), x, &db.social_posts_replaced_by),
            Err(DbError::CyclicEdits { .. })
        ));
    });
}

#[test]
fn shouts_are_paged_and_counted() {
    run(|db| {
        let me = account(7);
        let mut shouts = vec![];
        for n in 1..4 {
            let raw = vec![n as u8];
            let e = event(n, person(8), EventKind::Shoutbox, &raw);
            arrive(&me, &e, 100 + n, db);
            me.process_event_content_tx(&e, raw, Payload::Shoutbox, ts(100 + n), &score, db).unwrap();
            shouts.push(e.short_id());
        }
        let read = |raw: &Vec<u8>| Some(raw[0]);
        let (page, next) =
            Database::paginate_shoutbox_posts_by_received_at_rev(None, 2, &read, db).unwrap();
        let seen: Vec<(ShortEventId, u8)> = page.iter().map(|s| (s.event_id, s.content)).collect();
        assert_eq!(seen, vec![(shouts[2], 3), (shouts[1], 2)]);
        let (page, next) =
            Database::paginate_shoutbox_posts_by_received_at_rev(next, 2, &read, db).unwrap();
        assert_eq!(page.len(), 1);
        assert_eq!(page[0].author, person(8));
        assert_eq!(next, None);
        let last = Database::get_latest_shoutbox_received_at_cursor(db).unwrap();
        assert_eq!(last.map(|c| c.ts), Some(ts(103)));
        assert_eq!(Database::count_shoutbox_posts_since(None, 10, db).unwrap(), 3);
        assert_eq!(Database::count_shoutbox_posts_since(None, 2, db).unwrap(), 2);
        assert_eq!(Database::count_shoutbox_posts_since(last, 10, db).unwrap(), 0);
        let first = Some(ReceivedAtPaginationCursor { ts: ts(101), seq: u64::MAX });
        assert_eq!(Database::count_shoutbox_posts_since(first, 10, db).unwrap(), 2);
        let end = ReceivedAtPaginationCursor::max();
        db.shoutbox_posts_by_received_at.insert(&(end.ts, 5), &ShortEventId::zero()).unwrap();
        assert_eq!(Database::count_shoutbox_posts_since(last, 10, db).unwrap(), 1);
        assert_eq!(Database::count_shoutbox_posts_since(Some(end), 10, db).unwrap(), 0);
    });
}

#[test]
fn personas_have_names_and_tags() {
    run(|db| {
        let me = account(7);
        let author = person(8);
        let record = IdsPersonaRecord { display_name: "Work".to_owned() };
        db.ids_personas.insert(&(author, PersonaId { n: 1 }), &record).unwrap();
        let names = Database::get_personas_for_id(author, db).unwrap();
        let names: Vec<(u8, String)> = names.into_iter().map(|(p, s)| (p.n, s)).collect();
        assert!(names.contains(&(1, "Work".to_owned())));
        let asked = vec![(author, PersonaId { n: 1 })];
        let got = Database::get_personas(&asked, db).unwrap();
        assert_eq!(got.len(), 1);
        assert_eq!(got[0].1, "Work");
        let mut tagged = text("tagged");
        tagged.persona_tags = vec!["rust".to_owned(), "db".to_owned()];
        publish(&me, 1, author, 10, 100, &tagged, db);
        tagged.persona_tags = vec!["db".to_owned(), "proofs".to_owned()];
        publish(&me, 2, author, 20, 100, &tagged, db);
        let mut tags = Database::get_persona_tags_for_id(author, &decode, db).unwrap();
        tags.sort();
        assert_eq!(tags, vec!["db".to_owned(), "proofs".to_owned(), "rust".to_owned()]);
        tagged.persona_tags = (0..501).map(|n| format!("tag{n}")).collect();
        publish(&me, 3, author, 30, 100, &tagged, db);
        let tags = Database::get_persona_tags_for_id(author, &decode, db).unwrap();
        assert_eq!(tags.len(), 504);
        assert!(tags.contains(&"rust".to_owned()));
    });
}
