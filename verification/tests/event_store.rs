//! Storing events: the graph, deletions, references and usage.

use redb::TableHandle;
use rostra_client_db::database::Database;
use rostra_client_db::error::DbError;
use rostra_client_db::event::{
    Event, EventContentState, EventKind, EventsMissingRecord, Signature, VerifiedEvent,
};
use rostra_client_db::graph::EventContentResult;
use rostra_client_db::ids::{
    Bytes32, ContentHash, EventAuxKey, EventId, RostraId, ShortEventId, Timestamp,
};
use rostra_client_db::insert_event::InsertEventOutcome;
use rostra_client_db::tables::{IdsDataUsageRecord, Tables};
use rostra_client_db::usage::EVENT_METADATA_SIZE;

fn run(f: impl FnOnce(&mut Tables<'_>)) {
    let raw = redb::Database::builder()
        .create_with_backend(redb::backends::InMemoryBackend::new())
        .unwrap();
    let db = redb_bincode::Database::from(raw);
    let tx = db.begin_write().unwrap();
    let mut tables = Tables::open(&tx).unwrap();
    f(&mut tables);
}

fn bytes(n: u64) -> Bytes32 {
    Bytes32 { a: n, b: n, c: n, d: n }
}

fn person(n: u64) -> RostraId {
    RostraId { bytes: bytes(n) }
}

fn hash(n: u64) -> ContentHash {
    ContentHash { bytes: bytes(n) }
}

fn ts(secs: u64) -> Timestamp {
    Timestamp { secs }
}

/// An empty post.
fn post(n: u64, author: RostraId, parent: Option<ShortEventId>) -> VerifiedEvent {
    VerifiedEvent {
        event_id: EventId { bytes: bytes(n) },
        event: Event {
            author,
            kind: EventKind::SocialPost,
            aux_key: EventAuxKey { hi: 0, lo: 0 },
            singleton: false,
            deletes_parent_aux: false,
            parent_prev: parent,
            parent_aux: None,
            timestamp: ts(1000 + n),
            content_len: 0,
            content_hash: hash(0),
        },
        signature: Signature { r: bytes(0), s: bytes(0) },
    }
}

fn with_payload(mut e: VerifiedEvent, len: u32, content: u64) -> VerifiedEvent {
    e.event.content_len = len;
    e.event.content_hash = hash(content);
    e
}

fn deleting(mut e: VerifiedEvent, target: ShortEventId) -> VerifiedEvent {
    e.event.deletes_parent_aux = true;
    e.event.parent_aux = Some(target);
    e
}

fn store(db: &mut Tables<'_>, e: &VerifiedEvent) -> InsertEventOutcome {
    Database::insert_event_tx(e, db, true).unwrap()
}

fn state(db: &Tables<'_>, id: ShortEventId) -> Option<EventContentState> {
    Database::get_event_content_state_tx(id, &db.events_content_state).unwrap()
}

fn deleted_by(db: &Tables<'_>, id: ShortEventId) -> Option<ShortEventId> {
    match state(db, id) {
        Some(EventContentState::Deleted { deleted_by }) => Some(deleted_by),
        _ => None,
    }
}

fn references(db: &Tables<'_>, h: ContentHash) -> u64 {
    Database::get_content_rc_tx(h, &db.content_rc).unwrap()
}

fn usage(db: &Tables<'_>, author: RostraId) -> IdsDataUsageRecord {
    Database::get_data_usage_tx(author, &db.ids_data_usage).unwrap()
}

fn queue(db: &Tables<'_>) -> Vec<(Timestamp, ShortEventId)> {
    db.events_content_missing
        .collect(&(ts(0), ShortEventId::zero()), &(ts(u64::MAX), ShortEventId::max()))
        .unwrap()
        .into_iter()
        .map(|(k, _)| k)
        .collect()
}

#[test]
fn test_store_event() {
    run(|db| {
        let author = person(7);
        let a = post(1, author, None);
        let b = post(2, author, Some(a.short_id()));
        let c = post(3, author, Some(b.short_id()));
        let d = post(4, author, Some(c.short_id()));
        let (ia, ib, ic, id) = (a.short_id(), b.short_id(), c.short_id(), d.short_id());
        for (event, missing_expect, heads_expect) in [
            (a, vec![], vec![ia]),
            (c, vec![ib], vec![ia, ic]),
            (d, vec![ib], vec![ia, id]),
            (b, vec![], vec![id]),
        ] {
            for again in [false, true] {
                let outcome = Database::insert_event_tx(&event, db, false).unwrap();
                assert_eq!(again, matches!(outcome, InsertEventOutcome::AlreadyPresent));
                let missing =
                    Database::get_missing_events_for_id_tx(author, &db.events_missing).unwrap();
                assert_eq!(missing, missing_expect);
                let heads = Database::get_heads_events_tx(author, &db.events_heads).unwrap();
                assert_eq!(heads, heads_expect);
                assert_eq!(
                    Database::count_heads_events_tx(author, &db.events_heads).unwrap(),
                    heads_expect.len()
                );
                assert_eq!(
                    Database::count_missing_events_for_id_tx(author, &db.events_missing).unwrap(),
                    missing_expect.len()
                );
            }
        }
        assert_eq!(Database::read_head_tx(author, &db.events_heads).unwrap(), Some(id));
        assert_eq!(Database::get_heads_tx(author, &db.events_heads).unwrap(), vec![id]);
        assert_eq!(
            Database::get_ids_with_heads_tx(None, 5, &db.events_heads).unwrap(),
            vec![author]
        );
        assert!(db.ids_full.contains(&author).unwrap());
    });
}

#[test]
fn test_store_deleted_event() {
    run(|db| {
        let author = person(7);
        let a = post(1, author, None);
        let b = deleting(post(2, author, Some(a.short_id())), a.short_id());
        let c = deleting(post(3, author, Some(b.short_id())), a.short_id());
        let d = deleting(post(4, author, Some(c.short_id())), b.short_id());
        let (ia, ib, ic, id) = (a.short_id(), b.short_id(), c.short_id(), d.short_id());
        for (event, expected) in [
            (a, [Some(None), None, None, None]),
            (c, [Some(Some(ic)), None, Some(None), None]),
            (d, [Some(Some(ic)), None, Some(None), Some(None)]),
            (b, [Some(Some(ic)), Some(Some(id)), Some(None), Some(None)]),
        ] {
            for _ in 0..2 {
                store(db, &event);
                for (eid, expect) in [ia, ib, ic, id].into_iter().zip(expected) {
                    let got = Database::get_event_tx(eid, &db.events)
                        .unwrap()
                        .map(|_| deleted_by(db, eid));
                    assert_eq!(got, expect);
                }
            }
        }
    });
}

#[test]
fn test_cross_author_parent_never_resolves_or_deletes() {
    let (child_author, target_author) = (person(7), person(8));
    let target = with_payload(post(1, target_author, None), 3, 123);
    let target_id = target.short_id();
    let ordinary = post(2, child_author, Some(target_id));
    let deleter = deleting(post(3, child_author, None), target_id);
    for (child, target_first) in
        [(ordinary, true), (ordinary, false), (deleter, true), (deleter, false)]
    {
        run(|db| {
            if target_first {
                store(db, &target);
                store(db, &child);
            } else {
                store(db, &child);
                store(db, &target);
            }
            let stored = Database::get_event_tx(target_id, &db.events).unwrap().unwrap();
            assert_eq!(stored.event.author, target_author);
            assert!(matches!(state(db, target_id), Some(EventContentState::Missing { .. })));
            assert_eq!(references(db, target.event.content_hash), 1);
            let missing = db.events_missing.get(&(child_author, target_id)).unwrap().unwrap();
            let expect = if child.event.deletes_parent_aux { Some(child.short_id()) } else { None };
            assert_eq!(missing.deleted_by, expect);
            assert!(!db.events_missing.contains(&(target_author, target_id)).unwrap());
        });
    }
}

#[test]
fn test_content_reference_counting() {
    run(|db| {
        let h = hash(5);
        assert_eq!(references(db, h), 0);
        for n in 1..=3 {
            assert_eq!(Database::increment_content_rc_tx(h, &mut db.content_rc).unwrap(), n);
            assert_eq!(references(db, h), n);
        }
        assert_eq!(Database::decrement_content_rc_tx(h, &mut db.content_rc).unwrap(), 2);
        assert_eq!(references(db, h), 2);
        assert_eq!(Database::decrement_content_rc_tx(h, &mut db.content_rc).unwrap(), 1);
        assert_eq!(Database::decrement_content_rc_tx(h, &mut db.content_rc).unwrap(), 0);
        assert_eq!(references(db, h), 0);
        assert!(!db.content_rc.contains(&h).unwrap());
    });
}

#[test]
fn references_refuse_to_leave_their_range() {
    run(|db| {
        let h = hash(5);
        assert!(matches!(
            Database::decrement_content_rc_tx(h, &mut db.content_rc),
            Err(DbError::PayloadAccountingInvariant)
        ));
        db.content_rc.insert(&h, &u64::MAX).unwrap();
        assert!(matches!(
            Database::increment_content_rc_tx(h, &mut db.content_rc),
            Err(DbError::Overflow)
        ));
        db.content_rc.insert(&h, &0).unwrap();
        assert!(matches!(
            Database::increment_content_rc_tx(h, &mut db.content_rc),
            Err(DbError::PayloadAccountingInvariant)
        ));
    });
}

#[test]
fn test_event_arrives_before_content() {
    run(|db| {
        let e = post(1, person(7), None);
        let (id, h) = (e.short_id(), e.event.content_hash);
        store(db, &e);
        assert!(!db.events_content_missing.contains(&(ts(0), id)).unwrap());
        assert_eq!(state(db, id), None);
        assert_eq!(references(db, h), 1);
        db.content_store.insert(&h, &vec![]).unwrap();
        assert!(Database::is_content_available_for_event_tx(
            id,
            h,
            &db.events_content_state,
            &db.content_store
        )
        .unwrap());
        assert_eq!(references(db, h), 1);
        assert_eq!(state(db, id), None);
    });
}

#[test]
fn test_content_exists_when_event_arrives() {
    run(|db| {
        let e = post(1, person(7), None);
        let (id, h) = (e.short_id(), e.event.content_hash);
        db.content_store.insert(&h, &vec![]).unwrap();
        store(db, &e);
        assert!(queue(db).is_empty());
        assert_eq!(state(db, id), None);
        assert_eq!(references(db, h), 1);
        assert!(Database::is_content_available_for_event_tx(
            id,
            h,
            &db.events_content_state,
            &db.content_store
        )
        .unwrap());
    });
}

#[test]
fn test_multiple_events_share_content() {
    run(|db| {
        let a = post(1, person(7), None);
        let b = post(2, person(7), Some(a.short_id()));
        let h = a.event.content_hash;
        assert_eq!(h, b.event.content_hash);
        store(db, &a);
        assert_eq!(references(db, h), 1);
        assert!(queue(db).is_empty());
        db.content_store.insert(&h, &vec![]).unwrap();
        assert_eq!(references(db, h), 1);
        store(db, &b);
        assert_eq!(references(db, h), 2);
        assert!(queue(db).is_empty());
        assert_eq!(state(db, b.short_id()), None);
    });
}

#[test]
fn test_multiple_events_waiting_for_content() {
    run(|db| {
        let a = post(1, person(7), None);
        let b = post(2, person(7), Some(a.short_id()));
        let h = a.event.content_hash;
        store(db, &a);
        store(db, &b);
        assert!(queue(db).is_empty());
        assert_eq!(references(db, h), 2);
        db.content_store.insert(&h, &vec![]).unwrap();
        assert_eq!(references(db, h), 2);
        for id in [a.short_id(), b.short_id()] {
            assert!(Database::is_content_available_for_event_tx(
                id,
                h,
                &db.events_content_state,
                &db.content_store
            )
            .unwrap());
            assert_eq!(state(db, id), None);
        }
    });
}

#[test]
fn test_delete_event_arrives_before_target() {
    run(|db| {
        let author = person(7);
        let (ia, id) = (post(10, author, None).short_id(), post(11, author, None).short_id());
        let b = deleting(with_payload(post(1, author, None), 3, 101), ia);
        let mut c = with_payload(post(2, author, None), 3, 102);
        c.event.parent_aux = Some(id);
        store(db, &b);
        assert_eq!(
            db.events_missing.get(&(author, ia)).unwrap(),
            Some(EventsMissingRecord { deleted_by: Some(b.short_id()) })
        );
        store(db, &c);
        assert_eq!(
            db.events_missing.get(&(author, id)).unwrap(),
            Some(EventsMissingRecord { deleted_by: None })
        );
    });
}

#[test]
fn test_equal_timestamp_deleters_use_event_id_tiebreak() {
    let author = person(7);
    let target = with_payload(post(1, author, None), 17, 55);
    let mut first = deleting(post(2, author, Some(target.short_id())), target.short_id());
    let mut second = deleting(post(3, author, Some(first.short_id())), target.short_id());
    first.event.timestamp = ts(2_000);
    second.event.timestamp = ts(2_000);
    let events = [first, second, target];
    for order in [[0, 1, 2], [0, 2, 1], [1, 0, 2], [1, 2, 0], [2, 0, 1], [2, 1, 0]] {
        run(|db| {
            for i in order {
                store(db, &events[i]);
            }
            assert_eq!(deleted_by(db, target.short_id()), Some(second.short_id()));
        });
    }
}

#[test]
fn test_deletion_chain_preserves_header_effects() {
    let author = person(7);
    let target = with_payload(post(1, author, None), 12, 55);
    let mut first =
        deleting(with_payload(post(2, author, Some(target.short_id())), 22, 56), target.short_id());
    let mut second = deleting(post(3, author, Some(first.short_id())), first.short_id());
    first.event.timestamp = ts(3_000);
    second.event.timestamp = ts(3_001);
    let events = [target, first, second];
    for order in [[0, 1, 2], [0, 2, 1], [1, 0, 2], [1, 2, 0], [2, 0, 1], [2, 1, 0]] {
        run(|db| {
            for i in order {
                store(db, &events[i]);
            }
            assert_eq!(deleted_by(db, target.short_id()), Some(first.short_id()));
            assert_eq!(deleted_by(db, first.short_id()), Some(second.short_id()));
            for e in &events {
                assert!(Database::has_event_tx(e.short_id(), &db.events).unwrap());
            }
            assert!(queue(db).is_empty());
        });
    }
    let ordinary = post(4, author, Some(first.short_id()));
    run(|db| {
        for e in [second, ordinary, first, target] {
            store(db, &e);
        }
        assert_eq!(deleted_by(db, target.short_id()), Some(first.short_id()));
        assert_eq!(deleted_by(db, first.short_id()), Some(second.short_id()));
    });
}

#[test]
fn test_data_usage_new_event_metadata() {
    run(|db| {
        let author = person(7);
        let a = post(1, author, None);
        let b = post(2, author, Some(a.short_id()));
        assert_eq!(usage(db, author).current_metadata_size, 0);
        assert_eq!(usage(db, author).current_metadata_num, 0);
        for (n, e) in [(1, a), (2, b)] {
            store(db, &e);
            let u = usage(db, author);
            assert_eq!(u.current_metadata_size, EVENT_METADATA_SIZE * n);
            assert_eq!(u.total_metadata_size, EVENT_METADATA_SIZE * n);
            assert_eq!(u.current_metadata_num, n);
            assert_eq!(u.total_metadata_num, n);
        }
        assert_eq!(EVENT_METADATA_SIZE, 192);
    });
}

#[test]
fn a_deleter_without_a_stored_event_is_refused() {
    run(|db| {
        let author = person(7);
        let e = post(1, author, None);
        db.events_content_state
            .insert(&e.short_id(), &EventContentState::Deleted { deleted_by: ShortEventId::max() })
            .unwrap();
        store(db, &e);
        let d = deleting(post(2, author, None), e.short_id());
        assert!(matches!(
            Database::insert_event_tx(&d, db, true),
            Err(DbError::MissingDeletionAttribution { .. })
        ));
    });
}

#[test]
fn payloads_are_read_by_their_state() {
    run(|db| {
        let e = with_payload(post(1, person(7), None), 2, 9);
        let (id, h) = (e.short_id(), e.event.content_hash);
        let read = |db: &Tables<'_>| {
            Database::get_event_content_full_tx(id, h, &db.events_content_state, &db.content_store)
                .unwrap()
                .unwrap()
        };
        store(db, &e);
        assert!(matches!(read(db), EventContentResult::Missing));
        db.content_store.insert(&h, &vec![1, 2]).unwrap();
        db.events_content_state.remove(&id).unwrap();
        assert!(matches!(read(db), EventContentResult::Present(bytes) if bytes == vec![1, 2]));
        let has = |db: &Tables<'_>| {
            Database::has_event_content_tx(id, h, &db.events_content_state, &db.content_store)
                .unwrap()
        };
        assert!(has(db));
        let missing = EventContentState::Missing {
            last_fetch_attempt: None,
            fetch_attempt_count: 0,
            next_fetch_attempt: ts(0),
        };
        let deleted = EventContentState::Deleted { deleted_by: id };
        for (state, there) in [
            (missing, true),
            (EventContentState::Invalid, true),
            (EventContentState::Pruned, false),
            (deleted, false),
        ] {
            db.events_content_state.insert(&id, &state).unwrap();
            assert_eq!(has(db), there);
        }
        db.events_content_state.insert(&id, &missing).unwrap();
        db.content_store.remove(&h).unwrap();
        assert!(!has(db));
    });
}

#[test]
fn missing_event_author_pagination_is_unique_bounded_and_exclusive() {
    run(|db| {
        let authors = [person(71), person(72), person(73)];
        let record = EventsMissingRecord { deleted_by: None };
        for key in [
            (authors[0], ShortEventId::zero()),
            (authors[0], ShortEventId::max()),
            (authors[1], ShortEventId::zero()),
            (authors[2], ShortEventId::zero()),
        ] {
            db.events_missing.insert(&key, &record).unwrap();
        }
        let ids = |after, limit| {
            Database::get_ids_with_missing_events_tx(after, limit, &db.events_missing).unwrap()
        };
        assert!(ids(None, 0).is_empty());
        assert_eq!(ids(None, 2), authors[..2]);
        assert_eq!(ids(Some(authors[1]), 2), authors[2..]);
        assert_eq!(ids(Some(authors[2]), 2), Vec::<RostraId>::new());
        assert_eq!(
            Database::get_last_id_with_missing_events_tx(&db.events_missing).unwrap(),
            Some(authors[2])
        );
    });
}

#[test]
fn every_table_is_opened_under_its_own_name() {
    let raw = redb::Database::builder()
        .create_with_backend(redb::backends::InMemoryBackend::new())
        .unwrap();
    let db = redb_bincode::Database::from(raw);
    let tx = db.begin_write().unwrap();
    let tables = Tables::open(&tx).unwrap();
    assert!(matches!(Tables::open(&tx), Err(DbError::Table(_))));
    drop(tables);
    let mut names: Vec<String> =
        tx.as_raw().list_tables().unwrap().map(|table| table.name().to_string()).collect();
    names.sort();
    assert_eq!(
        names,
        vec![
            "content_rc",
            "content_retention_author",
            "content_retention_global",
            "content_retention_grace",
            "content_retention_reverse",
            "content_retention_state",
            "content_store",
            "events",
            "events_by_time",
            "events_content_missing",
            "events_content_state",
            "events_dm_pending",
            "events_heads",
            "events_missing",
            "events_quota_pruned",
            "events_received_at",
            "events_retention_origins",
            "events_self",
            "events_singletons_new",
            "ids_data_usage",
            "ids_follow_events",
            "ids_followees",
            "ids_followers",
            "ids_full",
            "ids_nodes",
            "ids_personas",
            "ids_self",
            "ids_unfollowed",
            "reception_order_next",
            "shoutbox_posts_by_received_at",
            "social_post_materializations",
            "social_posts",
            "social_posts_by_received_at",
            "social_posts_by_time",
            "social_posts_reactions",
            "social_posts_received_at_keys",
            "social_posts_replaced_by",
            "social_posts_replaces",
            "social_posts_replies",
            "social_posts_self_mention",
            "social_profiles",
        ]
    );
}

#[test]
fn rows_of_another_form_are_refused() {
    let raw = redb::Database::builder()
        .create_with_backend(redb::backends::InMemoryBackend::new())
        .unwrap();
    let file = redb_bincode::Database::from(raw);
    let id = ShortEventId { hi: 1, lo: 2 };
    let mut key = 1u64.to_be_bytes().to_vec();
    key.extend_from_slice(&2u64.to_be_bytes());
    let wide = vec![253, 16, 0, 0, 0, 0, 0, 0, 0];
    let rows: Vec<(Vec<u8>, Vec<u8>)> = vec![
        (key.clone(), wide.clone()),
        (key.clone(), vec![255, 1]),
        (wide.clone(), vec![]),
        (vec![1, 251, 0, 5], vec![]),
    ];
    for (stored_key, stored_value) in rows {
        let tx = file.begin_write().unwrap();
        {
            let name = redb::TableDefinition::<&[u8], &[u8]>::new("events_self");
            let mut table = tx.as_raw().open_table(name).unwrap();
            table.insert(stored_key.as_slice(), stored_value.as_slice()).unwrap();
        }
        let db = Tables::open(&tx).unwrap();
        let all = db.events_self.collect(&ShortEventId::zero(), &ShortEventId::max());
        if stored_key == key {
            assert!(matches!(db.events_self.get(&id), Err(DbError::Malformed(_))));
            assert!(matches!(all, Err(DbError::Malformed(_))));
        } else {
            assert!(matches!(db.events_self.get(&id), Ok(None)));
        }
        assert!(matches!(
            db.events_self.first_from(&ShortEventId::zero()),
            Err(DbError::Malformed(_))
        ));
        assert!(matches!(
            db.events_self.first_after(&ShortEventId::zero()),
            Err(DbError::Malformed(_))
        ));
        if stored_key != wide {
            assert!(matches!(
                db.events_self.last_before(&ShortEventId::max()),
                Err(DbError::Malformed(_))
            ));
        }
    }
}

#[test]
fn rows_stand_in_the_order_of_their_keys() {
    run(|db| {
        let ids = [
            ShortEventId { hi: 0, lo: 255 },
            ShortEventId { hi: 0, lo: 256 },
            ShortEventId { hi: 1, lo: 0 },
            ShortEventId { hi: 1 << 40, lo: 7 },
            ShortEventId::max(),
        ];
        for id in ids.iter().rev() {
            db.events_self.insert(id, &()).unwrap();
        }
        let rows = db.events_self.collect(&ShortEventId::zero(), &ShortEventId::max()).unwrap();
        let seen: Vec<ShortEventId> = rows.into_iter().map(|(id, _)| id).collect();
        assert_eq!(seen, ids);
        let first = db.events_self.first_after(&ids[1]).unwrap();
        assert_eq!(first.map(|row| row.0), Some(ids[2]));
        let last = db.events_self.last_before(&ids[3]).unwrap();
        assert_eq!(last.map(|row| row.0), Some(ids[2]));
        let bytes: Vec<u8> = (0..=255).collect();
        db.content_store.insert(&hash(3), &bytes).unwrap();
        assert_eq!(db.content_store.get(&hash(3)).unwrap(), Some(bytes));
    });
}

#[test]
fn deleters_converge_where_usage_is_not_tracked() {
    for order in [[0usize, 1, 2, 3], [3, 2, 1, 0], [1, 0, 3, 2], [2, 3, 0, 1]] {
        run(|db| {
            let target = with_payload(post(1, person(7), None), 2, 9);
            let mut deleters = vec![];
            for (n, at) in [(2, 100), (3, 300)] {
                let mut d = post(n, person(7), None);
                d.event.timestamp = ts(at);
                d.event.parent_aux = Some(target.short_id());
                d.event.deletes_parent_aux = true;
                deleters.push(d);
            }
            let child = post(4, person(7), Some(target.short_id()));
            let events = [target, deleters[0], deleters[1], child];
            for i in order {
                Database::insert_event_tx(&events[i], db, false).unwrap();
            }
            assert_eq!(
                state(db, target.short_id()),
                Some(EventContentState::Deleted { deleted_by: deleters[1].short_id() })
            );
            let hash = target.event.content_hash;
            assert_eq!(Database::get_content_rc_tx(hash, &db.content_rc).unwrap(), 0);
            let queued = db
                .events_content_missing
                .collect(&(ts(0), ShortEventId::zero()), &(ts(u64::MAX), ShortEventId::max()))
                .unwrap();
            assert!(queued.into_iter().all(|((_, id), _)| id != target.short_id()));
        });
    }
}

#[test]
fn refused_usage_updates_leave_the_record() {
    run(|db| {
        let author = person(7);
        Database::track_new_payload_tx(author, 5, &mut db.ids_data_usage).unwrap();
        let before = Database::get_data_usage_tx(author, &db.ids_data_usage).unwrap();
        let deleted = Some(EventContentState::Deleted { deleted_by: ShortEventId::zero() });
        assert!(matches!(
            Database::track_payload_deletion_tx(author, 5, deleted, &mut db.ids_data_usage),
            Err(DbError::PayloadAccountingInvariant)
        ));
        assert!(matches!(
            Database::track_payload_deletion_tx(author, 5, None, &mut db.ids_data_usage),
            Err(DbError::Overflow)
        ));
        assert!(matches!(
            Database::track_payload_processed_tx(author, 6, &mut db.ids_data_usage),
            Err(DbError::Overflow)
        ));
        assert_eq!(Database::get_data_usage_tx(author, &db.ids_data_usage).unwrap(), before);
    });
}
