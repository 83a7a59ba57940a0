//! Follows, latest values, the account, the web of trust and pages of rows.

use std::cell::Cell;

use rostra_client_db::database::Database;
use rostra_client_db::error::DbError;
use rostra_client_db::ids::{Bytes32, EventOrder, RostraId, ShortEventId, Timestamp};
use rostra_client_db::payload::is_blank_text;
use rostra_client_db::profile::IdSocialProfileRecord;
use rostra_client_db::social::ReceivedAtPaginationCursor;
use rostra_client_db::tables::{Latest, Tables};
use rostra_client_db::words::{from_words, to_words};

fn run(f: impl FnOnce(&mut Tables<'_>)) {
    let raw = redb::Database::builder()
        .create_with_backend(redb::backends::InMemoryBackend::new())
        .unwrap();
    let db = redb_bincode::Database::from(raw);
    let tx = db.begin_write().unwrap();
    let mut tables = Tables::open(&tx).unwrap();
    f(&mut tables);
}

fn person(n: u64) -> RostraId {
    RostraId { bytes: Bytes32 { a: n, b: 0, c: 0, d: n } }
}

fn short(n: u64) -> ShortEventId {
    ShortEventId { hi: n, lo: 0 }
}

fn ts(secs: u64) -> Timestamp {
    Timestamp { secs }
}

fn at(secs: u64) -> EventOrder {
    EventOrder { timestamp: ts(secs), event_id: ShortEventId::zero() }
}

fn follow(secs: u64, db: &mut Tables<'_>) -> bool {
    Database::insert_follow_tx(person(1), at(secs), person(2), vec![], db).unwrap()
}

fn unfollow(secs: u64, db: &mut Tables<'_>) -> bool {
    Database::insert_unfollow_tx(person(1), at(secs), person(2), db).unwrap()
}

#[test]
fn test_follow_unfollow_timestamp_ordering() {
    run(|db| {
        let row = |db: &Tables<'_>| {
            let r = db.ids_followees.get(&(person(1), person(2))).unwrap().unwrap();
            (r.latest.timestamp, r.first_ts)
        };
        assert!(follow(100, db));
        assert_eq!(row(db), (ts(100), ts(100)));
        assert!(follow(50, db));
        assert_eq!(row(db), (ts(100), ts(50)));
        assert!(!follow(100, db));
        assert!(follow(200, db));
        assert_eq!(row(db).0, ts(200));
        assert!(unfollow(150, db));
        assert_eq!(row(db), (ts(200), ts(200)));
        assert!(unfollow(300, db));
        assert!(!follow(200, db));
        assert!(follow(400, db));
        assert!(!unfollow(300, db));
    });
}

#[test]
fn test_duplicate_unfollow_rejected() {
    run(|db| {
        let row = |db: &Tables<'_>| {
            db.ids_unfollowed.get(&(person(1), person(2))).unwrap().unwrap().ts
        };
        assert!(unfollow(100, db));
        assert_eq!(row(db), ts(100));
        assert!(!unfollow(100, db));
        assert!(!unfollow(50, db));
        assert!(unfollow(200, db));
        assert_eq!(row(db), ts(200));
    });
}

#[test]
fn follows_settle_in_either_order() {
    for first_follow in [true, false] {
        run(|db| {
            if first_follow {
                follow(100, db);
                unfollow(50, db);
            } else {
                unfollow(50, db);
                follow(100, db);
            }
            let r = db.ids_followees.get(&(person(1), person(2))).unwrap().unwrap();
            assert_eq!((r.latest, r.first_ts), (at(100), ts(100)));
            let r = db.ids_unfollowed.get(&(person(1), person(2))).unwrap().unwrap();
            assert_eq!(r.ts, ts(50));
        });
    }
}

fn profile(name: &str) -> IdSocialProfileRecord {
    IdSocialProfileRecord {
        event_id: short(9),
        display_name: name.to_owned(),
        bio: String::new(),
        avatar: None,
    }
}

#[test]
fn test_insert_latest_value_timestamp_ordering() {
    run(|db| {
        let key = person(1);
        for (secs, name, written, kept) in [
            (100, "Alice", true, ("Alice", 100)),
            (100, "Bob", false, ("Alice", 100)),
            (50, "Charlie", false, ("Alice", 100)),
            (200, "Bob", true, ("Bob", 200)),
        ] {
            let value = Latest { ts: ts(secs), inner: profile(name) };
            assert_eq!(
                Database::insert_latest_value_tx(&key, value, &mut db.social_profiles).unwrap(),
                written
            );
            let row = db.social_profiles.get(&key).unwrap().unwrap();
            assert_eq!((row.inner.display_name.as_str(), row.ts.secs), kept);
        }
    });
}

#[test]
fn test_get_random_self_event() {
    run(|db| {
        assert_eq!(Database::get_random_self_event(&db.events_self).unwrap(), None);
        Database::insert_self_event_id_tx(short(5), &mut db.events_self).unwrap();
        assert_eq!(Database::get_random_self_event(&db.events_self).unwrap(), Some(short(5)));
        Database::insert_self_event_id_tx(short(6), &mut db.events_self).unwrap();
        let got = Database::get_random_self_event(&db.events_self).unwrap();
        assert!(got == Some(short(5)) || got == Some(short(6)));
    });
}

#[test]
fn test_get_random_self_event_fallback_paths() {
    for (id, times) in [
        (ShortEventId { hi: 77, lo: 78 }, 100),
        (ShortEventId { hi: 0, lo: 1 }, 50),
        (ShortEventId { hi: u64::MAX, lo: u64::MAX - 1 }, 50),
    ] {
        run(|db| {
            db.events_self.insert(&id, &()).unwrap();
            for _ in 0..times {
                assert_eq!(Database::get_random_self_event(&db.events_self).unwrap(), Some(id));
            }
        });
    }
}

#[test]
fn random_choices_reach_every_key_in_time() {
    run(|db| {
        for id in [short(1 << 62), short(3 << 62)] {
            db.events_self.insert(&id, &()).unwrap();
        }
        let mut seen = vec![];
        for _ in 0..500 {
            let id = Database::get_random_self_event(&db.events_self).unwrap().unwrap();
            if !seen.contains(&id) {
                seen.push(id);
            }
        }
        assert_eq!(seen.len(), 2);
    });
}

#[test]
fn keys_are_found_on_the_side_asked_for() {
    run(|db| {
        for n in [10, 20] {
            db.events_self.insert(&short(n), &()).unwrap();
        }
        let near = |n, upwards| Database::get_table_key_near(&db.events_self, &short(n), upwards).unwrap();
        assert_eq!(near(15, true), Some(short(20)));
        assert_eq!(near(15, false), Some(short(10)));
        assert_eq!(near(25, true), Some(short(20)));
        assert_eq!(near(5, false), Some(short(10)));
    });
}

#[test]
fn the_account_keeps_its_secret() {
    run(|db| {
        assert_eq!(Database::read_self_id_tx(&db.ids_self).unwrap(), None);
        let written = Database::write_self_id_tx(person(3), &mut db.ids_self).unwrap();
        assert_eq!(written.rostra_id, person(3));
        assert_eq!(Database::read_self_id_tx(&db.ids_self).unwrap(), Some(written));
        assert_eq!(
            Database::read_iroh_secret_tx(&db.ids_self).unwrap(),
            Some(written.iroh_secret)
        );
        let other = Database::write_self_id_tx(person(3), &mut db.ids_self).unwrap();
        assert_ne!(other.iroh_secret, written.iroh_secret);
        let secret = Bytes32 { a: 1, b: 2, c: 3, d: 4 };
        Database::write_self_account_tx(person(4), secret, &mut db.ids_self).unwrap();
        assert_eq!(Database::read_iroh_secret_tx(&db.ids_self).unwrap(), Some(secret));
    });
}

#[test]
fn test_wot_contains() {
    run(|db| {
        for (a, b, secs) in [(1, 2, 10), (2, 3, 11), (2, 1, 12), (3, 4, 13)] {
            Database::insert_follow_tx(person(a), at(secs), person(b), vec![7], db).unwrap();
        }
        let direct = Database::read_followees_tx(person(1), &db.ids_followees).unwrap();
        let wot = Database::compute_wot_tx(person(1), direct, &db.ids_followees).unwrap();
        assert_eq!(wot.followees.len(), 1);
        let (followee, record) = &wot.followees[0];
        assert_eq!(*followee, person(2));
        assert_eq!(record.latest, at(10));
        assert_eq!(record.first_ts, at(10).timestamp);
        assert_eq!(record.selector, vec![7]);
        assert_eq!(wot.extended, vec![person(3)]);
        assert!(wot.contains(person(1), person(1)));
        assert!(wot.contains(person(2), person(1)));
        assert!(wot.contains(person(3), person(1)));
        assert!(!wot.contains(person(4), person(1)));
        let followers = Database::read_followers_tx(person(1), &db.ids_followers).unwrap();
        let followers: Vec<RostraId> = followers.into_iter().map(|(id, _)| id).collect();
        assert_eq!(followers, vec![person(2)]);
    });
}

#[test]
fn pages_go_on_where_the_last_one_stopped() {
    run(|db| {
        for n in 1..8 {
            db.events_self.insert(&short(n), &()).unwrap();
        }
        let loads = Cell::new(0);
        let odd = |k: &ShortEventId, _: &()| {
            loads.set(loads.get() + 1);
            Ok(if k.hi % 2 == 1 { Some(k.hi) } else { None })
        };
        let (lo, hi) = (ShortEventId::zero(), ShortEventId::max());
        let (page, next) = Database::paginate_table(&db.events_self, lo, hi, 2, odd).unwrap();
        assert_eq!((page, next), (vec![1, 3], Some(short(4))));
        assert_eq!(loads.get(), 3);
        let (page, next) =
            Database::paginate_table(&db.events_self, next.unwrap(), hi, 2, odd).unwrap();
        assert_eq!((page, next), (vec![5, 7], None));
        let (page, next) = Database::paginate_table_rev(&db.events_self, lo, hi, 2, odd).unwrap();
        assert_eq!((page, next), (vec![7, 5], Some(short(4))));
        let (page, next) =
            Database::paginate_table_rev(&db.events_self, lo, next.unwrap(), 2, odd).unwrap();
        assert_eq!((page, next), (vec![3, 1], None));
        let (page, next) = Database::paginate_table(&db.events_self, lo, hi, 0, odd).unwrap();
        assert_eq!((page, next), (vec![], Some(short(1))));
        let failing = |_: &ShortEventId, _: &()| -> Result<Option<u64>, DbError> {
            Err(DbError::Overflow)
        };
        assert!(matches!(
            Database::paginate_table(&db.events_self, lo, hi, 2, failing),
            Err(DbError::Overflow)
        ));
    });
}

#[test]
fn rows_are_kept_in_the_order_of_their_keys() {
    run(|db| {
        for (t, n) in [(5, 1), (2, 9), (5, 0), (300, 0)] {
            db.events_by_time.insert(&(ts(t), short(n)), &()).unwrap();
        }
        let all = db
            .events_by_time
            .collect(&(ts(0), ShortEventId::zero()), &(ts(u64::MAX), ShortEventId::max()))
            .unwrap();
        let keys: Vec<(u64, u64)> = all.into_iter().map(|((t, id), _)| (t.secs, id.hi)).collect();
        assert_eq!(keys, vec![(2, 9), (5, 0), (5, 1), (300, 0)]);
        let (key, _) = db.events_by_time.last_before(&(ts(300), short(0))).unwrap().unwrap();
        assert_eq!(key, (ts(5), short(1)));
        let (key, _) = db.events_by_time.first_after(&(ts(5), short(0))).unwrap().unwrap();
        assert_eq!(key, (ts(5), short(1)));
        assert_eq!(db.events_by_time.take(&(ts(5), short(1))).unwrap(), Some(()));
        assert_eq!(db.events_by_time.take(&(ts(5), short(1))).unwrap(), None);
    });
}

#[test]
fn keys_of_any_size_stand_in_order() {
    run(|db| {
        let sizes = [
            0,
            1,
            250,
            251,
            252,
            255,
            256,
            65_535,
            65_536,
            u32::MAX as u64,
            u32::MAX as u64 + 1,
            1 << 40,
            1 << 63,
            u64::MAX,
        ];
        for n in sizes.iter().rev() {
            db.social_post_materializations.insert(n, &short(*n)).unwrap();
        }
        let rows = db.social_post_materializations.collect(&0, &u64::MAX).unwrap();
        let keys: Vec<u64> = rows.iter().map(|(k, _)| *k).collect();
        assert_eq!(keys, sizes.to_vec());
        assert!(rows.iter().all(|(k, id)| *id == short(*k)));
    });
}

#[test]
fn keys_come_back_from_their_words() {
    let key = (person(3), ts(4), short(5));
    assert_eq!(from_words::<(RostraId, Timestamp, ShortEventId)>(&to_words(&key)), Some(key));
    assert_eq!(from_words::<Timestamp>(&vec![1, 2]), None);
}

#[test]
fn cursors_go_to_the_next_place() {
    let c = |t: u64, seq: u64| ReceivedAtPaginationCursor { ts: ts(t), seq };
    assert_eq!(c(5, 1).next(), c(5, 2));
    assert_eq!(c(5, u64::MAX).next(), c(6, 0));
    assert_eq!(c(u64::MAX, u64::MAX).next(), c(u64::MAX, 0));
}

#[test]
fn the_greater_order_wins() {
    let (x, y) = (at(5), EventOrder { timestamp: ts(5), event_id: short(1) });
    assert!(x.before(&y));
    assert!(!y.before(&x));
    assert_eq!(x.max_of(y), y);
    assert_eq!(y.max_of(at(6)), at(6));
    assert_eq!(ts(u64::MAX - 1).saturating_add_secs(5), ts(u64::MAX));
}

#[test]
fn blank_texts_say_nothing() {
    assert!(is_blank_text(&String::new()));
    assert!(is_blank_text(&" \t\n\u{3000}".to_owned()));
    assert!(!is_blank_text(&" x ".to_owned()));
    assert!(!is_blank_text(&"\u{200b}".to_owned()));
}

#[test]
fn texts_of_any_script_come_back() {
    run(|db| {
        let name = "\u{c4}d\u{e4} \u{6f22}\u{1f642}";
        let mut record = profile(name);
        record.bio = "b\u{10ffff}".to_owned();
        record.avatar = Some(("image/png".to_owned(), vec![0, 255]));
        let value = Latest { ts: ts(1), inner: record };
        Database::insert_latest_value_tx(&person(1), value, &mut db.social_profiles).unwrap();
        let kept = Database::get_social_profile_tx(person(1), &db.social_profiles).unwrap().unwrap();
        assert_eq!(kept.display_name, name);
        assert_eq!(kept.bio, "b\u{10ffff}");
        assert_eq!(kept.avatar, Some(("image/png".to_owned(), vec![0, 255])));
    });
}

#[test]
fn blank_texts_are_white_space_alone() {
    let spaces = |n: u32| {
        matches!(n, 0x9..=0xD | 0x20 | 0x85 | 0xA0 | 0x1680 | 0x2000..=0x200A)
            || matches!(n, 0x2028 | 0x2029 | 0x202F | 0x205F | 0x3000)
    };
    for n in 0..0x110000u32 {
        if let Some(c) = char::from_u32(n) {
            assert_eq!(is_blank_text(&c.to_string()), spaces(n));
        }
    }
    assert!(is_blank_text(&String::new()));
    assert!(is_blank_text(&" \n\t ".to_owned()));
    assert!(!is_blank_text(&" a ".to_owned()));
}
