//! Giving payloads up: the index of candidates, quotas and limits.

use rostra_client_db::database::Database;
use rostra_client_db::error::DbError;
use rostra_client_db::event::{Event, EventContentState, EventKind, Signature, VerifiedEvent};
use rostra_client_db::ids::{
    Bytes32, ContentHash, EventAuxKey, EventId, ExternalEventId, RostraId, ShortEventId, Timestamp,
};
use rostra_client_db::limits::{admission, limit, limits, PayloadRuntimeLimits};
use rostra_client_db::payload::{Action, Payload, SocialPost};
use rostra_client_db::process_content::ContentOutcome;
use rostra_client_db::process_event::ProcessEventState;
use rostra_client_db::quota_pruning::{
    QuotaPruneOutcome, QuotaPruneRequest, QuotaPruneTarget, RetentionClock,
};
use rostra_client_db::retention::{
    QuotaPruneDecision, QuotaPruneReason, RetentionGeneration, RetentionKey, RetentionOrigins,
    RetentionPolicy,
};
use rostra_client_db::retention_index::RetentionCandidate;
use rostra_client_db::social::EventContentAvailability;
use rostra_client_db::tables::Tables;

fn run(f: impl FnOnce(&mut Tables<'_>)) {
    let raw = redb::Database::builder()
        .create_with_backend(redb::backends::InMemoryBackend::new())
        .unwrap();
    let db = redb_bincode::Database::from(raw);
    let tx = db.begin_write().unwrap();
    let mut tables = Tables::open(&tx).unwrap();
    f(&mut tables);
}

fn bytes(n: u64) -> Bytes32 {
    Bytes32 { a: n, b: n, c: n, d: n }
}

fn person(n: u64) -> RostraId {
    RostraId { bytes: bytes(n) }
}

fn ts(secs: u64) -> Timestamp {
    Timestamp { secs }
}

fn account(n: u64) -> Database {
    Database { self_id: person(n), db_init_time: ts(0), max_content_len: 1_000_000 }
}

fn text(body: &str) -> SocialPost {
    SocialPost {
        djot_content: Some(body.to_owned()),
        reaction: None,
        reply_to: None,
        news: false,
        persona_tags: vec![],
    }
}

fn push_text(out: &mut Vec<u8>, text: &Option<String>) {
    match text {
        Some(t) => {
            out.push(1);
            out.push(t.len() as u8);
            out.extend_from_slice(t.as_bytes());
        }
        None => out.push(0),
    }
}

fn take_text(rest: &mut &[u8]) -> Option<Option<String>> {
    let tail: &[u8] = rest;
    match tail.first()? {
        0 => {
            *rest = &tail[1..];
            Some(None)
        }
        1 => {
            let n = *tail.get(1)? as usize;
            let body = tail.get(2..2 + n)?.to_vec();
            *rest = &tail[2 + n..];
            Some(Some(String::from_utf8(body).ok()?))
        }
        _ => None,
    }
}

/// The bytes of a post.
fn encode(post: &SocialPost) -> Vec<u8> {
    let mut out = vec![80, post.news as u8];
    push_text(&mut out, &post.djot_content);
    push_text(&mut out, &post.reaction);
    match post.reply_to {
        Some(to) => {
            out.push(1);
            for w in [
                to.rostra_id.bytes.a,
                to.rostra_id.bytes.b,
                to.rostra_id.bytes.c,
                to.rostra_id.bytes.d,
                to.event_id.hi,
                to.event_id.lo,
            ] {
                out.extend_from_slice(&w.to_be_bytes());
            }
        }
        None => out.push(0),
    }
    for tag in &post.persona_tags {
        push_text(&mut out, &Some(tag.clone()));
    }
    out
}

/// The post that bytes hold.
fn decode(raw: &Vec<u8>) -> Option<SocialPost> {
    let mut rest: &[u8] = raw.get(2..)?;
    if raw[0] != 80 {
        return None;
    }
    let djot_content = take_text(&mut rest)?;
    let reaction = take_text(&mut rest)?;
    let reply_to = match rest.first()? {
        0 => {
            rest = &rest[1..];
            None
        }
        _ => {
            let mut w = [0u64; 6];
            for (i, word) in w.iter_mut().enumerate() {
                *word = u64::from_be_bytes(rest.get(1 + 8 * i..9 + 8 * i)?.try_into().ok()?);
            }
            rest = &rest[49..];
            Some(ExternalEventId {
                rostra_id: RostraId { bytes: Bytes32 { a: w[0], b: w[1], c: w[2], d: w[3] } },
                event_id: ShortEventId { hi: w[4], lo: w[5] },
            })
        }
    };
    let mut persona_tags = vec![];
    while !rest.is_empty() {
        persona_tags.push(take_text(&mut rest)??);
    }
    Some(SocialPost { djot_content, reaction, reply_to, news: raw[1] == 1, persona_tags })
}

/// An event with a payload; equal payloads have equal hashes.
fn event(n: u64, author: RostraId, kind: EventKind, payload: &[u8]) -> VerifiedEvent {
    let sum = payload.iter().fold(17u64, |s, b| s.wrapping_mul(31).wrapping_add(*b as u64 + 1));
    VerifiedEvent {
        event_id: EventId { bytes: bytes(n) },
        event: Event {
            author,
            kind,
            aux_key: EventAuxKey { hi: 0, lo: 0 },
            singleton: false,
            deletes_parent_aux: false,
            parent_prev: None,
            parent_aux: None,
            timestamp: ts(1000 + n),
            content_len: payload.len() as u32,
            content_hash: ContentHash { bytes: bytes(sum) },
        },
        signature: Signature { r: bytes(0), s: bytes(0) },
    }
}

fn post_event(n: u64, author: RostraId, post: &SocialPost) -> VerifiedEvent {
    event(n, author, EventKind::SocialPost, &encode(post))
}

/// An empty event that deletes the payload of another.
fn deletion(n: u64, target: &VerifiedEvent) -> VerifiedEvent {
    let mut e = event(n, target.event.author, EventKind::SocialPost, &[]);
    e.event.parent_prev = Some(target.short_id());
    e.event.parent_aux = Some(target.short_id());
    e.event.deletes_parent_aux = true;
    e
}

fn read_retained(_: &VerifiedEvent, raw: &Vec<u8>) -> Option<SocialPost> {
    decode(raw)
}

fn arrive(me: &Database, e: &VerifiedEvent, now: u64, db: &mut Tables<'_>) -> ProcessEventState {
    me.process_event_tx(e, ts(now), true, read_retained, &score, db).unwrap().1
}

fn deliver_post(
    me: &Database,
    e: &VerifiedEvent,
    post: &SocialPost,
    mentions_self: bool,
    now: u64,
    db: &mut Tables<'_>,
) -> (ContentOutcome, Vec<Action>) {
    let raw = encode(post);
    let payload = Payload::SocialPost { post: decode(&raw).unwrap(), mentions_self };
    me.process_event_content_tx(e, raw, payload, ts(now), &score, db).unwrap()
}

fn state(db: &Tables<'_>, id: ShortEventId) -> Option<EventContentState> {
    Database::get_event_content_state_tx(id, &db.events_content_state).unwrap()
}

fn policy() -> RetentionPolicy {
    RetentionPolicy { p0: 1, p1: 1, p2: 0, grace_seconds: 10 }
}

fn clock(now: u64) -> RetentionClock {
    RetentionClock::Trusted(ts(now))
}

/// Older payloads score less.
fn score(_: RetentionPolicy, _: EventId, _: RostraId, _: u32, age: Timestamp) -> (u64, u64) {
    (1 << 63, age.secs)
}

fn key(e: &VerifiedEvent) -> RetentionKey {
    RetentionKey { score_hi: 1 << 63, score_lo: e.event.timestamp.secs, event: e.event_id }
}

fn post_at(n: u64, author: RostraId, time: u64) -> (VerifiedEvent, SocialPost) {
    let post = text(&format!("post {time}"));
    let mut e = post_event(n, author, &post);
    e.event.timestamp = ts(time);
    (e, post)
}

fn ingest(me: &Database, e: &VerifiedEvent, post: &SocialPost, content: bool, db: &mut Tables<'_>) {
    arrive(me, e, 100, db);
    if content {
        deliver_post(me, e, post, false, 100, db);
    }
}

fn delete(me: &Database, n: u64, target: &VerifiedEvent, db: &mut Tables<'_>) -> VerifiedEvent {
    let mut d = deletion(n, target);
    d.event.timestamp = ts(300);
    arrive(me, &d, 300, db);
    d
}

fn ready(me: &Database, db: &mut Tables<'_>) {
    for _ in 0..1000 {
        let progress = me.rebuild_retention_index(limit(1), &score, db).unwrap().unwrap();
        assert!(progress.visited <= 1);
        if progress.ready {
            return;
        }
    }
    panic!("the index did not get ready");
}

fn request(e: &VerifiedEvent, target: QuotaPruneTarget) -> QuotaPruneRequest {
    QuotaPruneRequest {
        id: e.short_id(),
        target,
        reason: QuotaPruneReason::AuthorQuota,
        policy: policy(),
        clock: clock(200),
    }
}

fn give_up(me: &Database, r: &QuotaPruneRequest, db: &mut Tables<'_>) -> QuotaPruneOutcome {
    me.prune_quota_payload(r, true, read_retained, &score, db).unwrap().0
}

#[test]
fn retention_index_static_order_and_independent_readiness() {
    run(|db| {
        let me = account(7);
        let (a, b) = (person(8), person(9));
        let events = [post_at(11, a, 3), post_at(12, b, 1), post_at(13, a, 2), post_at(14, b, 2)];
        for (e, post) in &events {
            ingest(&me, e, post, true, db);
        }
        assert_eq!(Database::retention_index_progress(db).unwrap(), None);
        let (progress, changed) = me.configure_retention_index(policy(), db).unwrap();
        assert!(changed);
        let generation = progress.generation;
        assert_eq!(generation.holder(), person(7));
        let mut policy_bytes = vec![0; 28];
        policy_bytes[7] = 1;
        policy_bytes[15] = 1;
        policy_bytes[27] = 10;
        assert_eq!(generation.policy_bytes(), policy_bytes);
        let select = |author, now, after, n, db: &Tables<'_>| {
            me.select_retention_candidates(generation, author, now, after, limit(n), &score, db)
                .unwrap()
        };
        assert!(!select(None, clock(200), None, 10, db).ready);
        ready(&me, db);
        let empty = select(None, clock(200), None, 10, db);
        assert!(empty.ready);
        assert!(empty.candidates.is_empty());
        let waiting =
            RetentionCandidate { event: events[0].0.event_id, author: a, key: key(&events[0].0) };
        let current = |candidate, now, db: &Tables<'_>| {
            me.retention_candidate_is_current(generation, candidate, now, &score, db).unwrap()
        };
        assert!(!current(waiting, clock(200), db));
        let promote = |now, n, db: &mut Tables<'_>| {
            Database::promote_retention_grace(clock(now), limit(n), db).unwrap().unwrap().visited
        };
        assert_eq!(promote(109, 10, db), 0);
        assert_eq!(promote(110, 2, db), 2);
        assert_eq!(promote(110, 2, db), 2);
        let page = select(None, clock(110), None, 10, db);
        assert!(current(waiting, clock(110), db));
        let expected: Vec<RetentionKey> =
            [1, 2, 3, 0].iter().map(|i| key(&events[*i].0)).collect();
        let keys: Vec<RetentionKey> = page.candidates.iter().map(|c| c.key).collect();
        assert_eq!(keys, expected);
        for candidate in &page.candidates {
            assert_eq!(candidate.key.event, candidate.event);
            assert!(current(*candidate, clock(110), db));
        }
        let of_author = select(Some(a), clock(110), None, 10, db);
        assert_eq!(of_author.candidates.len(), 2);
        assert!(of_author.candidates.iter().all(|c| c.author == a));
        let first = select(None, clock(110), None, 1, db);
        assert_eq!(first.scanned_through, Some(expected[0]));
        let rest = select(None, clock(110), first.scanned_through, 10, db);
        assert_eq!(rest.candidates.len(), 3);
        assert_eq!(rest.candidates[0], page.candidates[1]);
        let too_many = limit(4097);
        assert!(matches!(
            me.rebuild_retention_index(too_many, &score, db),
            Err(DbError::PayloadMaintenanceLimit)
        ));
        assert!(matches!(
            Database::promote_retention_grace(clock(110), too_many, db),
            Err(DbError::PayloadMaintenanceLimit)
        ));
        assert!(matches!(
            me.select_retention_candidates(
                generation,
                None,
                clock(110),
                None,
                too_many,
                &score,
                db
            ),
            Err(DbError::PayloadMaintenanceLimit)
        ));
        assert!(Database::retention_limit(limit(4096)).is_ok());
        assert!(matches!(
            Database::retention_limit(too_many),
            Err(DbError::PayloadMaintenanceLimit)
        ));
    });
}

#[test]
fn retention_index_interleaved_rebuild_policy_replacement_and_stale_advice() {
    run(|db| {
        let me = account(7);
        let author = person(8);
        let (first, first_post) = post_at(11, author, 1);
        let (late, late_post) = post_at(12, author, 2);
        let (deleted, deleted_post) = post_at(13, author, 3);
        ingest(&me, &first, &first_post, true, db);
        ingest(&me, &deleted, &deleted_post, true, db);
        ingest(&me, &late, &late_post, false, db);
        let old = me.configure_retention_index(policy(), db).unwrap().0.generation;
        me.rebuild_retention_index(limit(1), &score, db).unwrap();
        ingest(&me, &late, &late_post, true, db);
        delete(&me, 21, &deleted, db);
        ready(&me, db);
        Database::promote_retention_grace(clock(110), limit(10), db).unwrap();
        let select = |generation, now, db: &Tables<'_>| {
            me.select_retention_candidates(generation, None, clock(now), None, limit(10), &score, db)
                .unwrap()
        };
        let candidates = select(old, 110, db).candidates;
        assert_eq!(candidates.len(), 2);
        ingest(&me, &first, &first_post, true, db);
        assert_eq!(select(old, 110, db).candidates, candidates);
        let changed = RetentionPolicy { p0: 1, p1: 3, p2: 65536, grace_seconds: 20 };
        let (progress, is_other) = me.configure_retention_index(changed, db).unwrap();
        let generation = progress.generation;
        assert!(is_other);
        assert_ne!(old, generation);
        assert!(!me
            .retention_candidate_is_current(old, candidates[0], clock(200), &score, db)
            .unwrap());
        me.rebuild_retention_index(limit(1), &score, db).unwrap();
        let (newest, newest_post) = post_at(14, author, 4);
        ingest(&me, &newest, &newest_post, true, db);
        delete(&me, 22, &first, db);
        let (progress, is_other) = me.configure_retention_index(changed, db).unwrap();
        assert!(!progress.ready);
        assert!(!is_other);
        ready(&me, db);
        Database::promote_retention_grace(clock(200), limit(10), db).unwrap();
        assert!(!select(old, 200, db).ready);
        let page = select(generation, 200, db);
        assert_eq!(page.candidates.len(), 2);
        for e in [&late, &newest] {
            assert!(page.candidates.iter().any(|c| c.key == key(e)));
        }
        let wrong_holder = RetentionGeneration::new(changed, person(30));
        assert!(!select(wrong_holder, 200, db).ready);
        assert!(!me
            .retention_candidate_is_current(wrong_holder, page.candidates[0], clock(200), &score, db)
            .unwrap());
        let victim = page.candidates[0];
        let outcome = give_up(
            &me,
            &QuotaPruneRequest {
                id: victim.event.to_short(),
                target: QuotaPruneTarget::Processed,
                reason: QuotaPruneReason::GlobalQuota,
                policy: changed,
                clock: clock(200),
            },
            db,
        );
        assert!(matches!(outcome, QuotaPruneOutcome::Pruned { .. }));
        assert!(!me
            .retention_candidate_is_current(generation, victim, clock(200), &score, db)
            .unwrap());
        assert_eq!(select(generation, 200, db).candidates.len(), 1);
        ingest(&me, &late, &late_post, true, db);
        assert_eq!(select(generation, 200, db).candidates.len(), 1);
    });
}

#[test]
fn retention_index_clocks_protection_and_bounded_filtered_visits() {
    run(|db| {
        let me = account(7);
        let remote = person(8);
        for n in 1..4 {
            let (e, post) = post_at(n, remote, n);
            ingest(&me, &e, &post, true, db);
        }
        let (local, local_post) = post_at(4, person(7), 4);
        ingest(&me, &local, &local_post, true, db);
        for n in 5..9 {
            let (e, post) = post_at(n, remote, n);
            ingest(&me, &e, &post, true, db);
            if n == 5 {
                db.events_retention_origins.remove(&e.short_id()).unwrap();
            } else {
                let (header, first) = match n {
                    6 => (6, None),
                    7 => (500, Some(ts(100))),
                    _ => (8, Some(ts(u64::MAX))),
                };
                let row =
                    RetentionOrigins { effective_timestamp: ts(header), materialized_at: first };
                db.events_retention_origins.insert(&e.short_id(), &row).unwrap();
            }
        }
        let (missing, missing_post) = post_at(9, remote, 9);
        ingest(&me, &missing, &missing_post, false, db);
        let generation = me.configure_retention_index(policy(), db).unwrap().0.generation;
        ready(&me, db);
        let promote = |now, db: &mut Tables<'_>| {
            Database::promote_retention_grace(now, limit(10), db).unwrap().unwrap().visited
        };
        assert_eq!(promote(RetentionClock::Untrusted, db), 0);
        assert_eq!(promote(clock(200), db), 3);
        let select = |now, after, n, db: &Tables<'_>| {
            me.select_retention_candidates(generation, None, now, after, limit(n), &score, db)
                .unwrap()
        };
        let page = select(clock(200), None, 10, db);
        assert_eq!(page.candidates.len(), 3);
        let untrusted = select(RetentionClock::Untrusted, None, 10, db);
        assert!(!untrusted.ready);
        assert_eq!(untrusted.visited, 0);
        let rollback = select(clock(109), None, 2, db);
        assert_eq!(rollback.visited, 2);
        assert!(rollback.candidates.is_empty());
        assert!(rollback.scanned_through.is_some());
        let rest = select(clock(99), rollback.scanned_through, 2, db);
        assert_eq!(rest.visited, 1);
        assert!(rest.candidates.is_empty());
        let candidate = page.candidates[0];
        for now in [clock(109), RetentionClock::Untrusted] {
            assert!(!me
                .retention_candidate_is_current(generation, candidate, now, &score, db)
                .unwrap());
        }
        let early = QuotaPruneRequest {
            id: candidate.event.to_short(),
            target: QuotaPruneTarget::Processed,
            reason: QuotaPruneReason::GlobalQuota,
            policy: policy(),
            clock: clock(109),
        };
        assert_eq!(give_up(&me, &early, db), QuotaPruneOutcome::Ineligible);
        assert_eq!(promote(clock(500), db), 1);
        assert_eq!(select(clock(499), None, 10, db).candidates.len(), 3);
    });
}

#[test]
fn quota_checked_eligibility_and_stale_missing_selection() {
    run(|db| {
        let me = account(7);
        let (e, post) = post_at(1, person(8), 1);
        let (local, local_post) = post_at(2, person(7), 2);
        ingest(&me, &e, &post, true, db);
        ingest(&me, &local, &local_post, true, db);
        let req = request(&e, QuotaPruneTarget::Processed);
        assert!(matches!(
            me.prune_quota_payload(&req, false, read_retained, &score, db),
            Err(DbError::PayloadAccountingNotReady)
        ));
        for now in [RetentionClock::Untrusted, clock(99), clock(109)] {
            let early = QuotaPruneRequest { clock: now, ..req };
            assert_eq!(give_up(&me, &early, db), QuotaPruneOutcome::Ineligible);
        }
        assert_eq!(
            give_up(&me, &request(&local, QuotaPruneTarget::Processed), db),
            QuotaPruneOutcome::Ineligible
        );
        assert_eq!(
            give_up(&me, &request(&e, QuotaPruneTarget::Missing), db),
            QuotaPruneOutcome::Unchanged
        );
        db.events_retention_origins.remove(&req.id).unwrap();
        assert_eq!(give_up(&me, &req, db), QuotaPruneOutcome::Ineligible);
        assert!(Database::has_event_content_tx(
            req.id,
            e.event.content_hash,
            &db.events_content_state,
            &db.content_store
        )
        .unwrap());
    });
}

#[test]
fn canonical_post_state_reports_a_pruned_latest_replacement() {
    run(|db| {
        let me = account(7);
        let author = person(8);
        let (original, original_post) = post_at(1, author, 1);
        let (mut replacement, replacement_post) = post_at(2, author, 2);
        replacement.event.parent_aux = Some(original.short_id());
        replacement.event.deletes_parent_aux = true;
        ingest(&me, &original, &original_post, true, db);
        ingest(&me, &replacement, &replacement_post, true, db);
        assert_eq!(
            give_up(&me, &request(&replacement, QuotaPruneTarget::Processed), db),
            QuotaPruneOutcome::Pruned {
                logical_released_bytes: replacement.event.content_len as u64
            }
        );
        let shown =
            Database::get_social_post_state(original.short_id(), &decode, db).unwrap().unwrap();
        assert_eq!(shown.event_id, replacement.short_id());
        assert_eq!(shown.author, author);
        assert_eq!(shown.timestamp, replacement.event.timestamp);
        assert!(shown.post.is_none());
        assert_eq!(
            shown.availability,
            EventContentAvailability::Pruned { quota_reason: Some(QuotaPruneReason::AuthorQuota) }
        );
    });
}

#[test]
fn quota_missing_decline_duplicate_races_and_deleted_precedence() {
    run(|db| {
        let me = account(7);
        let (e, post) = post_at(1, person(8), 1);
        ingest(&me, &e, &post, false, db);
        let req = request(&e, QuotaPruneTarget::Missing);
        let (outcome, actions) =
            me.prune_quota_payload(&req, true, read_retained, &score, db).unwrap();
        assert_eq!(outcome, QuotaPruneOutcome::Pruned { logical_released_bytes: 0 });
        assert_eq!(
            actions,
            vec![
                Action::NominatePayload { content_hash: e.event.content_hash },
                Action::QuotaPruned { event_id: req.id },
            ]
        );
        assert_eq!(give_up(&me, &req, db), QuotaPruneOutcome::Unchanged);
        assert_eq!(
            Database::get_event_content_availability_tx(req.id, db).unwrap(),
            Some(EventContentAvailability::Pruned {
                quota_reason: Some(QuotaPruneReason::AuthorQuota)
            })
        );
        deliver_post(&me, &e, &post, false, 250, db);
        delete(&me, 2, &e, db);
        assert!(matches!(state(db, req.id), Some(EventContentState::Deleted { .. })));
        assert_eq!(
            Database::get_event_content_availability_tx(req.id, db).unwrap(),
            Some(EventContentAvailability::Deleted)
        );
        assert_eq!(give_up(&me, &req, db), QuotaPruneOutcome::Unchanged);
        assert_eq!(
            db.events_quota_pruned.get(&req.id).unwrap(),
            Some(QuotaPruneDecision {
                reason: QuotaPruneReason::AuthorQuota,
                pruned_at: ts(200)
            })
        );
        assert!(db
            .events_content_missing
            .first_from(&(ts(0), ShortEventId::zero()))
            .unwrap()
            .is_none());
        assert!(!db.content_rc.contains(&e.event.content_hash).unwrap());
    });
}

#[test]
fn a_reversion_that_does_not_fit_is_refused() {
    run(|db| {
        let me = account(7);
        let author = person(8);
        let (parent, parent_post) = post_at(1, author, 1);
        let mut reply = text("reply");
        reply.reply_to = Some(ExternalEventId { rostra_id: author, event_id: parent.short_id() });
        let e = post_event(2, author, &reply);
        ingest(&me, &parent, &parent_post, true, db);
        ingest(&me, &e, &reply, true, db);
        let mut record =
            Database::get_social_post_tx(parent.short_id(), &db.social_posts).unwrap().unwrap();
        assert_eq!(record.reply_count, 1);
        record.reply_count = 0;
        db.social_posts.insert(&parent.short_id(), &record).unwrap();
        let req = QuotaPruneRequest {
            clock: clock(5000),
            ..request(&e, QuotaPruneTarget::Processed)
        };
        assert!(matches!(
            me.prune_quota_payload(&req, true, read_retained, &score, db),
            Err(DbError::Overflow)
        ));
    });
}

#[test]
fn quota_dematerializes_a_post_and_keeps_its_lineage() {
    for edit in [false, true] {
        run(|db| {
            let me = account(7);
            let author = person(8);
            let (parent, parent_post) = post_at(1, author, 1);
            let (target, target_post) = post_at(2, author, 2);
            let mut post = text("body");
            post.reply_to =
                Some(ExternalEventId { rostra_id: author, event_id: target.short_id() });
            post.news = true;
            post.reaction = Some("👍".to_owned());
            let mut e = post_event(3, author, &post);
            e.event.timestamp = ts(3);
            if edit {
                e.event.parent_aux = Some(parent.short_id());
                e.event.deletes_parent_aux = true;
            }
            ingest(&me, &parent, &parent_post, true, db);
            ingest(&me, &target, &target_post, true, db);
            arrive(&me, &e, 100, db);
            let (_, actions) = deliver_post(&me, &e, &post, true, 100, db);
            let post_id = ExternalEventId { rostra_id: author, event_id: e.short_id() };
            assert!(actions.contains(&Action::UpsertNewsRank {
                post_id,
                written_at: ts(3),
                now: ts(100)
            }));
            let counts = |db: &Tables<'_>| {
                match Database::get_social_post_tx(target.short_id(), &db.social_posts).unwrap() {
                    Some(r) => (r.reply_count, r.reaction_count),
                    None => (0, 0),
                }
            };
            assert_eq!(counts(db), (1, 1));
            assert!(db.social_posts_self_mention.contains(&e.short_id()).unwrap());
            let (outcome, actions) = me
                .prune_quota_payload(
                    &request(&e, QuotaPruneTarget::Processed),
                    true,
                    read_retained,
                    &score,
                    db,
                )
                .unwrap();
            assert!(matches!(outcome, QuotaPruneOutcome::Pruned { .. }));
            assert!(actions.contains(&Action::RemoveNewsRank { post_id }));
            assert_eq!(state(db, e.short_id()), Some(EventContentState::Pruned));
            ingest(&me, &e, &post, true, db);
            assert_eq!(counts(db), (0, 0));
            assert!(!db.social_posts_by_time.contains(&(ts(3), e.short_id())).unwrap());
            assert!(!db.social_posts_received_at_keys.contains(&e.short_id()).unwrap());
            assert!(!db.social_posts_self_mention.contains(&e.short_id()).unwrap());
            let row = (target.short_id(), ts(3), e.short_id());
            assert!(!db.social_posts_replies.contains(&row).unwrap());
            assert!(!db.social_posts_reactions.contains(&row).unwrap());
            let (new, old) = (e.short_id(), parent.short_id());
            assert_eq!(db.social_posts_replaces.contains(&(author, new, old)).unwrap(), edit);
            assert_eq!(db.social_posts_replaced_by.contains(&(author, old, new)).unwrap(), edit);
        });
    }
}

#[test]
fn retention_deleted_is_stronger_and_keeps_original_quota_reason() {
    run(|db| {
        let me = account(7);
        let author = person(7);
        let (target, post) = post_at(1, author, 10);
        ingest(&me, &target, &post, true, db);
        let decision =
            QuotaPruneDecision { reason: QuotaPruneReason::AuthorQuota, pruned_at: ts(150) };
        Database::process_event_content_reverted_tx(&target, &Some(text("post 10")), db).unwrap();
        Database::prune_event_content_tx(
            target.short_id(),
            target.event.content_hash,
            db,
            Some((author, target.event.content_len)),
        )
        .unwrap();
        db.events_quota_pruned.insert(&target.short_id(), &decision).unwrap();
        let mut deleter = deletion(2, &target);
        deleter.event.timestamp = ts(20);
        arrive(&me, &deleter, 200, db);
        for _ in 0..2 {
            ingest(&me, &target, &post, true, db);
            assert_eq!(
                state(db, target.short_id()),
                Some(EventContentState::Deleted { deleted_by: deleter.short_id() })
            );
            assert_eq!(db.events_quota_pruned.get(&target.short_id()).unwrap(), Some(decision));
            let usage = Database::get_data_usage_tx(author, &db.ids_data_usage).unwrap();
            assert_eq!(usage.pruned_payload_size, 0);
            assert_eq!(usage.deleted_payload_size, target.event.content_len as u64);
            assert!(!db.content_rc.contains(&target.event.content_hash).unwrap());
        }
    });
}

#[test]
fn an_index_that_lost_a_row_is_refused() {
    run(|db| {
        let me = account(7);
        let (e, post) = post_at(1, person(8), 1);
        ingest(&me, &e, &post, true, db);
        me.configure_retention_index(policy(), db).unwrap();
        ready(&me, db);
        db.content_retention_grace.remove(&(110, e.short_id())).unwrap();
        assert!(matches!(
            Database::remove_retention_entry_tx(e.short_id(), db),
            Err(DbError::PayloadAccountingInvariant)
        ));
        let generation = RetentionGeneration::new(policy(), person(30));
        assert!(matches!(
            me.derive_retention_entry_tx(generation, e.short_id(), &score, db),
            Err(DbError::PayloadAccountingInvariant)
        ));
    });
}

#[test]
fn retention_index_safe_kinds_and_negative_keys_during_live_updates() {
    run(|db| {
        let me = account(41);
        let remote = person(42);
        let newest_first = |_: RetentionPolicy, _: EventId, _: RostraId, _: u32, age: Timestamp| {
            (100, 1000 - age.secs)
        };
        let generation = me.configure_retention_index(policy(), db).unwrap().0.generation;
        assert!(me.rebuild_retention_index(limit(1), &newest_first, db).unwrap().unwrap().ready);
        let mut posts: Vec<(VerifiedEvent, SocialPost)> =
            (1..=12).map(|time| post_at(100 + time, remote, time)).collect();
        posts.reverse();
        let take = |e: &VerifiedEvent, payload: Option<(Vec<u8>, Payload)>, db: &mut Tables<'_>| {
            me.process_event_tx(e, ts(100), true, read_retained, &newest_first, db).unwrap();
            if let Some((raw, payload)) = payload {
                me.process_event_content_tx(e, raw, payload, ts(100), &newest_first, db).unwrap();
            }
        };
        for (e, post) in &posts {
            let payload =
                Payload::SocialPost { post: decode(&encode(post)).unwrap(), mentions_self: false };
            take(e, Some((encode(post), payload)), db);
        }
        for (n, kind) in [(50, EventKind::Shoutbox), (51, EventKind::Other(65535))] {
            let e = event(n, remote, kind, &[9]);
            let payload =
                if kind == EventKind::Shoutbox { Payload::Shoutbox } else { Payload::Opaque };
            take(&e, Some((vec![9], payload)), db);
            assert_eq!(state(db, e.short_id()), None);
            assert!(!db.content_retention_reverse.contains(&e.short_id()).unwrap());
        }
        let empty = event(52, remote, EventKind::SocialPost, &[]);
        take(&empty, None, db);
        assert!(!db.content_retention_reverse.contains(&empty.short_id()).unwrap());
        let remove = |n, i: usize, db: &mut Tables<'_>| {
            let mut d = deletion(n, &posts[i].0);
            d.event.timestamp = ts(300);
            take(&d, None, db);
        };
        remove(60, 0, db);
        let mut promoted = 0;
        loop {
            let progress =
                Database::promote_retention_grace(clock(110), limit(2), db).unwrap().unwrap();
            assert!(progress.visited <= 2);
            promoted += progress.visited;
            if progress.visited == 0 {
                break;
            }
        }
        assert_eq!(promoted, posts.len() - 1);
        assert!(Database::retention_selection_ready_tx(generation, ts(110), db).unwrap());
        remove(61, 1, db);
        let expected: Vec<EventId> = posts[2..].iter().map(|(e, _)| e.event_id).collect();
        let mut found = vec![];
        let mut after = None;
        loop {
            let page = me
                .select_retention_candidates(
                    generation,
                    Some(remote),
                    clock(110),
                    after,
                    limit(2),
                    &newest_first,
                    db,
                )
                .unwrap();
            assert!(page.visited <= 2);
            found.extend(page.candidates.iter().map(|c| c.event));
            after = page.scanned_through;
            if page.visited == 0 {
                break;
            }
        }
        assert_eq!(found, expected);
    });
}

#[test]
fn quota_missing_shared_prune_preserves_current_reference_and_exact_author_buckets() {
    run(|db| {
        let me = account(7);
        let (a, b) = (person(8), person(9));
        let post = text("shared current and missing");
        let current = post_event(1, a, &post);
        let missing = post_event(2, b, &post);
        assert_eq!(current.event.content_hash, missing.event.content_hash);
        let later = |e: &VerifiedEvent, target| QuotaPruneRequest {
            clock: clock(5000),
            ..request(e, target)
        };
        ingest(&me, &current, &post, true, db);
        ingest(&me, &missing, &post, false, db);
        let bytes = current.event.content_len as u64;
        assert_eq!(
            give_up(&me, &later(&missing, QuotaPruneTarget::Missing), db),
            QuotaPruneOutcome::Pruned { logical_released_bytes: 0 }
        );
        assert!(Database::has_event_content_tx(
            current.short_id(),
            current.event.content_hash,
            &db.events_content_state,
            &db.content_store
        )
        .unwrap());
        let ua = Database::get_data_usage_tx(a, &db.ids_data_usage).unwrap();
        let ub = Database::get_data_usage_tx(b, &db.ids_data_usage).unwrap();
        assert_eq!((ua.current_content_size, ua.current_payload_num), (bytes, 1));
        assert_eq!((ua.pruned_payload_size, ua.pruned_payload_num), (0, 0));
        assert_eq!((ub.current_content_size, ub.current_payload_num), (0, 0));
        assert_eq!((ub.missing_payload_size, ub.missing_payload_num), (0, 0));
        assert_eq!((ub.pruned_payload_size, ub.pruned_payload_num), (bytes, 1));
        assert_eq!((ub.total_content_size, ub.total_payload_num), (bytes, 1));
        assert_eq!(
            Database::get_content_rc_tx(current.event.content_hash, &db.content_rc).unwrap(),
            1
        );
        assert_eq!(
            give_up(&me, &later(&current, QuotaPruneTarget::Processed), db),
            QuotaPruneOutcome::Pruned { logical_released_bytes: bytes }
        );
        assert!(!db.content_rc.contains(&current.event.content_hash).unwrap());
    });
}

#[test]
fn quota_processed_delete_and_delivery_race_has_one_reference_release() {
    for prune_first in [true, false] {
        run(|db| {
            let me = account(7);
            let author = person(8);
            let (e, post) = post_at(1, author, 1);
            ingest(&me, &e, &post, true, db);
            let req = request(&e, QuotaPruneTarget::Processed);
            if !prune_first {
                delete(&me, 2, &e, db);
            }
            let outcome = give_up(&me, &req, db);
            deliver_post(&me, &e, &post, false, 250, db);
            if prune_first {
                delete(&me, 2, &e, db);
            }
            assert_eq!(prune_first, matches!(outcome, QuotaPruneOutcome::Pruned { .. }));
            assert_eq!(!prune_first, outcome == QuotaPruneOutcome::Unchanged);
            assert!(matches!(state(db, req.id), Some(EventContentState::Deleted { .. })));
            let u = Database::get_data_usage_tx(author, &db.ids_data_usage).unwrap();
            assert_eq!(u.current_content_size, 0);
            assert_eq!(u.pruned_payload_size, 0);
            assert_eq!(u.deleted_payload_size, e.event.content_len as u64);
            assert!(!db.content_rc.contains(&e.event.content_hash).unwrap());
            assert_eq!(db.events_quota_pruned.contains(&req.id).unwrap(), prune_first);
        });
    }
}

#[test]
fn startup_invalid_allowances_fail_before_account_publication() {
    assert!(limits().is_valid());
    for bad in [
        PayloadRuntimeLimits { bytes: 0, ..limits() },
        PayloadRuntimeLimits { gc_bytes: 0, ..limits() },
        PayloadRuntimeLimits { time: 0, ..limits() },
        PayloadRuntimeLimits { operations: limit(4097), ..limits() },
    ] {
        assert!(!bad.is_valid());
    }
    assert!(PayloadRuntimeLimits { operations: limit(4096), ..limits() }.is_valid());
    assert_eq!(admission(77).database_bytes, 77);
}

#[test]
fn grace_ends_with_its_last_second() {
    let p = policy();
    assert!(!p.grace_elapsed(None, ts(u64::MAX)));
    assert!(!p.grace_elapsed(Some(ts(100)), ts(109)));
    assert!(p.grace_elapsed(Some(ts(100)), ts(110)));
    assert!(!p.grace_elapsed(Some(ts(u64::MAX)), ts(u64::MAX)));
}
