use smtp2cf::cloudflare::DeliveryDecision;
use smtp2cf::config::QueueConfig;
use smtp2cf::queue::{
    is_spool_file, DueScan, PendingMessage, QueueEnvelope, QueueStore, SpoolAction,
    SpoolWrite,
};

fn queue_config() -> QueueConfig {
    QueueConfig {
        spool_dir: "/base/spool".into(),
        max_attempts: 3,
        backoff_initial_secs: 5,
        backoff_max_secs: 30,
        poll_interval_secs: 1,
    }
}

fn enqueue(queue: &mut QueueStore) -> SpoolWrite {
    queue.enqueue(
        1000,
        8,
        "sender@example.com".into(),
        vec!["to@example.net".into()],
        b"Subject: test\r\n\r\nHello",
    )
}

fn rewritten(action: SpoolAction) -> SpoolWrite {
    match action {
        SpoolAction::Rewrite(write) => write,
        _ => panic!("the message is not pending"),
    }
}

#[test]
fn enqueue_creates_pending_file() {
    let mut queue = QueueStore::new(queue_config());

    let write = enqueue(&mut queue);

    assert_eq!(queue.pending_path(&write.envelope.id), write.path);
    assert_eq!(write.path, "/base/spool/pending/1000-8-1.json");
    assert_eq!(write.tmp_path, "/base/spool/pending/1000-8-1.tmp");
}

#[test]
fn retry_eventually_moves_to_dead() {
    let mut queue = QueueStore::new(queue_config());
    let write = enqueue(&mut queue);
    let file_name = format!("{}.json", write.envelope.id);

    let write = rewritten(queue.mark_retry(&file_name, write.envelope, "temporary", 1000));
    assert_eq!(write.envelope.attempt_count, 1);
    assert_eq!(write.envelope.next_attempt_at, 1005);
    assert_eq!(write.envelope.last_error.as_deref(), Some("temporary"));
    assert_eq!(write.path, "/base/spool/pending/1000-8-1.json");
    assert_eq!(write.tmp_path, "/base/spool/pending/1000-8-1.tmp");
    let write = rewritten(queue.mark_retry(&file_name, write.envelope, "temporary", 2000));
    assert_eq!(write.envelope.attempt_count, 2);
    assert_eq!(write.envelope.next_attempt_at, 2010);

    match queue.mark_retry(&file_name, write.envelope, "temporary", 3000) {
        SpoolAction::Bury {
            envelope,
            path,
            dead_path,
        } => {
            assert_eq!(path, "/base/spool/pending/1000-8-1.json");
            assert_eq!(dead_path, format!("{}/{file_name}", queue.dead_dir));
            assert_eq!(dead_path, "/base/spool/dead/1000-8-1.json");
            assert_eq!(envelope.attempt_count, 3);
            assert_eq!(envelope.next_attempt_at, 2010);
            assert_eq!(envelope.last_error.as_deref(), Some("temporary"));
            assert_eq!(envelope.raw_mime().unwrap(), b"Subject: test\r\n\r\nHello");
        }
        _ => panic!("the message is not dead"),
    }
}

#[test]
fn a_message_without_attempts_left_is_dead_with_the_next_failure() {
    let mut queue = QueueStore::new(queue_config());
    let mut envelope = enqueue(&mut queue).envelope;
    envelope.attempt_count = 7;
    match queue.mark_retry("m.json", envelope, "temporary", 0) {
        SpoolAction::Bury { envelope, .. } => assert_eq!(envelope.attempt_count, 8),
        _ => panic!("the message is not dead"),
    }
}

#[test]
fn a_spooled_message_reads_back() {
    let write = enqueue(&mut QueueStore::new(queue_config()));
    let envelope = write.envelope;
    assert_eq!(envelope.id, "1000-8-1");
    assert_eq!(envelope.envelope_from, "sender@example.com");
    assert_eq!(envelope.recipients, vec!["to@example.net"]);
    assert_eq!(envelope.raw_mime_b64, "U3ViamVjdDogdGVzdA0KDQpIZWxsbw==");
    assert_eq!(envelope.attempt_count, 0);
    assert_eq!(envelope.next_attempt_at, 1000);
    assert_eq!(envelope.created_at, 1000);
    assert_eq!(envelope.last_error, None);
    assert_eq!(envelope.raw_mime().unwrap(), b"Subject: test\r\n\r\nHello");
}

#[test]
fn every_byte_survives_the_spool() {
    let raw: Vec<u8> = (0..=255u8).collect();
    let mut queue = QueueStore::new(queue_config());
    for length in 0..=raw.len() {
        let write = queue.enqueue(0, 0, "".into(), vec![], &raw[..length]);
        assert_eq!(write.envelope.raw_mime().unwrap(), raw[..length]);
    }
}

#[test]
fn a_damaged_message_does_not_decode() {
    let mut envelope = enqueue(&mut QueueStore::new(queue_config())).envelope;
    envelope.raw_mime_b64 = "U3Vi*".into();
    assert!(envelope.raw_mime().is_err());
}

#[test]
fn waits_double_up_to_the_longest() {
    let queue = QueueStore::new(queue_config());
    let waits: Vec<u64> = (0..6).map(|n| queue.backoff_seconds(n)).collect();
    assert_eq!(waits, vec![5, 5, 10, 20, 30, 30]);
    assert_eq!(queue.backoff_seconds(u32::MAX), 30);

    let mut config = queue_config();
    config.backoff_max_secs = u64::MAX;
    let queue = QueueStore::new(config.clone());
    assert_eq!(queue.backoff_seconds(16), 5 * 32768);
    assert_eq!(queue.backoff_seconds(17), 5 * 65536);
    assert_eq!(queue.backoff_seconds(18), 5 * 65536);

    config.backoff_initial_secs = u64::MAX / 2;
    let queue = QueueStore::new(config);
    assert_eq!(queue.backoff_seconds(2), u64::MAX - 1);
    assert_eq!(queue.backoff_seconds(3), u64::MAX);
}

#[test]
fn an_attempt_is_settled() {
    let mut queue = QueueStore::new(queue_config());
    let envelope = enqueue(&mut queue).envelope;
    let settle = |outcome| queue.settle_attempt("m.json", envelope.clone(), outcome, 50);

    assert!(matches!(
        settle(Ok(DeliveryDecision::Delivered)),
        SpoolAction::Remove { path } if path == "/base/spool/pending/m.json"
    ));

    let write = rewritten(settle(Ok(DeliveryDecision::Retry("busy".into()))));
    assert_eq!(write.envelope.attempt_count, 1);
    assert_eq!(write.envelope.next_attempt_at, 55);
    assert_eq!(write.envelope.last_error.as_deref(), Some("busy"));
    assert_eq!(write.tmp_path, "/base/spool/pending/m.tmp");

    let write = rewritten(settle(Err("unreadable".into())));
    assert_eq!(write.envelope.attempt_count, 1);
    assert_eq!(write.envelope.last_error.as_deref(), Some("unreadable"));

    match settle(Ok(DeliveryDecision::Dead("refused".into()))) {
        SpoolAction::Bury {
            envelope: dead,
            path,
            dead_path,
        } => {
            assert_eq!(dead.attempt_count, 0);
            assert_eq!(dead.last_error.as_deref(), Some("refused"));
            assert_eq!(dead.recipients, envelope.recipients);
            assert_eq!(path, "/base/spool/pending/m.json");
            assert_eq!(dead_path, "/base/spool/dead/m.json");
        }
        _ => panic!("the message is not dead"),
    }
}

#[test]
fn a_retried_message_is_due_after_its_wait() {
    let mut queue = QueueStore::new(queue_config());
    let envelope = enqueue(&mut queue).envelope;
    let write = rewritten(queue.mark_retry("m.json", envelope, "busy", 50));
    for (now, due) in [(50, false), (54, false), (55, true), (56, true)] {
        let mut scan = DueScan::new(now);
        scan.offer(PendingMessage {
            file_name: "m.json".into(),
            envelope: write.envelope.clone(),
        });
        assert_eq!(scan.next_due_envelope().is_some(), due);
    }
}

#[test]
fn files_are_rewritten_under_another_name_first() {
    let mut queue = QueueStore::new(queue_config());
    let envelope = enqueue(&mut queue).envelope;
    let tmp = |file_name: &str| {
        rewritten(queue.rewrite_pending(file_name, envelope.clone())).tmp_path
    };
    for name in ["a.json", "a.b.json", "plain", ".json", "a."] {
        let pending = std::path::Path::new("/base/spool/pending").join(name);
        assert_eq!(tmp(name), pending.with_extension("tmp").to_str().unwrap());
        assert!(!is_spool_file(&tmp(name)));
    }
}

#[test]
fn spool_files_are_told_by_their_extension() {
    for name in [
        "a.json", "1-2-3.json", "..json", "a.tmp.json", ".json", "json", "a.tmp", "a.json.tmp",
        "ajson", "a.JSON", "a.jsonx", "", "\u{fc}.json",
    ] {
        let extension = std::path::Path::new(name)
            .extension()
            .and_then(|ext| ext.to_str());
        assert_eq!(is_spool_file(name), extension == Some("json"), "{name}");
    }
}

#[test]
fn ids_name_time_process_and_sequence() {
    let mut queue = QueueStore::new(queue_config());
    assert_eq!(queue.next_id(1776556154, 4321), "1776556154-4321-1");
    assert_eq!(queue.next_id(0, 0), "0-0-2");
    queue.sequence = u64::MAX;
    assert_eq!(queue.next_id(1, 11), "1-11-18446744073709551615");
    assert_eq!(queue.next_id(11, 1), "11-1-0");
    assert_eq!(queue.sequence, 1);
    assert!(is_spool_file(&format!("{}.json", queue.next_id(1, 2))));
}

#[test]
fn messages_of_one_second_do_not_collide() {
    let mut queue = QueueStore::new(queue_config());
    let first = enqueue(&mut queue);
    let second = enqueue(&mut queue);
    assert_eq!(first.envelope.id, "1000-8-1");
    assert_eq!(second.envelope.id, "1000-8-2");
    assert_ne!(first.path, second.path);
    assert_ne!(first.tmp_path, second.tmp_path);
    assert_eq!(queue.pending_dir, "/base/spool/pending");
    assert_eq!(queue.config.max_attempts, 3);
}

#[test]
fn the_message_due_first_is_next() {
    let message = |file_name: &str, next_attempt_at: u64| PendingMessage {
        file_name: file_name.into(),
        envelope: QueueEnvelope {
            id: file_name.into(),
            envelope_from: "".into(),
            recipients: vec![],
            raw_mime_b64: "".into(),
            attempt_count: 0,
            next_attempt_at,
            last_error: None,
            created_at: 0,
        },
    };
    assert!(DueScan::new(10).next_due_envelope().is_none());

    let mut scan = DueScan::new(10);
    scan.offer(message("later", 11));
    assert!(scan.next_due_envelope().is_none());

    let mut scan = DueScan::new(10);
    for (name, at) in [("later", 11), ("a", 10), ("b", 4), ("c", 4), ("d", 7)] {
        scan.offer(message(name, at));
    }
    assert_eq!(scan.next_due_envelope().unwrap().file_name, "b");
}

#[test]
fn the_worker_pauses_when_nothing_was_due() {
    let mut config = queue_config();
    config.poll_interval_secs = 5;
    let queue = QueueStore::new(config);
    assert_eq!(queue.worker_pause_secs(true), 0);
    assert_eq!(queue.worker_pause_secs(false), 5);
}

#[test]
fn carried_out_actions_move_one_message_only() {
    let mut queue = QueueStore::new(queue_config());
    let mut files: std::collections::BTreeMap<String, u32> = Default::default();
    for _ in 0..2 {
        let write = enqueue(&mut queue);
        files.insert(write.tmp_path.clone(), write.envelope.attempt_count);
        let written = files.remove(&write.tmp_path).unwrap();
        files.insert(write.path, written);
    }
    let pending = "/base/spool/pending/1000-8-1.json".to_string();
    let other = "/base/spool/pending/1000-8-2.json".to_string();
    let dead = "/base/spool/dead/1000-8-1.json".to_string();
    assert_eq!(
        files.clone().into_iter().collect::<Vec<_>>(),
        vec![(pending.clone(), 0), (other.clone(), 0)]
    );

    let envelope = enqueue(&mut queue).envelope;
    let retry = Ok(DeliveryDecision::Retry("busy".into()));
    let write = rewritten(queue.settle_attempt("1000-8-1.json", envelope, retry, 50));
    files.insert(write.tmp_path.clone(), write.envelope.attempt_count);
    let written = files.remove(&write.tmp_path).unwrap();
    files.insert(write.path, written);
    assert_eq!(
        files.clone().into_iter().collect::<Vec<_>>(),
        vec![(pending, 1), (other.clone(), 0)]
    );

    let refused = Ok(DeliveryDecision::Dead("refused".into()));
    match queue.settle_attempt("1000-8-1.json", write.envelope, refused, 60) {
        SpoolAction::Bury {
            envelope,
            path,
            dead_path,
        } => {
            files.insert(dead_path, envelope.attempt_count);
            files.remove(&path);
        }
        _ => panic!("the message is not dead"),
    }
    assert_eq!(
        files.into_iter().collect::<Vec<_>>(),
        vec![(dead, 1), (other, 0)]
    );
}
