use smtp2cf::reload::{CertSnapshot, CertWatcher, WatchStep, CERT_POLL_INTERVAL_SECS};

fn snapshot(cert_modified: i128, cert_len: u64) -> CertSnapshot {
    CertSnapshot {
        cert_modified,
        cert_len,
        key_modified: 5_000_000_000,
        key_len: 6,
    }
}

#[test]
fn snapshot_changes_when_files_change() {
    let first = snapshot(5_000_000_000, 7);
    let second = snapshot(6_100_000_000, 7);

    assert_ne!(first, second);
    assert_eq!(
        CertWatcher::new(first).observe(Some(second)),
        WatchStep::CheckPair(second)
    );
}

#[test]
fn only_changed_files_are_checked() {
    let watcher = CertWatcher::new(snapshot(1, 1));
    assert_eq!(watcher.observe(None), WatchStep::Unreadable);
    assert_eq!(watcher.observe(Some(snapshot(1, 1))), WatchStep::Unchanged);
    for next in [snapshot(2, 1), snapshot(1, 2), snapshot(0, 1)] {
        assert_eq!(watcher.observe(Some(next)), WatchStep::CheckPair(next));
    }
}

#[test]
fn a_pair_is_taken_up_once_it_is_valid() {
    let next = snapshot(2, 2);
    let mut watcher = CertWatcher::new(snapshot(1, 1));
    assert!(!watcher.conclude(next, false));
    assert_eq!(watcher.observe(Some(next)), WatchStep::CheckPair(next));
    assert!(watcher.conclude(next, true));
    assert_eq!(watcher.observe(Some(next)), WatchStep::Unchanged);
    assert_eq!(CERT_POLL_INTERVAL_SECS, 30);
}
