use swapd::files::{lock_name, lock_probe, nonce, tmp_name, Watcher};

#[test]
fn probe_missing_file_is_not_held_and_creates_nothing() {
    let probe = lock_probe(None, None);
    assert!(!probe.held);
    assert_eq!(probe.note, None);
    assert_eq!(lock_probe(None, Some("note")).note, None);
}

#[test]
fn probe_reports_a_held_lock() {
    let probe = lock_probe(Some(true), Some("held-by-test"));
    assert!(probe.held);
    assert_eq!(probe.note.as_deref(), Some("held-by-test"));
    let probe = lock_probe(Some(false), Some(" held-by-test\n"));
    assert!(!probe.held);
    assert_eq!(probe.note.as_deref(), Some("held-by-test"));
    assert_eq!(lock_probe(Some(true), Some(" \n")).note, None);
}

#[test]
fn the_manifest_lock_file_is_named_after_it() {
    assert_eq!(lock_name("unclaimed.json"), "unclaimed.json.lock");
}

#[test]
fn a_nudge_wakes_the_watcher_once_and_a_quiet_file_never_does() {
    let mut watcher = Watcher::new(Vec::new());
    assert!(!watcher.look(Vec::new()), "a quiet file woke it");
    let first = nonce();
    assert!(watcher.look(first.clone().into_bytes()), "a nudge did not wake it");
    assert!(!watcher.look(first.into_bytes()), "one nudge woke it twice");
    assert!(watcher.look(nonce().into_bytes()), "a second nudge did not wake it");
}

#[test]
fn names_of_files_to_be_are_hidden_and_differ() {
    let (a, b) = (tmp_name("slots.json"), tmp_name("slots.json"));
    assert!(a.starts_with(".slots.json.tmp."), "{a}");
    assert_ne!(a, b);
}
