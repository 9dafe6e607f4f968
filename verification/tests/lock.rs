use ustreamer::lock::{lock_contents, parse_lock, StreamLock};

#[test]
fn fresh_lock_terminates_nobody() {
    let (lock, plan) = StreamLock::plan_acquire(b"/run/kvmd/ustreamer.lock".to_vec(), None, true, 4321, b"2024-01-01 00:00:00 UTC");
    assert_eq!(plan.terminate, None);
    assert_eq!(plan.contents, b"4321\n2024-01-01 00:00:00 UTC".to_vec());
    assert_eq!(lock.path(), b"/run/kvmd/ustreamer.lock".to_vec());
}

#[test]
fn recorded_owner_is_terminated_and_overwritten() {
    let old = lock_contents(77, b"then");
    let (_, plan) = StreamLock::plan_acquire(b"p".to_vec(), Some(&old), true, 78, b"now");
    assert_eq!(plan.terminate, Some(77));
    assert_eq!(plan.contents, b"78\nnow".to_vec());
    let (_, plan) = StreamLock::plan_acquire(b"p".to_vec(), Some(&old), false, 78, b"now");
    assert_eq!(plan.terminate, None);
    assert_eq!(plan.contents, b"78\nnow".to_vec());
    let (_, plan) = StreamLock::plan_acquire(b"p".to_vec(), Some(b"garbage"), true, 78, b"");
    assert_eq!(plan.terminate, None);
    assert_eq!(plan.contents, b"78\n".to_vec());
}

#[test]
fn lock_file_is_read_back() {
    let record = parse_lock(&lock_contents(4294967295, b"a\nb")).unwrap();
    assert_eq!(record.pid, 4294967295);
    assert_eq!(record.stamp, b"a\nb".to_vec());
    let record = parse_lock(b"12").unwrap();
    assert_eq!(record.pid, 12);
    assert!(record.stamp.is_empty());
    assert!(parse_lock(b"4294967296\n").is_none());
    assert!(parse_lock(b"").is_none());
    assert!(parse_lock(b"\n12").is_none());
    assert!(parse_lock(b"12 \n").is_none());
}
