use astral::git::{dirty_file_count, git_output, snapshot, unavailable};
use astral::index::hash_bytes;

#[test]
fn git_output_is_trimmed_and_empty_output_is_none() {
    assert_eq!(git_output(Some(b"  main\n".to_vec())), Some("main".to_owned()));
    assert_eq!(git_output(Some(b" \n\t".to_vec())), None);
    assert_eq!(git_output(None), None);
    assert_eq!(git_output(Some(vec![0xff, b'a'])), Some("\u{fffd}a".to_owned()));
}

#[test]
fn dirty_files_are_the_non_empty_status_entries() {
    assert_eq!(dirty_file_count(b""), 0);
    assert_eq!(dirty_file_count(b" M app.ts\0?? new.ts\0"), 2);
    assert_eq!(dirty_file_count(b"\0\0 M a\0\0"), 1);
}

#[test]
fn snapshots_record_head_branch_and_dirty_state() {
    let status = b" M app.ts\0".to_vec();
    let s = snapshot(Some("abc".to_owned()), Some("main".to_owned()), &status);
    assert!(s.available);
    assert_eq!(s.head.as_deref(), Some("abc"));
    assert_eq!(s.branch.as_deref(), Some("main"));
    assert!(s.dirty);
    assert_eq!(s.dirty_file_count, 1);
    assert_eq!(s.worktree_hash, Some(hash_bytes(&status)));
    let clean = snapshot(Some("abc".to_owned()), None, b"");
    assert!(!clean.dirty);
    assert_eq!(clean.branch, None);
    assert_eq!(snapshot(None, Some("main".to_owned()), b"x"), unavailable());
}
