use astral::logging::{
    backup_path, log_path, needs_rotation, rotation_steps, RotationStep, LOG_FILE_NAME,
    MAX_LOG_BACKUPS, MAX_LOG_FILE_BYTES,
};

#[test]
fn log_files_and_backups() {
    assert_eq!(LOG_FILE_NAME, "astral.log");
    assert_eq!(log_path("/data"), "/data/astral.log");
    assert_eq!(backup_path("/data/astral.log", 3), "/data/astral.log.3");
    assert_eq!(MAX_LOG_FILE_BYTES, 10 * 1024 * 1024);
    assert_eq!(MAX_LOG_BACKUPS, 5);
}

#[test]
fn rotation_happens_past_the_limit() {
    assert!(!needs_rotation(5, 5, 10));
    assert!(needs_rotation(6, 5, 10));
    assert!(needs_rotation(u64::MAX, 1, 10));
    assert!(!needs_rotation(u64::MAX, 1, u64::MAX));
}

#[test]
fn rotates_and_keeps_configured_backup_count() {
    let steps = rotation_steps("log", 3);
    let remove = |p: &str| RotationStep::Remove(p.to_owned());
    let rename = |a: &str, b: &str| RotationStep::Rename(a.to_owned(), b.to_owned());
    assert_eq!(
        steps,
        vec![
            remove("log.3"),
            remove("log.3"),
            rename("log.2", "log.3"),
            remove("log.2"),
            rename("log.1", "log.2"),
            remove("log.1"),
            rename("log", "log.1"),
        ]
    );
}
