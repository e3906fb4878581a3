use astral::analyzer::{AnalysisResult, AnalyzerMetadata, Diagnostic, DiagnosticSeverity};
use astral::incremental::{
    diagnostics_message, file_update, relative_path, DirtyBatcher, IncrementalIndexer, IndexedFile,
    ObservedFile, RefreshPlan, RefreshReport, DEFAULT_BATCH_WINDOW, DEFAULT_DEBOUNCE,
};
use astral::index::{FileStateStatus, IndexStatus};

const MS: u64 = 1_000_000;

#[test]
fn batcher_deduplicates_paths_and_flushes_at_debounce() {
    let mut batcher = DirtyBatcher::new(500 * MS, 1_000 * MS);
    let start: u64 = 7_000 * MS;
    batcher.record("app.ts".to_owned(), start);
    batcher.record("app.ts".to_owned(), start);
    assert!(!batcher.ready(start + 499 * MS));
    assert!(batcher.ready(start + 500 * MS));
    assert_eq!(batcher.take(start + 500 * MS), vec!["app.ts".to_owned()]);
}

#[test]
fn debounce_and_batch_windows_are_deterministic() {
    let mut batcher = DirtyBatcher::new(500 * MS, 1_000 * MS);
    let start: u64 = 42 * MS;
    batcher.record("app.ts".into(), start);
    assert!(!batcher.ready(start + 499 * MS));
    assert!(batcher.ready(start + 500 * MS));
    let paths = batcher.take(start + 500 * MS);
    assert_eq!(paths, vec!["app.ts".to_owned()]);
}

#[test]
fn batcher_counts_one_place_once_whatever_its_spelling() {
    let mut batcher = DirtyBatcher::new(500 * MS, 1_000 * MS);
    batcher.record("src/app.ts".to_owned(), 0);
    batcher.record("src//app.ts".to_owned(), 1);
    batcher.record("src/./app.ts".to_owned(), 2);
    assert_eq!(batcher.take(3), vec!["src/app.ts".to_owned()]);
}

#[test]
fn batcher_takes_paths_in_path_order() {
    let mut batcher = DirtyBatcher::new(500 * MS, 1_000 * MS);
    batcher.record("b.ts".to_owned(), 0);
    batcher.record("a/z.ts".to_owned(), 0);
    batcher.record("a.ts".to_owned(), 0);
    batcher.record("a-b.ts".to_owned(), 0);
    assert_eq!(
        batcher.take(0),
        vec!["a/z.ts".to_owned(), "a-b.ts".to_owned(), "a.ts".to_owned(), "b.ts".to_owned()]
    );
}

#[test]
fn batch_window_flushes_a_busy_batch() {
    let mut batcher = DirtyBatcher::new(500 * MS, 1_000 * MS);
    for step in 0..5u64 {
        batcher.record("app.ts".to_owned(), step * 300 * MS);
    }
    assert!(!batcher.ready(999 * MS));
    assert!(batcher.ready(1_000 * MS));
}

#[test]
fn nothing_is_ready_after_take_or_before_any_change() {
    let mut batcher = DirtyBatcher::new(0, 0);
    assert!(!batcher.ready(10));
    batcher.record("app.ts".to_owned(), 5);
    assert!(batcher.ready(5));
    assert_eq!(batcher.take(5).len(), 1);
    assert!(!batcher.ready(u64::MAX));
    assert!(batcher.take(6).is_empty());
}

#[test]
fn time_going_backwards_counts_as_no_time() {
    let mut batcher = DirtyBatcher::new(10, 20);
    batcher.record("app.ts".to_owned(), 100);
    assert!(!batcher.ready(50));
}

#[test]
fn indexer_keeps_its_settings() {
    let indexer = IncrementalIndexer::new("repo", "/work/repo", "/data/index.sqlite");
    assert_eq!(indexer.repository_name(), "repo");
    assert_eq!(indexer.root(), "/work/repo");
    assert_eq!(indexer.database_path(), "/data/index.sqlite");
    assert_eq!(indexer.debounce(), DEFAULT_DEBOUNCE);
    assert_eq!(indexer.batch_window(), DEFAULT_BATCH_WINDOW);
    assert_eq!(DEFAULT_DEBOUNCE, 500 * MS);
    assert_eq!(DEFAULT_BATCH_WINDOW, 1_000 * MS);
    let tuned = indexer.with_timing(5, 9);
    assert_eq!(tuned.debounce(), 5);
    assert_eq!(tuned.batch_window(), 9);
    assert_eq!(tuned.repository_name(), "repo");
}

fn status(indexed: bool, schema_version: i64) -> IndexStatus {
    IndexStatus {
        indexed,
        database_path: "/data/index.sqlite".to_owned(),
        schema_version,
        file_count: 0,
        symbol_count: 0,
        diagnostic_count: 0,
        stale_count: 0,
        missing_count: 0,
        snapshot_head: None,
        snapshot_branch: None,
        working_tree_dirty: false,
        dirty_file_count: 0,
        snapshot_stale: false,
    }
}

fn observed(path: &str, hash: &str, state: Option<FileStateStatus>) -> ObservedFile {
    ObservedFile { relative_path: path.to_owned(), content_hash: hash.to_owned(), state }
}

fn indexed(path: &str, hash: &str) -> IndexedFile {
    IndexedFile { relative_path: path.to_owned(), content_hash: hash.to_owned() }
}

#[test]
fn refresh_rebuilds_a_missing_legacy_or_renamed_index() {
    let indexer = IncrementalIndexer::new("repo-one", "/r", "/d");
    let name = Some("repo-one".to_owned());
    assert_eq!(indexer.refresh(&status(false, 0), &name, &vec![], &vec![]), RefreshPlan::Rebuild);
    assert_eq!(indexer.refresh(&status(false, 4), &name, &vec![], &vec![]), RefreshPlan::Rebuild);
    assert_eq!(
        indexer.refresh(&status(true, 5), &Some("old-name".to_owned()), &vec![], &vec![]),
        RefreshPlan::Rebuild
    );
    assert_eq!(indexer.refresh(&status(true, 5), &None, &vec![], &vec![]), RefreshPlan::Rebuild);
}

#[test]
fn refresh_updates_changed_and_unfresh_files_and_removes_deleted_ones() {
    let indexer = IncrementalIndexer::new("repo", "/r", "/d");
    let current = vec![
        observed("same.ts", "h1", Some(FileStateStatus::Fresh)),
        observed("changed.ts", "new", Some(FileStateStatus::Fresh)),
        observed("stale.ts", "h3", Some(FileStateStatus::Stale)),
        observed("added.ts", "h4", None),
    ];
    let index = vec![
        indexed("same.ts", "h1"),
        indexed("changed.ts", "old"),
        indexed("stale.ts", "h3"),
        indexed("gone.ts", "h5"),
    ];
    let plan = indexer.refresh(&status(true, 5), &Some("repo".to_owned()), &current, &index);
    assert_eq!(
        plan,
        RefreshPlan::Apply {
            update: vec!["changed.ts".to_owned(), "stale.ts".to_owned(), "added.ts".to_owned()],
            remove: vec!["gone.ts".to_owned()],
        }
    );
}

#[test]
fn refresh_of_an_unchanged_tree_does_nothing() {
    let indexer = IncrementalIndexer::new("repo", "/r", "/d");
    let current = vec![observed("a.ts", "h", Some(FileStateStatus::Fresh))];
    let index = vec![indexed("a.ts", "h")];
    let plan = indexer.refresh(&status(true, 5), &Some("repo".to_owned()), &current, &index);
    assert_eq!(plan, RefreshPlan::Apply { update: vec![], remove: vec![] });
}

#[test]
fn reports_count_outcomes() {
    let report = RefreshReport::applied(&vec![true, false, true], 2);
    assert_eq!(
        report,
        RefreshReport { updated_files: 2, stale_files: 1, removed_files: 2, rebuilt: false }
    );
    assert_eq!(
        RefreshReport::rebuilt(),
        RefreshReport { updated_files: 0, stale_files: 0, removed_files: 0, rebuilt: true }
    );
    assert_eq!(RefreshReport::default(), RefreshReport::applied(&vec![], 0));
}

fn analysis(messages: &[&str]) -> AnalysisResult {
    AnalysisResult {
        path: "app.ts".to_owned(),
        analyzer: AnalyzerMetadata { name: "fixture".to_owned(), version: "1".to_owned() },
        symbols: vec![],
        references: vec![],
        imports: vec![],
        exports: vec![],
        calls: vec![],
        diagnostics: messages
            .iter()
            .map(|m| Diagnostic {
                message: (*m).to_owned(),
                severity: DiagnosticSeverity::Error,
                range: None,
            })
            .collect(),
    }
}

#[test]
fn diagnostics_are_joined_with_semicolons() {
    assert_eq!(diagnostics_message(&analysis(&["first", "second"])), "first; second");
    assert_eq!(diagnostics_message(&analysis(&[])), "");
}

#[test]
fn a_file_with_diagnostics_stays_stale_and_keeps_its_records() {
    let change = file_update(&analysis(&["Expected `)`"]));
    assert_eq!(change.status, FileStateStatus::Stale);
    assert!(!change.replace_records);
    assert_eq!(change.error.as_deref(), Some("Expected `)`"));
    let clean = file_update(&analysis(&[]));
    assert_eq!(clean.status, FileStateStatus::Fresh);
    assert!(clean.replace_records);
    assert_eq!(clean.error, None);
}

#[test]
fn relative_paths_use_forward_slashes() {
    assert_eq!(relative_path("src\\app\\main.ts"), "src/app/main.ts");
    assert_eq!(relative_path("src/app.ts"), "src/app.ts");
}

#[test]
fn a_second_refresh_does_nothing() {
    let indexer = IncrementalIndexer::new("repo", "/r", "/d");
    let first = vec![
        observed("a.ts", "h1", Some(FileStateStatus::Fresh)),
        observed("b.ts", "h2", Some(FileStateStatus::Stale)),
        observed("c.ts", "h3", None),
    ];
    let before = vec![indexed("a.ts", "h1"), indexed("b.ts", "h2"), indexed("gone.ts", "h9")];
    let plan = indexer.refresh(&status(true, 5), &Some("repo".to_owned()), &first, &before);
    assert_eq!(
        plan,
        RefreshPlan::Apply {
            update: vec!["b.ts".to_owned(), "c.ts".to_owned()],
            remove: vec!["gone.ts".to_owned()],
        }
    );
    // Every file was indexed without diagnostics: the index now holds each file's hash.
    let after: Vec<IndexedFile> = first.iter().map(|f| indexed(&f.relative_path, &f.content_hash)).collect();
    let again: Vec<ObservedFile> =
        first.iter().map(|f| observed(&f.relative_path, &f.content_hash, Some(FileStateStatus::Fresh))).collect();
    assert_eq!(
        indexer.refresh(&status(true, 5), &Some("repo".to_owned()), &again, &after),
        RefreshPlan::Apply { update: vec![], remove: vec![] }
    );
}
