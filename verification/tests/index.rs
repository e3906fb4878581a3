use astral::analyzer::{
    AnalysisResult, AnalyzerMetadata, DiagnosticSeverity, Export, ReferenceKind, SourceRange,
    Symbol, SymbolKind,
};
use astral::error::AstralError;
use astral::git::GitSnapshot;
use astral::incremental::{IncrementalIndexer, RefreshPlan, RefreshReport};
use astral::index::{
    chunk_ranges, file_records, file_state_name, hash_bytes, metadata_entries, parse_file_state,
    public_api_hash, reference_kind_name, severity_name, symbol_id, symbol_kind_name,
    symbol_source, FileStateStatus, IndexFacts, IndexStore, StoredSymbol, MAX_CHUNK_BYTES,
    SCHEMA_VERSION,
};
use astral::scanner::SourceFile;

#[test]
fn symbol_ids_name_the_repository() {
    assert_eq!(symbol_id("repo-one", "src/app.ts", "App", 12, 0), "symbol:repo-one:src/app.ts:App:12:0");
    assert_ne!(symbol_id("repo-one", "a.ts", "App", 0, 0), symbol_id("repo-two", "a.ts", "App", 0, 0));
}

#[test]
fn file_states_round_trip_through_their_names() {
    for status in [FileStateStatus::Fresh, FileStateStatus::Stale, FileStateStatus::Missing] {
        assert_eq!(parse_file_state(file_state_name(status)), status);
    }
    assert_eq!(parse_file_state("bogus"), FileStateStatus::Stale);
    assert_eq!(file_state_name(FileStateStatus::Missing), "missing");
}

#[test]
fn kind_names() {
    assert_eq!(symbol_kind_name(SymbolKind::Function), "function");
    assert_eq!(symbol_kind_name(SymbolKind::Interface), "interface");
    assert_eq!(reference_kind_name(ReferenceKind::Write), "write");
    assert_eq!(severity_name(DiagnosticSeverity::Warning), "Warning");
}

#[test]
fn hashes_are_lowercase_sha256() {
    assert_eq!(
        hash_bytes(b"abc"),
        "ba7816bf8f01cfea414140de5dae2223b00361a396177a9cb410ff61f20015ad"
    );
    assert_ne!(hash_bytes(b"abc"), hash_bytes(b"abd"));
}

#[test]
fn chunks_cover_the_source_in_order() {
    assert_eq!(chunk_ranges(""), vec![(0, 0)]);
    assert_eq!(chunk_ranges("short"), vec![(0, 5)]);
    let long = "a".repeat(MAX_CHUNK_BYTES * 2 + 10);
    assert_eq!(
        chunk_ranges(&long),
        vec![(0, MAX_CHUNK_BYTES), (MAX_CHUNK_BYTES, 2 * MAX_CHUNK_BYTES), (2 * MAX_CHUNK_BYTES, long.len())]
    );
    let wide = "é".repeat(MAX_CHUNK_BYTES);
    for (start, end) in chunk_ranges(&wide) {
        assert!(wide.is_char_boundary(start) && wide.is_char_boundary(end));
    }
}

#[test]
fn symbol_source_reads_a_byte_span() {
    let source = "export const value = 42;\n";
    assert_eq!(symbol_source(source, 13, 18), "value");
    assert_eq!(symbol_source(source, 18, 13), "");
    assert_eq!(symbol_source("é", 0, 1), "");
    assert_eq!(symbol_source(source, 0, 1000), "");
}

fn export(name: &str, local: Option<&str>) -> Export {
    Export { exported_name: name.to_owned(), local_name: local.map(str::to_owned) }
}

#[test]
fn public_api_hash_ignores_export_order() {
    let a = vec![export("b", None), export("a", Some("x"))];
    let b = vec![export("a", Some("x")), export("b", None)];
    assert_eq!(public_api_hash(&a), public_api_hash(&b));
    assert_eq!(public_api_hash(&a), hash_bytes(b"a:x\nb:"));
    assert_ne!(public_api_hash(&a), public_api_hash(&vec![export("a", None)]));
}

#[test]
fn index_paths_live_under_the_data_directory() {
    let path = IndexStore::path_in_data_dir("/work/repo", "/data");
    let id = &hash_bytes(b"/work/repo")[..24];
    assert_eq!(path, format!("/data/projects/{id}/index.sqlite"));
}

#[test]
fn status_of_a_missing_database_is_not_indexed() {
    let status = IndexStore::status_at("/data/index.sqlite", None);
    assert!(!status.indexed);
    assert_eq!(status.schema_version, 0);
    assert_eq!(status.database_path, "/data/index.sqlite");
}

fn facts(schema: &str) -> IndexFacts {
    IndexFacts {
        schema_version: Some(schema.to_owned()),
        file_count: 2,
        symbol_count: 3,
        diagnostic_count: 1,
        state_counts: Some((1, 0)),
        git_available: Some("true".to_owned()),
        git_head: Some("abc".to_owned()),
        git_branch: Some("main".to_owned()),
        git_dirty: Some("true".to_owned()),
        git_dirty_file_count: Some("4".to_owned()),
    }
}

#[test]
fn status_reads_the_stored_metadata() {
    let status = IndexStore::status_at("/db", Some(facts("5")));
    assert!(status.indexed);
    assert_eq!(status.schema_version, SCHEMA_VERSION);
    assert_eq!((status.file_count, status.symbol_count, status.diagnostic_count), (2, 3, 1));
    assert_eq!((status.stale_count, status.missing_count), (1, 0));
    assert_eq!(status.snapshot_head.as_deref(), Some("abc"));
    assert_eq!(status.snapshot_branch.as_deref(), Some("main"));
    assert!(status.working_tree_dirty);
    assert_eq!(status.dirty_file_count, 4);
    assert!(!status.snapshot_stale);
}

#[test]
fn status_of_a_legacy_or_gitless_index() {
    let legacy = IndexStore::status_at("/db", Some(facts("4")));
    assert!(!legacy.indexed);
    assert_eq!(legacy.schema_version, 4);
    let mut f = facts("junk");
    f.git_available = Some("false".to_owned());
    f.git_dirty_file_count = Some("x".to_owned());
    f.state_counts = None;
    let status = IndexStore::status_at("/db", Some(f));
    assert_eq!(status.schema_version, 0);
    assert_eq!(status.snapshot_head, None);
    assert_eq!(status.dirty_file_count, 0);
    assert_eq!(status.stale_count, 0);
}

#[test]
fn reading_a_symbol_cuts_its_source() {
    let stored = StoredSymbol {
        symbol_id: "symbol:r:a.ts:App:7:0".to_owned(),
        name: "App".to_owned(),
        kind: "function".to_owned(),
        relative_path: "a.ts".to_owned(),
        start_byte: 7,
        end_byte: 35,
        file_source: "export function App() { return 1; }\n".to_owned(),
    };
    let result = IndexStore::read_symbol_at("symbol:r:a.ts:App:7:0", Some(stored)).expect("symbol");
    assert_eq!(result.source, "function App() { return 1; }");
    assert_eq!(result.name, "App");
    let missing = IndexStore::read_symbol_at("nope", None).unwrap_err();
    assert_eq!(missing, AstralError::Indexing { message: "symbol not found: nope".to_owned() });
}

#[test]
fn file_records_hold_ids_hashes_and_chunks() {
    let file = SourceFile {
        absolute_path: "/r/src\\app.ts".to_owned(),
        relative_path: "src\\app.ts".to_owned(),
        language: "ts".to_owned(),
        source: "export function App() {}\n".to_owned(),
    };
    let range = SourceRange { start_byte: 7, end_byte: 24, start_line: 1, end_line: 1 };
    let analysis = AnalysisResult {
        path: "src/app.ts".to_owned(),
        analyzer: AnalyzerMetadata { name: "oxc".to_owned(), version: "1".to_owned() },
        symbols: vec![Symbol {
            name: "App".to_owned(),
            qualified_name: None,
            kind: SymbolKind::Function,
            range,
        }],
        references: vec![],
        imports: vec![],
        exports: vec![export("App", Some("App"))],
        calls: vec![],
        diagnostics: vec![],
    };
    let records = file_records("repo", &file, &analysis);
    assert_eq!(records.file.relative_path, "src/app.ts");
    assert_eq!(records.file.content_hash, hash_bytes(file.source.as_bytes()));
    assert_eq!(records.file.public_api_hash, public_api_hash(&analysis.exports));
    assert_eq!(records.file.size_bytes, file.source.len());
    assert_eq!(records.symbol_ids, vec!["symbol:repo:src/app.ts:App:7:0".to_owned()]);
    assert_eq!(records.chunks.len(), 1);
    assert_eq!(records.chunks[0].content, file.source);
}

#[test]
fn metadata_records_the_schema_and_snapshot() {
    let git = GitSnapshot {
        available: true,
        head: Some("abc".to_owned()),
        branch: None,
        dirty: false,
        dirty_file_count: 0,
        worktree_hash: Some("h".to_owned()),
    };
    let entries = metadata_entries("repo", &git);
    let expected: Vec<(String, String)> = [
        ("schema_version", "5"),
        ("indexer_version", "phase-5-git"),
        ("repository_name", "repo"),
        ("git_available", "true"),
        ("git_head", "abc"),
        ("git_branch", ""),
        ("git_dirty", "false"),
        ("git_dirty_file_count", "0"),
        ("git_worktree_hash", "h"),
    ]
    .iter()
    .map(|(k, v)| (k.to_string(), v.to_string()))
    .collect();
    assert_eq!(entries, expected);
}

/// The index of a repository holding `app.ts` with `export function App() { .. }`, as its
/// database reports it, for the given schema version.
fn app_index_status(schema: &str) -> astral::index::IndexStatus {
    let mut f = facts(schema);
    f.file_count = 1;
    f.symbol_count = 1;
    f.diagnostic_count = 0;
    f.state_counts = Some((0, 0));
    IndexStore::status_at("/repo/index.sqlite", Some(f))
}

#[test]
fn same_symbol_name_is_isolated_by_repository_database_and_id() {
    let first_symbol_id = symbol_id("repo-one", "app.ts", "App", 7, 0);
    let second_symbol_id = symbol_id("repo-two", "app.ts", "App", 7, 0);

    assert!(first_symbol_id.starts_with("symbol:repo-one:"));
    assert!(second_symbol_id.starts_with("symbol:repo-two:"));
    assert_ne!(first_symbol_id, second_symbol_id);
    // The second database holds no symbol under the first one's id.
    assert!(IndexStore::read_symbol_at(&first_symbol_id, None).is_err());
}

#[test]
fn schema_four_index_is_rebuilt_with_namespace_ids() {
    let legacy = app_index_status("4");
    let indexer = IncrementalIndexer::new("repo-one", "/repo", "/repo/index.sqlite");
    let plan = indexer.refresh(&legacy, &Some("repo-one".to_owned()), &vec![], &vec![]);
    assert_eq!(plan, RefreshPlan::Rebuild);
    let report = RefreshReport::rebuilt();

    assert!(report.rebuilt);
    assert_eq!(app_index_status("5").schema_version, 5);
    assert!(symbol_id(indexer.repository_name(), "app.ts", "App", 7, 0).starts_with("symbol:repo-one:"));
}

#[test]
fn changed_repository_name_rebuilds_the_existing_index_namespace() {
    let current = app_index_status("5");
    let indexer = IncrementalIndexer::new("new-name", "/repo", "/repo/index.sqlite");
    let plan = indexer.refresh(&current, &Some("old-name".to_owned()), &vec![], &vec![]);
    assert_eq!(plan, RefreshPlan::Rebuild);
    let report = RefreshReport::rebuilt();

    assert!(report.rebuilt);
    assert!(symbol_id(indexer.repository_name(), "app.ts", "App", 7, 0).starts_with("symbol:new-name:"));
}
