use astral::edges::{
    is_test_path, path_base_name, rebuild_edges, test_base_name, CallRow, EdgeFile, EdgeSymbol,
    EdgeTables, EdgeType, ExportRow, ImportRow, ReferenceRow, Resolution,
};

fn file(id: i64, path: &str) -> EdgeFile {
    EdgeFile { id, path: path.to_owned() }
}

fn symbol(id: &str, file_id: i64, name: &str, start: i64, end: i64) -> EdgeSymbol {
    EdgeSymbol { id: id.to_owned(), file_id, name: name.to_owned(), start, end }
}

fn tables() -> EdgeTables {
    EdgeTables {
        files: vec![file(1, "app.ts"), file(2, "value.ts"), file(3, "tests/app.test.ts")],
        symbols: vec![
            symbol("s:create", 1, "create", 0, 100),
            symbol("s:helper", 1, "helper", 10, 20),
            symbol("s:value", 2, "value", 0, 30),
        ],
        imports: vec![ImportRow {
            file_id: 1,
            source: "./value".to_owned(),
            imported_name: Some("value".to_owned()),
            local_name: Some("value".to_owned()),
            resolved_path: Some("value.ts".to_owned()),
        }],
        references: vec![ReferenceRow {
            file_id: 1,
            name: "value".to_owned(),
            target: None,
            start: 12,
            end: 17,
        }],
        calls: vec![CallRow { file_id: 1, callee: "helper".to_owned(), start: 40, end: 48 }],
        exports: vec![ExportRow {
            file_id: 1,
            exported_name: "create".to_owned(),
            local_name: Some("create".to_owned()),
        }],
    }
}

#[test]
fn references_through_imports_resolve_to_the_imported_symbol() {
    let edges = rebuild_edges(&tables());
    let reference = edges.iter().find(|e| e.edge_type == EdgeType::Reference).expect("reference");
    assert_eq!(reference.source_file_id, 1);
    assert_eq!(reference.source_symbol_id.as_deref(), Some("s:helper"));
    assert_eq!(reference.target_file_id, Some(2));
    assert_eq!(reference.target_symbol_id.as_deref(), Some("s:value"));
    assert_eq!(reference.resolution, Resolution::Semantic);
}

#[test]
fn calls_resolve_within_the_file_by_ast() {
    let edges = rebuild_edges(&tables());
    let call = edges.iter().find(|e| e.edge_type == EdgeType::Call).expect("call");
    assert_eq!(call.source_symbol_id.as_deref(), Some("s:create"));
    assert_eq!(call.target_file_id, Some(1));
    assert_eq!(call.target_symbol_id.as_deref(), Some("s:helper"));
    assert_eq!(call.resolution, Resolution::Ast);
}

#[test]
fn imports_exports_and_tests_get_their_edges() {
    let edges = rebuild_edges(&tables());
    let import = edges.iter().find(|e| e.edge_type == EdgeType::Import).expect("import");
    assert_eq!(import.target_symbol_id.as_deref(), Some("s:value"));
    assert_eq!(import.target_external_name.as_deref(), Some("value"));
    let export = edges.iter().find(|e| e.edge_type == EdgeType::Export).expect("export");
    assert_eq!(export.target_symbol_id.as_deref(), Some("s:create"));
    assert_eq!(export.resolution, Resolution::Semantic);
    let tests: Vec<_> = edges.iter().filter(|e| e.edge_type == EdgeType::Test).collect();
    assert_eq!(tests.len(), 2);
    assert!(tests.iter().all(|e| e.source_file_id == 3 && e.target_file_id == Some(1)));
    assert!(tests.iter().all(|e| e.resolution == Resolution::Heuristic));
}

#[test]
fn an_unknown_name_is_a_heuristic_external_target() {
    let mut t = tables();
    t.references = vec![ReferenceRow {
        file_id: 2,
        name: "missing".to_owned(),
        target: None,
        start: 1,
        end: 2,
    }];
    let edges = rebuild_edges(&t);
    let reference = edges.iter().find(|e| e.edge_type == EdgeType::Reference).expect("reference");
    assert_eq!(reference.target_symbol_id, None);
    assert_eq!(reference.target_external_name.as_deref(), Some("missing"));
    assert_eq!(reference.resolution, Resolution::Heuristic);
}

#[test]
fn duplicate_edges_are_kept_once() {
    let mut t = tables();
    let call = t.calls[0].clone();
    t.calls.push(call);
    let edges = rebuild_edges(&t);
    assert_eq!(edges.iter().filter(|e| e.edge_type == EdgeType::Call).count(), 1);
}

#[test]
fn confidences_and_names() {
    assert_eq!(Resolution::Semantic.confidence_tenths(), 10);
    assert_eq!(Resolution::Ast.confidence_tenths(), 7);
    assert_eq!(Resolution::Heuristic.confidence_tenths(), 4);
    assert_eq!(Resolution::Heuristic.method_name(), "heuristic");
    assert_eq!(EdgeType::Test.name(), "test");
}

#[test]
fn test_paths_and_base_names() {
    assert!(is_test_path("tests/app.ts"));
    assert!(is_test_path("src/__TESTS__/a.ts"));
    assert!(is_test_path("src/app.test.ts"));
    assert!(is_test_path("src/app.spec.ts"));
    assert!(is_test_path("src/app_test.ts"));
    assert!(!is_test_path("src/contest.ts"));
    assert_eq!(path_base_name("src/app.module.ts"), "app");
    assert_eq!(test_base_name("tests/app.test.ts"), "app");
    assert_eq!(test_base_name("tests/app_test.js"), "app");
    assert_eq!(test_base_name("tests/app.ts"), "app");
}

#[test]
fn reference_and_call_edges_name_exactly_one_target() {
    for edge in rebuild_edges(&tables()) {
        if edge.edge_type == EdgeType::Reference || edge.edge_type == EdgeType::Call {
            assert!(edge.target_symbol_id.is_some() != edge.target_external_name.is_some());
        }
        if edge.resolution == Resolution::Semantic {
            assert!(edge.target_symbol_id.is_some());
        }
    }
}
