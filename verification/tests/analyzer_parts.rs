use astral::analyzer::{
    diagnostic_to_model, empty_result, line_at, qualified_name, reference_kind_for, source_range,
    DiagnosticSeverity, ReferenceKind,
};

#[test]
fn lines_count_from_one() {
    let source = "a\nbb\nccc";
    assert_eq!(line_at(source, 0), 1);
    assert_eq!(line_at(source, 2), 2);
    assert_eq!(line_at(source, 5), 3);
    assert_eq!(line_at(source, 100), 3);
    let range = source_range(source, 2, 7);
    assert_eq!((range.start_line, range.end_line), (2, 3));
}

#[test]
fn reference_kinds() {
    assert_eq!(reference_kind_for(false, true, true, true), ReferenceKind::Unknown);
    assert_eq!(reference_kind_for(true, true, true, false), ReferenceKind::Call);
    assert_eq!(reference_kind_for(true, false, true, false), ReferenceKind::Write);
    assert_eq!(reference_kind_for(true, false, true, true), ReferenceKind::Read);
    assert_eq!(reference_kind_for(true, false, false, false), ReferenceKind::Unknown);
}

#[test]
fn names_and_empty_results() {
    assert_eq!(qualified_name("same", 3), "same@3");
    let d = diagnostic_to_model("Expected `)`".to_owned());
    assert_eq!(d.severity, DiagnosticSeverity::Error);
    let r = empty_result("broken.ts", "oxc", "0.140.0", vec![d.clone()]);
    assert_eq!(r.analyzer.name, "oxc");
    assert!(r.symbols.is_empty());
    assert_eq!(r.diagnostics, vec![d]);
}

#[test]
fn identifiers_inside_a_call_span() {
    let calls = vec![(10, 20), (30, 40)];
    assert!(astral::analyzer::inside_a_call(12, 15, &calls));
    assert!(astral::analyzer::inside_a_call(30, 40, &calls));
    assert!(!astral::analyzer::inside_a_call(18, 25, &calls));
    assert!(!astral::analyzer::inside_a_call(0, 1, &vec![]));
}
