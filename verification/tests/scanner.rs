use astral::scanner::{
    file_name, is_excluded_directory, is_secret_or_generated, language_for, sort_by_path,
    source_language, SourceFile, SourceScanner,
};

#[test]
fn recognizes_javascript_and_typescript_extensions() {
    assert_eq!(language_for("file.JSX"), Some("jsx"));
    assert_eq!(language_for("file.tsx"), Some("tsx"));
    assert_eq!(language_for("README.md"), None);
}

#[test]
fn every_supported_extension_has_its_language() {
    for (path, language) in [
        ("a.js", "js"),
        ("b.jsx", "jsx"),
        ("c.ts", "ts"),
        ("d.tsx", "tsx"),
        ("e.mjs", "mjs"),
        ("f.cjs", "cjs"),
        ("g.mts", "mts"),
        ("h.cts", "cts"),
        ("dir/I.MTS", "mts"),
    ] {
        assert_eq!(language_for(path), Some(language), "{path}");
    }
    assert_eq!(language_for(".ts"), None);
    assert_eq!(language_for("ts"), None);
    assert_eq!(language_for("dir.ts/.."), None);
    assert_eq!(language_for("a.ts/."), Some("ts"));
}

#[test]
fn file_names_follow_path_components() {
    assert_eq!(file_name("src/app.ts"), Some("app.ts".chars().collect()));
    assert_eq!(file_name("src/app.ts/"), Some("app.ts".chars().collect()));
    assert_eq!(file_name("/"), None);
    assert_eq!(file_name(".."), None);
}

#[test]
fn dependency_and_build_directories_are_skipped() {
    for name in [".git", "node_modules", "target", "dist", "build", ".next", "coverage"] {
        assert!(is_excluded_directory(&format!("/repo/{name}")), "{name}");
    }
    assert!(!is_excluded_directory("/repo/src"));
    assert!(!is_excluded_directory("/repo/node_modules_old"));
}

#[test]
fn secrets_and_generated_files_are_skipped() {
    assert!(is_secret_or_generated("/repo/.env"));
    assert!(is_secret_or_generated("/repo/.env.local"));
    assert!(is_secret_or_generated("/repo/app.js.map"));
    assert!(is_secret_or_generated("/repo/bundle.min.js"));
    assert!(is_secret_or_generated("/repo/x.min.ts"));
    assert!(is_secret_or_generated("/repo/x.min.tsx"));
    assert!(!is_secret_or_generated("/repo/app.ts"));
    assert!(!is_secret_or_generated("/"));
}

#[test]
fn only_supported_files_are_read() {
    assert_eq!(source_language("/repo/a.ts", true), Some("ts"));
    assert_eq!(source_language("/repo/a.ts", false), None);
    assert_eq!(source_language("/repo/bundle.min.js", true), None);
    assert_eq!(source_language("/repo/README.md", true), None);
}

fn file(path: &str) -> SourceFile {
    SourceFile {
        absolute_path: format!("/repo/{path}"),
        relative_path: path.to_owned(),
        language: "ts".to_owned(),
        source: String::new(),
    }
}

#[test]
fn scanned_files_are_sorted_by_path_components() {
    let files = vec![file("src/z.ts"), file("a.ts"), file("src/a/b.ts"), file("src-x.ts")];
    let sorted: Vec<String> = sort_by_path(files).into_iter().map(|f| f.relative_path).collect();
    assert_eq!(sorted, vec!["a.ts", "src/a/b.ts", "src/z.ts", "src-x.ts"]);
}

#[test]
fn scanner_keeps_its_root() {
    assert_eq!(SourceScanner::new("/repo").root(), "/repo");
}
