use astral::index::SymbolResult;
use astral::web::{
    asset_request, bounded_limit, build_graph, disk_asset_plan,
    extract_query_param, falls_back_to_index, graph_center, safe_subpath, RelationshipLink,
};

#[test]
fn web_limits_default_to_twenty_and_cap_at_one_hundred() {
    assert_eq!(bounded_limit(None), 20);
    assert_eq!(bounded_limit(Some(0)), 0);
    assert_eq!(bounded_limit(Some(250)), 100);
}

#[test]
fn subpaths_stay_inside_the_assets_directory() {
    assert_eq!(safe_subpath("/assets", "css/app.css"), Some("/assets/css/app.css".to_owned()));
    assert_eq!(safe_subpath("/assets", "/./css//app.css"), Some("/assets/css/app.css".to_owned()));
    assert_eq!(safe_subpath("/assets", "../secret"), None);
    assert_eq!(safe_subpath("/assets", "c:/x"), None);
    assert_eq!(safe_subpath("/assets", "a\\b"), None);
    assert_eq!(safe_subpath("/assets/", ""), Some("/assets/".to_owned()));
}

#[test]
fn request_paths_name_assets() {
    assert_eq!(asset_request("/"), "index.html");
    assert_eq!(asset_request("//assets/app.js "), "assets/app.js");
    assert!(falls_back_to_index("repos/astral"));
    assert!(!falls_back_to_index("assets/missing"));
    assert!(!falls_back_to_index("favicon.ico"));
}

#[test]
fn content_types_are_guessed_from_extensions() {
    let content_type = |path: &str| disk_asset_plan("/a", path).content_type;
    assert_eq!(content_type("index.html").as_deref(), Some("text/html"));
    assert_eq!(content_type("app.js").as_deref(), Some("text/javascript"));
    assert_eq!(content_type("README").as_deref(), Some("application/octet-stream"));
}

#[test]
fn disk_assets_fall_back_to_the_index_page() {
    let plan = disk_asset_plan("/dist", "repos/astral");
    assert_eq!(plan.file.as_deref(), Some("/dist/repos/astral"));
    assert_eq!(plan.content_type.as_deref(), Some("application/octet-stream"));
    assert_eq!(plan.fallback.as_deref(), Some("/dist/index.html"));
    let asset = disk_asset_plan("/dist", "assets/app.js");
    assert_eq!(asset.content_type.as_deref(), Some("text/javascript"));
    assert_eq!(asset.fallback, None);
    let unsafe_plan = disk_asset_plan("/dist", "../x");
    assert_eq!(unsafe_plan.file, None);
}

#[test]
fn query_parameters_are_found_by_name() {
    assert_eq!(
        extract_query_param(Some("a=1&repository_name=web-test&x"), "repository_name"),
        Some("web-test".to_owned())
    );
    assert_eq!(extract_query_param(Some("k=v=w"), "k"), Some("v=w".to_owned()));
    assert_eq!(extract_query_param(Some("k&k=2"), "k"), Some("2".to_owned()));
    assert_eq!(extract_query_param(Some("a=1"), "b"), None);
    assert_eq!(extract_query_param(None, "a"), None);
}

fn center() -> SymbolResult {
    SymbolResult {
        symbol_id: "s:app".to_owned(),
        name: "App".to_owned(),
        qualified_name: None,
        kind: "function".to_owned(),
        relative_path: "app.ts".to_owned(),
        start_byte: 0,
        end_byte: 10,
    }
}

#[test]
fn graphs_hold_each_node_once() {
    let links = vec![
        RelationshipLink {
            edge_type: "call".to_owned(),
            source_file: "app.ts".to_owned(),
            source_symbol_id: Some("s:app".to_owned()),
            source_name: Some("App".to_owned()),
            target_file: Some("value.ts".to_owned()),
            target_symbol_id: Some("s:value".to_owned()),
            target_name: Some("value".to_owned()),
            target_external_name: None,
        },
        RelationshipLink {
            edge_type: "reference".to_owned(),
            source_file: "main.ts".to_owned(),
            source_symbol_id: None,
            source_name: None,
            target_file: None,
            target_symbol_id: None,
            target_name: None,
            target_external_name: Some("fetch".to_owned()),
        },
    ];
    let graph = build_graph(&center(), &links);
    let ids: Vec<&str> = graph.nodes.iter().map(|n| n.id.as_str()).collect();
    assert_eq!(ids, vec!["s:app", "s:value", "external:", "external:fetch"]);
    assert!(graph.nodes[0].is_center);
    assert_eq!(graph.nodes[2].label, "external");
    assert_eq!(graph.nodes[3].label, "fetch");
    assert_eq!(graph.edges.len(), 2);
    assert_eq!(graph.edges[1].from, "external:");
    assert_eq!(graph.edges[1].to, "external:fetch");
    assert_eq!(graph.edges[1].label, "reference");
}

#[test]
fn a_graph_needs_its_symbol() {
    assert_eq!(graph_center("App", vec![center()]).expect("center"), center());
    let error = graph_center("Nope", vec![]).unwrap_err();
    assert_eq!(error.message(), "indexing failed: symbol not found: Nope");
}
