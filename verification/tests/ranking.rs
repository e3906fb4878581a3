use astral::ranking::{fts_query, ranking_signals, tokenize};

#[test]
fn tokenizes_camel_case_and_snake_case() {
    assert_eq!(tokenize("createUser_session"), vec!["create", "user", "session"]);
    assert_eq!(fts_query("createUser"), "create* OR user*");
}

#[test]
fn single_letter_tokens_are_dropped_and_case_is_folded() {
    assert_eq!(tokenize("a Bc HTTPServer x"), vec!["bc", "httpserver"]);
    assert_eq!(fts_query(""), "");
    assert_eq!(fts_query("!!"), "");
}

#[test]
fn signals_report_path_content_and_graph_matches() {
    let signals = ranking_signals("auth", "src/Auth/session.ts", "create auth", 2);
    assert_eq!(signals.path_matches, 1);
    assert_eq!(signals.content_matches, 1);
    assert_eq!(signals.matched_by, vec!["lexical", "path", "graph"]);
    assert_eq!(signals.reason, "FTS rank、1 token、path近接1件、graph接続2件を統合");
    let plain = ranking_signals("value", "a.ts", "other", 0);
    assert_eq!(plain.matched_by, vec!["lexical"]);
    assert_eq!(plain.path_matches, 0);
    assert_eq!(plain.content_matches, 0);
}

#[test]
fn snake_case_splits_in_every_camel_piece() {
    assert_eq!(tokenize("user_nameFoo"), vec!["user", "name", "foo"]);
    assert_eq!(tokenize("get_userById"), vec!["get", "user", "by", "id"]);
    assert!(tokenize("a_b_cD_ef").iter().all(|t| !t.contains('_')));
}
