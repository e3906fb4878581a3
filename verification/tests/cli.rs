use astral::cli::{command_name, command_repository, status_lines, Command};
use astral::index::IndexStore;

#[test]
fn commands_are_logged_by_name_and_repository() {
    let c = Command::SearchCode { repository_name: "repo".to_owned(), query: "q".to_owned() };
    assert_eq!(command_name(&c), "search-code");
    assert_eq!(command_repository(&c), "repo");
    assert_eq!(command_name(&Command::Serve), "serve");
    assert_eq!(command_repository(&Command::Serve), "<registry>");
    let r = Command::Register {
        repository_name: "sample".to_owned(),
        repository_root: "/r".to_owned(),
        replace: false,
    };
    assert_eq!(command_name(&r), "register");
    assert_eq!(command_repository(&r), "sample");
}

#[test]
fn status_of_an_unindexed_repository() {
    let status = IndexStore::status_at("/db", None);
    assert_eq!(
        status_lines("sample-repo", "/work/repo", &status),
        vec!["Repository: sample-repo", "Repository root: /work/repo", "Index status: not indexed"]
    );
}

#[test]
fn status_of_an_indexed_repository() {
    let mut status = IndexStore::status_at("/db", None);
    status.indexed = true;
    status.file_count = 2;
    status.symbol_count = 3;
    status.snapshot_head = Some("abc".to_owned());
    status.working_tree_dirty = true;
    status.dirty_file_count = 1;
    let lines = status_lines("r", "/w", &status);
    assert_eq!(lines[2], "Index status: indexed");
    assert_eq!(lines[3], "Indexed files: 2");
    assert_eq!(lines[4], "Indexed symbols: 3");
    assert_eq!(lines[8], "Indexed HEAD: abc");
    assert_eq!(lines[9], "Working Tree: dirty (1 dirty files)");
    assert_eq!(lines.len(), 10);
}
