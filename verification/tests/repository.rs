use astral::error::AstralError;
use astral::repository::{
    candidate_roots, default_data_dir, default_registry_path, validate_repository_name,
    InputKind, RegistryAction, RegistryTable, RepositoryRegistry, RepositoryRoot,
};

#[test]
fn repository_names_are_checked() {
    assert!(validate_repository_name("sample-repo_1.0").is_ok());
    assert_eq!(
        validate_repository_name("bad/name"),
        Err(AstralError::InvalidRepositoryName { name: "bad/name".to_owned() })
    );
    assert!(validate_repository_name("").is_err());
    assert!(validate_repository_name("名前").is_err());
    assert!(validate_repository_name("a b").is_err());
}

#[test]
fn candidates_run_from_the_path_to_the_file_system_root() {
    assert_eq!(candidate_roots("/work/repo/src"), vec!["/work/repo/src", "/work/repo", "/work", "/"]);
    assert_eq!(candidate_roots("/"), vec!["/"]);
}

#[test]
fn resolves_the_nearest_repository_root_from_a_child() {
    let root = RepositoryRoot::resolve("/work/repo/src/feature", &vec![false, false, true, false, false])
        .expect("repository root");
    assert_eq!(root.path(), "/work/repo");
}

#[test]
fn accepts_a_git_file_used_by_worktrees() {
    // The directory holds `.git` as a file, as a worktree does: it counts as metadata.
    assert!(RepositoryRoot::check_input("/tmp/worktree", InputKind::Directory).is_ok());
    let root = RepositoryRoot::resolve("/tmp/worktree", &vec![true, false, false]).expect("repository root");
    assert_eq!(root.path(), "/tmp/worktree");
}

#[test]
fn rejects_a_missing_path() {
    assert!(matches!(
        RepositoryRoot::check_input("/tmp/dir/missing", InputKind::Missing),
        Err(AstralError::PathNotFound { .. })
    ));
}

#[test]
fn rejects_a_file_path() {
    assert!(matches!(
        RepositoryRoot::check_input("/tmp/dir/file", InputKind::File),
        Err(AstralError::NotDirectory { .. })
    ));
}

#[test]
fn rejects_a_path_without_git_metadata() {
    assert!(RepositoryRoot::check_input("/tmp/x", InputKind::Directory).is_ok());
    let error = RepositoryRoot::resolve("/tmp/x", &vec![false, false, false]).unwrap_err();
    assert!(matches!(error, AstralError::RepositoryRootNotFound { .. }));
    assert_eq!(error, AstralError::RepositoryRootNotFound { path: "/tmp/x".to_owned() });
}

#[test]
fn an_unreadable_path_reports_the_access_error() {
    assert_eq!(
        RepositoryRoot::check_input("/tmp/locked", InputKind::Inaccessible { source: "denied".to_owned() }),
        Err(AstralError::PathAccess { path: "/tmp/locked".to_owned(), source: "denied".to_owned() })
    );
}

fn root(path: &str) -> RepositoryRoot {
    RepositoryRoot::resolve(path, &vec![true]).expect("root")
}

#[test]
fn registers_and_resolves_a_repository_by_name() {
    let registry = RepositoryRegistry::at("/data/registry.sqlite");
    let registration = registry.register("astral", root("/work/repo"), false, None, None).expect("register");
    assert_eq!(registration.action, RegistryAction::Insert);
    assert_eq!(registration.repository.name, "astral");
    let path = registry
        .registered_root_path("astral", Some("/work/repo".to_owned()))
        .expect("registered root");
    let resolved = registry.resolve("astral", &path, root("/work/repo")).expect("resolve");
    assert_eq!(resolved.root.path(), "/work/repo");
}

#[test]
fn rejects_invalid_and_unknown_repository_names() {
    let registry = RepositoryRegistry::at("/data/registry.sqlite");
    assert!(matches!(
        registry.registered_root_path("bad/name", None),
        Err(AstralError::InvalidRepositoryName { .. })
    ));
    assert_eq!(
        registry.registered_root_path("missing", None),
        Err(AstralError::RepositoryNotRegistered { name: "missing".to_owned() })
    );
}

#[test]
fn rejects_conflicting_registration_without_replace() {
    let registry = RepositoryRegistry::at("/data/registry.sqlite");
    let conflict = registry
        .register("astral", root("/work/second"), false, Some("/work/first".to_owned()), None)
        .unwrap_err();
    assert_eq!(conflict, AstralError::RepositoryNameConflict { name: "astral".to_owned() });
    let moved = registry
        .register("astral", root("/work/second"), true, Some("/work/first".to_owned()), None)
        .expect("replacement");
    assert_eq!(moved.action, RegistryAction::Move);
    let same = registry
        .register("astral", root("/work/first"), false, Some("/work/first".to_owned()), None)
        .expect("same root");
    assert_eq!(same.action, RegistryAction::Touch);
}

#[test]
fn a_root_stays_under_one_name() {
    let registry = RepositoryRegistry::at("/data/registry.sqlite");
    let error = registry
        .register("other", root("/work/first"), false, None, Some("astral".to_owned()))
        .unwrap_err();
    assert_eq!(error, AstralError::RepositoryRootConflict { path: "/work/first".to_owned() });
    let moved = registry
        .register("other", root("/work/first"), true, Some("/work/x".to_owned()), Some("astral".to_owned()))
        .unwrap_err();
    assert_eq!(moved, AstralError::RepositoryRootConflict { path: "/work/first".to_owned() });
}

#[test]
fn an_outdated_registration_is_reported() {
    let registry = RepositoryRegistry::at("/data/registry.sqlite");
    let error = registry.resolve("astral", "/work/repo/sub", root("/work/repo")).unwrap_err();
    assert_eq!(error, AstralError::RepositoryRootNotFound { path: "/work/repo/sub".to_owned() });
    assert!(registry.resolve("astral", "/work//repo/", root("/work/repo")).is_ok());
}

#[test]
fn unregisters_a_repository_name() {
    let registry = RepositoryRegistry::at("/data/registry.sqlite");
    assert_eq!(registry.unregister("astral", 1), Ok(()));
    assert_eq!(
        registry.unregister("astral", 0),
        Err(AstralError::RepositoryNotRegistered { name: "astral".to_owned() })
    );
    assert!(matches!(registry.unregister("a/b", 1), Err(AstralError::InvalidRepositoryName { .. })));
}

#[test]
fn registry_and_data_paths() {
    assert_eq!(default_registry_path("/data"), "/data/registry.sqlite");
    assert_eq!(RepositoryRegistry::new("/data").database_path(), "/data/registry.sqlite");
    assert_eq!(RepositoryRegistry::default_path("/data/"), "/data/registry.sqlite");
    assert_eq!(default_data_dir(Some("/env".to_owned()), Some("/proj".to_owned())), "/env");
    assert_eq!(default_data_dir(None, Some("/proj".to_owned())), "/proj");
    assert_eq!(default_data_dir(None, None), ".astral");
}

#[test]
fn a_registration_reads_back_through_the_table() {
    let mut table = RegistryTable::new(RepositoryRegistry::at("/data/registry.sqlite"));
    table.add_row("other".to_owned(), "/work/other".to_owned());
    let registration = table.register("astral", root("/work/repo"), false).expect("register");
    assert_eq!(registration.action, RegistryAction::Insert);
    assert_eq!(table.registered_root_path("astral"), Ok("/work/repo".to_owned()));
    let resolved = table.resolve("astral", root("/work/repo")).expect("resolve");
    assert_eq!(resolved, registration.repository);
    assert_eq!(table.registered_root_path("other"), Ok("/work/other".to_owned()));
    // A root found elsewhere now means the registration is out of date.
    assert_eq!(
        table.resolve("astral", root("/work")),
        Err(AstralError::RepositoryRootNotFound { path: "/work/repo".to_owned() })
    );
    // A refused registration changes nothing.
    assert_eq!(
        table.register("astral", root("/work/other"), true),
        Err(AstralError::RepositoryRootConflict { path: "/work/other".to_owned() })
    );
    assert_eq!(table.registered_root_path("astral"), Ok("/work/repo".to_owned()));
}

#[test]
fn unregistering_through_the_table_removes_only_that_name() {
    let mut table = RegistryTable::new(RepositoryRegistry::at("/data/registry.sqlite"));
    table.add_row("astral".to_owned(), "/work/repo".to_owned());
    table.add_row("other".to_owned(), "/work/other".to_owned());
    assert_eq!(table.unregister("astral"), Ok(()));
    assert_eq!(
        table.registered_root_path("astral"),
        Err(AstralError::RepositoryNotRegistered { name: "astral".to_owned() })
    );
    assert_eq!(table.resolve("other", root("/work/other")).map(|r| r.name), Ok("other".to_owned()));
    assert_eq!(
        table.unregister("astral"),
        Err(AstralError::RepositoryNotRegistered { name: "astral".to_owned() })
    );
}
