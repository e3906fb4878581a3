use vstd::prelude::*;

use crate::error::AstralError;
use crate::paths::{paths_equal, same_path, spec_join_path};
use crate::text::{chars_of, is_ascii_alnum, string_of, take_prefix};

verus! {

// ----- repository names -----

/// A character a repository name may hold: an ASCII letter or digit, `-`, `_` or `.`.
pub open spec fn name_char(c: char) -> bool {
    is_ascii_alnum(c) || c == '-' || c == '_' || c == '.'
}

/// A repository name is a non-empty run of ASCII letters, digits, `-`, `_` and `.`.
pub open spec fn valid_repository_name(name: Seq<char>) -> bool {
    name.len() > 0 && forall|i: int| 0 <= i < name.len() ==> name_char(#[trigger] name[i])
}

/// `r` is the refusal of an invalid repository name `name`.
pub open spec fn refused_name<T>(r: Result<T, AstralError>, name: Seq<char>) -> bool {
    r matches Err(AstralError::InvalidRepositoryName { name: n }) && n@ == name
}

/// `r` says that nothing is registered under `name`.
pub open spec fn not_registered<T>(r: Result<T, AstralError>, name: Seq<char>) -> bool {
    r matches Err(AstralError::RepositoryNotRegistered { name: n }) && n@ == name
}

/// `r` says that no repository root was found from `path`.
pub open spec fn root_not_found<T>(r: Result<T, AstralError>, path: Seq<char>) -> bool {
    r matches Err(AstralError::RepositoryRootNotFound { path: p }) && p@ == path
}

/// `r` says that `name` holds another root already.
pub open spec fn name_conflict<T>(r: Result<T, AstralError>, name: Seq<char>) -> bool {
    r matches Err(AstralError::RepositoryNameConflict { name: n }) && n@ == name
}

/// `r` says that the root `path` is held under another name already.
pub open spec fn root_conflict<T>(r: Result<T, AstralError>, path: Seq<char>) -> bool {
    r matches Err(AstralError::RepositoryRootConflict { path: p }) && p@ == path
}

/// Accepts a valid repository name and refuses any other with `InvalidRepositoryName`.
pub fn validate_repository_name(name: &str) -> (r: Result<(), AstralError>)
    ensures
        r is Ok <==> valid_repository_name(name@),
        r is Err ==> refused_name(r, name@),
{
    let cs = chars_of(name);
    let mut ok = cs.len() > 0;
    let mut i: usize = 0;
    while i < cs.len()
        invariant
            i <= cs@.len(),
            cs@ == name@,
            ok == (cs@.len() > 0 && forall|j: int| 0 <= j < i ==> name_char(#[trigger] cs@[j])),
        decreases cs@.len() - i,
    {
        let c = cs[i];
        let good = ('A' <= c && c <= 'Z') || ('a' <= c && c <= 'z') || ('0' <= c && c <= '9')
            || c == '-' || c == '_' || c == '.';
        ok = ok && good;
        i = i + 1;
    }
    if ok {
        Ok(())
    } else {
        Err(AstralError::InvalidRepositoryName { name: name.to_owned() })
    }
}

// ----- finding a repository's root -----

/// The index of the last `/` among the first `n` characters, or -1.
pub open spec fn last_slash(p: Seq<char>, n: int) -> int
    decreases n,
{
    if n <= 0 {
        -1
    } else if p[n - 1] == '/' {
        n - 1
    } else {
        last_slash(p, n - 1)
    }
}

pub proof fn lemma_last_slash_bounds(p: Seq<char>, n: int)
    requires
        n <= p.len(),
    ensures
        -1 <= last_slash(p, n) < n || (n <= 0 && last_slash(p, n) == -1),
        last_slash(p, n) >= 0 ==> p[last_slash(p, n)] == '/',
    decreases n,
{
    if n > 0 && p[n - 1] != '/' {
        lemma_last_slash_bounds(p, n - 1);
    }
}

/// The parent of a canonical path (absolute, with no empty, `.` or `..` segment and no
/// trailing `/`), as `Path::parent` gives it: the root has none, and a name directly under
/// the root has the root.
pub open spec fn spec_parent(p: Seq<char>) -> Option<Seq<char>> {
    let i = last_slash(p, p.len() as int);
    if p.len() == 0 {
        None
    } else if i < 0 {
        Some(Seq::empty())
    } else if i == 0 {
        if p.len() == 1 {
            None
        } else {
            Some(seq!['/'])
        }
    } else {
        Some(p.take(i))
    }
}

pub proof fn lemma_parent_shorter(p: Seq<char>)
    ensures
        spec_parent(p) matches Some(q) ==> q.len() < p.len(),
{
    lemma_last_slash_bounds(p, p.len() as int);
}

/// A path and its ancestors, nearest first.
pub open spec fn spec_ancestors(p: Seq<char>) -> Seq<Seq<char>>
    decreases p.len(),
{
    match spec_parent(p) {
        Some(q) => {
            proof {
                lemma_parent_shorter(p);
            }
            seq![p] + spec_ancestors(q)
        },
        None => seq![p],
    }
}

fn parent_of(p: &[char]) -> (r: Option<Vec<char>>)
    ensures
        match r {
            Some(q) => spec_parent(p@) == Some(q@),
            None => spec_parent(p@) is None,
        },
{
    if p.len() == 0 {
        return None;
    }
    let mut i: usize = p.len();
    while i > 0 && p[i - 1] != '/'
        invariant
            i <= p@.len(),
            last_slash(p@, p@.len() as int) == last_slash(p@, i as int),
        decreases i,
    {
        i = i - 1;
    }
    if i == 0 {
        Some(Vec::new())
    } else if i == 1 {
        if p.len() == 1 {
            None
        } else {
            Some(vec!['/'])
        }
    } else {
        Some(take_prefix(p, i - 1))
    }
}

/// The directories in which a canonical path's repository root is looked for: the path
/// itself, then each ancestor up to the root of the file system.
pub fn candidate_roots(canonical: &str) -> (r: Vec<String>)
    ensures
        crate::text::string_views(r@) == spec_ancestors(canonical@),
{
    let mut cur = chars_of(canonical);
    let mut out: Vec<String> = Vec::new();
    loop
        invariant
            crate::text::string_views(out@) + spec_ancestors(cur@) == spec_ancestors(canonical@),
        decreases cur@.len(),
    {
        let ghost before = crate::text::string_views(out@);
        let s = string_of(cur.as_slice());
        out.push(s);
        proof {
            assert(crate::text::string_views(out@) =~= before.push(cur@));
            lemma_parent_shorter(cur@);
        }
        match parent_of(cur.as_slice()) {
            Some(q) => {
                proof {
                    assert(spec_ancestors(cur@) == seq![cur@] + spec_ancestors(q@));
                    assert(before.push(cur@) + spec_ancestors(q@) =~= before + (seq![cur@]
                        + spec_ancestors(q@)));
                }
                cur = q;
            },
            None => {
                proof {
                    assert(spec_ancestors(cur@) == seq![cur@]);
                    assert(before.push(cur@) =~= before + seq![cur@]);
                }
                return out;
            },
        }
    }
}

/// The first index below `n` at which `flags` holds, if any.
pub open spec fn first_true(flags: Seq<bool>, n: int) -> Option<int>
    decreases n,
{
    if n <= 0 {
        None
    } else {
        match first_true(flags, n - 1) {
            Some(i) => Some(i),
            None => if flags[n - 1] {
                Some(n - 1)
            } else {
                None
            },
        }
    }
}

proof fn lemma_first_true_stable(flags: Seq<bool>, k: int, m: int)
    requires
        k <= m,
        first_true(flags, k) is Some,
    ensures
        first_true(flags, m) == first_true(flags, k),
    decreases m - k,
{
    if k < m {
        lemma_first_true_stable(flags, k, m - 1);
    }
}

/// How many candidates a search for the root looks at: those for which it is told whether
/// they hold `.git` metadata.
pub open spec fn searched(canonical: Seq<char>, has_git_metadata: Seq<bool>) -> int {
    let cands = spec_ancestors(canonical);
    if has_git_metadata.len() < cands.len() {
        has_git_metadata.len() as int
    } else {
        cands.len() as int
    }
}

/// What looking up a path found: nothing, an error other than its absence, something
/// other than a directory, or a directory.
#[derive(Debug, Clone, PartialEq, Eq)]
pub enum InputKind {
    Missing,
    Inaccessible { source: String },
    File,
    Directory,
}

/// The root of a repository: the nearest directory, from a given path upward, that holds
/// `.git` metadata (a directory, or the file that a worktree has).
#[derive(Debug, Clone, PartialEq, Eq)]
pub struct RepositoryRoot(String);

impl RepositoryRoot {
    pub closed spec fn spec_path(&self) -> Seq<char> {
        self.0@
    }

    /// Whether the path given by the user may be searched from: it must exist and be a
    /// directory. `kind` says what looking it up found.
    pub fn check_input(input: &str, kind: InputKind) -> (r: Result<(), AstralError>)
        ensures
            match kind {
                InputKind::Missing => r matches Err(AstralError::PathNotFound { path }) && path@
                    == input@,
                InputKind::Inaccessible { source } => r matches Err(
                    AstralError::PathAccess { path, source: s },
                ) && path@ == input@ && s@ == source@,
                InputKind::File => r matches Err(AstralError::NotDirectory { path }) && path@
                    == input@,
                InputKind::Directory => r is Ok,
            },
    {
        match kind {
            InputKind::Missing => Err(AstralError::PathNotFound { path: input.to_owned() }),
            InputKind::Inaccessible { source } => Err(
                AstralError::PathAccess { path: input.to_owned(), source },
            ),
            InputKind::File => Err(AstralError::NotDirectory { path: input.to_owned() }),
            InputKind::Directory => Ok(()),
        }
    }

    /// Picks the root of the repository holding the canonical path `canonical`:
    /// `has_git_metadata[i]` tells whether the `i`-th of `candidate_roots(canonical)` holds
    /// `.git` metadata. The nearest that does is the root; when none does (among those
    /// whose answer is given), the error names the canonical path.
    pub fn resolve(canonical: &str, has_git_metadata: &Vec<bool>) -> (r: Result<Self, AstralError>)
        ensures
            match first_true(has_git_metadata@, searched(canonical@, has_git_metadata@)) {
                Some(i) => r matches Ok(found) && found.spec_path() == spec_ancestors(canonical@)[i],
                None => root_not_found(r, canonical@),
            },
    {
        let cands = candidate_roots(canonical);
        let ghost cs = spec_ancestors(canonical@);
        assert(cands@.len() == cs.len());
        let n = if has_git_metadata.len() < cands.len() {
            has_git_metadata.len()
        } else {
            cands.len()
        };
        let mut i: usize = 0;
        while i < n
            invariant
                i <= n,
                n <= has_git_metadata@.len(),
                n <= cands@.len(),
                crate::text::string_views(cands@) == cs,
                cs == spec_ancestors(canonical@),
                n == searched(canonical@, has_git_metadata@),
                first_true(has_git_metadata@, i as int) is None,
            decreases n - i,
        {
            if has_git_metadata[i] {
                let root = cands[i].clone();
                proof {
                    assert(first_true(has_git_metadata@, i + 1) == Some(i as int));
                    lemma_first_true_stable(has_git_metadata@, i + 1, n as int);
                    assert(cands@[i as int]@ == crate::text::string_views(cands@)[i as int]);
                    assert(root@ == cs[i as int]);
                    assert(first_true(has_git_metadata@, n as int) == Some(i as int));
                }
                let found = RepositoryRoot(root);
                assert(found.spec_path() == cs[i as int]);
                assert(searched(canonical@, has_git_metadata@) == n);
                return Ok(found);
            }
            i = i + 1;
        }
        Err(AstralError::RepositoryRootNotFound { path: canonical.to_owned() })
    }

    /// The root directory.
    pub fn path(&self) -> (r: &str)
        ensures
            r@ == self.spec_path(),
    {
        self.0.as_str()
    }
}

} // verus!

verus! {

// ----- the registry of repositories -----

/// A repository registered under a name.
#[derive(Debug, Clone, PartialEq, Eq)]
pub struct RegisteredRepository {
    pub name: String,
    pub root: RepositoryRoot,
}

/// The registry of repositories, kept in a SQLite database: it maps each name to one root,
/// and holds each root under one name.
#[derive(Debug, Clone)]
pub struct RepositoryRegistry {
    database_path: String,
}

/// Where the registry lives under a data directory: `<data dir>/registry.sqlite`.
pub open spec fn spec_registry_path(data_dir: Seq<char>) -> Seq<char> {
    spec_join_path(data_dir, "registry.sqlite"@)
}

/// The path of the registry database under the data directory `data_dir`.
pub fn default_registry_path(data_dir: &str) -> (r: String)
    ensures
        r@ == spec_registry_path(data_dir@),
{
    crate::paths::join_path(data_dir, "registry.sqlite")
}

/// What registering a name does to the registry.
#[derive(Debug, Clone, Copy, PartialEq, Eq, Structural)]
pub enum RegistryAction {
    /// The name already holds this root: only its time is updated.
    Touch,
    /// The name moves to the new root.
    Move,
    /// The name is new.
    Insert,
}

/// The outcome of a registration: the change to make and the repository registered.
#[derive(Debug, Clone, PartialEq, Eq)]
pub struct Registration {
    pub action: RegistryAction,
    pub repository: RegisteredRepository,
}

pub open spec fn stored_view(o: Option<String>) -> Option<Seq<char>> {
    match o {
        Some(s) => Some(s@),
        None => None,
    }
}

/// What registering a valid name does, given the root the name holds now (`existing`),
/// whether another name holds `root` (`root_taken`), and whether it may move: `None` when
/// it is refused.
pub open spec fn registration_action(
    existing: Option<Seq<char>>,
    root_taken: bool,
    root: Seq<char>,
    replace: bool,
) -> Option<RegistryAction> {
    match existing {
        Some(e) => if e == root {
            Some(RegistryAction::Touch)
        } else if !replace || root_taken {
            None
        } else {
            Some(RegistryAction::Move)
        },
        None => if root_taken {
            None
        } else {
            Some(RegistryAction::Insert)
        },
    }
}

/// What a registration of `name` for `root` gives, when the name holds `existing` now and
/// `root_taken` tells whether another name holds `root`: an invalid name is refused; a name
/// that holds another root moves only with `replace`; a root stays under one name.
pub open spec fn registration_result(
    r: Result<Registration, AstralError>,
    name: Seq<char>,
    root: RepositoryRoot,
    replace: bool,
    existing: Option<Seq<char>>,
    root_taken: bool,
) -> bool {
    &&& !valid_repository_name(name) ==> refused_name(r, name)
    &&& valid_repository_name(name) ==> match existing {
        Some(e) => if e == root.spec_path() {
            r matches Ok(reg) && reg.action == RegistryAction::Touch
        } else if !replace {
            name_conflict(r, name)
        } else if root_taken {
            root_conflict(r, root.spec_path())
        } else {
            r matches Ok(reg) && reg.action == RegistryAction::Move
        },
        None => if root_taken {
            root_conflict(r, root.spec_path())
        } else {
            r matches Ok(reg) && reg.action == RegistryAction::Insert
        },
    }
    &&& r matches Ok(reg) ==> reg.repository.name@ == name && reg.repository.root == root
    &&& valid_repository_name(name) ==> (r is Ok <==> registration_action(existing, root_taken, root.spec_path(), replace) is Some)
    &&& r matches Ok(reg) ==> registration_action(existing, root_taken, root.spec_path(), replace) == Some(reg.action)
}

// ----- the registry's table, as the database holds it: each name with its root -----

/// The root the table holds for `name`.
pub open spec fn table_root(table: Map<Seq<char>, Seq<char>>, name: Seq<char>) -> Option<Seq<char>> {
    if table.dom().contains(name) {
        Some(table[name])
    } else {
        None
    }
}

/// Some name other than `name` holds `root`.
pub open spec fn root_taken(table: Map<Seq<char>, Seq<char>>, name: Seq<char>, root: Seq<char>) -> bool {
    exists|n: Seq<char>| n != name && table.dom().contains(n) && table[n] == root
}

/// The table after a registration of `name` at `root` was carried out: a touch changes
/// no root; a move or an insert sets the name's root.
pub open spec fn table_after(
    table: Map<Seq<char>, Seq<char>>,
    name: Seq<char>,
    root: Seq<char>,
    action: RegistryAction,
) -> Map<Seq<char>, Seq<char>> {
    match action {
        RegistryAction::Touch => table,
        _ => table.insert(name, root),
    }
}

/// No root is held under two names.
pub open spec fn one_name_per_root(table: Map<Seq<char>, Seq<char>>) -> bool {
    forall|a: Seq<char>, b: Seq<char>|
        table.dom().contains(a) && table.dom().contains(b) && a != b ==> #[trigger] table[a] != #[trigger] table[b]
}

/// How many rows removing `name` deletes.
pub open spec fn rows_deleted(table: Map<Seq<char>, Seq<char>>, name: Seq<char>) -> nat {
    if table.dom().contains(name) {
        1
    } else {
        0
    }
}

/// A registration is read back: after a registration of a valid name that the registry
/// accepts is carried out, the table holds `root` for the name (so `registered_root_path`
/// gives it, and `resolve` from a root found at that same path gives the registration),
/// every other name keeps its root, and no root comes to be held under two names.
pub proof fn registration_is_read_back(
    table: Map<Seq<char>, Seq<char>>,
    name: Seq<char>,
    root: Seq<char>,
    replace: bool,
)
    requires
        valid_repository_name(name),
        registration_action(table_root(table, name), root_taken(table, name, root), root, replace) is Some,
    ensures
        ({
            let action = registration_action(table_root(table, name), root_taken(table, name, root), root, replace)->0;
            let after = table_after(table, name, root, action);
            &&& table_root(after, name) == Some(root)
            &&& forall|other: Seq<char>| other != name ==> table_root(after, other) == table_root(table, other)
            &&& one_name_per_root(table) ==> one_name_per_root(after)
        }),
        same_path(root, root),
{
    let action = registration_action(table_root(table, name), root_taken(table, name, root), root, replace)->0;
    let after = table_after(table, name, root, action);
    if action != RegistryAction::Touch {
        assert(!root_taken(table, name, root));
        if one_name_per_root(table) {
            assert forall|a: Seq<char>, b: Seq<char>|
                after.dom().contains(a) && after.dom().contains(b) && a != b implies #[trigger] after[a]
                != #[trigger] after[b] by {
                if a == name {
                    assert(!(b != name && table.dom().contains(b) && table[b] == root));
                } else if b == name {
                    assert(!(a != name && table.dom().contains(a) && table[a] == root));
                } else {
                    assert(table[a] != table[b]);
                }
            }
        }
    }
}

/// Unregistering removes only that name: afterwards nothing is registered under it (so a
/// second removal deletes nothing and is refused), every other name keeps its root, and
/// the removal deleted a row exactly when the name was registered.
pub proof fn unregister_removes_only_the_name(table: Map<Seq<char>, Seq<char>>, name: Seq<char>)
    ensures
        table_root(table.remove(name), name) is None,
        rows_deleted(table.remove(name), name) == 0,
        forall|other: Seq<char>| other != name ==> table_root(table.remove(name), other) == table_root(table, other),
        (rows_deleted(table, name) > 0) == (table_root(table, name) is Some),
{
}

impl RepositoryRegistry {
    pub closed spec fn spec_database_path(&self) -> Seq<char> {
        self.database_path@
    }

    /// The registry in the data directory `data_dir`.
    pub fn new(data_dir: &str) -> (r: Self)
        ensures
            r.spec_database_path() == spec_registry_path(data_dir@),
    {
        RepositoryRegistry { database_path: default_registry_path(data_dir) }
    }

    /// The registry kept in the database at `database_path`.
    pub fn at(database_path: &str) -> (r: Self)
        ensures
            r.spec_database_path() == database_path@,
    {
        RepositoryRegistry { database_path: database_path.to_owned() }
    }

    /// The path of the registry database in the data directory `data_dir`.
    pub fn default_path(data_dir: &str) -> (r: String)
        ensures
            r@ == spec_registry_path(data_dir@),
    {
        default_registry_path(data_dir)
    }

    /// The database the registry is kept in.
    pub fn database_path(&self) -> (r: &str)
        ensures
            r@ == self.spec_database_path(),
    {
        self.database_path.as_str()
    }

    /// Decides a registration of `name` for the repository at `root`, from what the registry
    /// holds: `existing_root`, the root the name holds now, and `root_owner`, another name
    /// that holds `root`. A name that holds another root moves only with `replace`; a root
    /// stays under one name.
    pub fn register(
        &self,
        name: &str,
        root: RepositoryRoot,
        replace: bool,
        existing_root: Option<String>,
        root_owner: Option<String>,
    ) -> (r: Result<Registration, AstralError>)
        ensures
            registration_result(r, name@, root, replace, stored_view(existing_root), root_owner is Some),
    {
        if let Err(e) = validate_repository_name(name) {
            return Err(e);
        }
        let action = match existing_root {
            Some(existing) => {
                if existing == root.0 {
                    RegistryAction::Touch
                } else if !replace {
                    return Err(AstralError::RepositoryNameConflict { name: name.to_owned() });
                } else if root_owner.is_some() {
                    return Err(AstralError::RepositoryRootConflict { path: root.path().to_owned() });
                } else {
                    RegistryAction::Move
                }
            },
            None => {
                if root_owner.is_some() {
                    return Err(AstralError::RepositoryRootConflict { path: root.path().to_owned() });
                }
                RegistryAction::Insert
            },
        };
        Ok(Registration { action, repository: RegisteredRepository { name: name.to_owned(), root } })
    }

    /// The root registered under `name`, given `stored_root`, what the registry holds for
    /// it: `InvalidRepositoryName` for an invalid name, `RepositoryNotRegistered` when the
    /// registry holds nothing.
    pub fn registered_root_path(&self, name: &str, stored_root: Option<String>) -> (r: Result<String, AstralError>)
        ensures
            !valid_repository_name(name@) ==> refused_name(r, name@),
            valid_repository_name(name@) ==> match stored_root {
                Some(p) => r matches Ok(q) && q@ == p@,
                None => not_registered(r, name@),
            },
    {
        if let Err(e) = validate_repository_name(name) {
            return Err(e);
        }
        match stored_root {
            Some(p) => Ok(p),
            None => Err(AstralError::RepositoryNotRegistered { name: name.to_owned() }),
        }
    }

    /// The repository registered under `name` at `registered_path`, given `root`, the
    /// repository root found from that path now: it must be that same directory, or the
    /// registration is out of date and the error names the registered path.
    pub fn resolve(&self, name: &str, registered_path: &str, root: RepositoryRoot) -> (r: Result<
        RegisteredRepository,
        AstralError,
    >)
        ensures
            same_path(root.spec_path(), registered_path@) ==> (r matches Ok(reg) && reg.name@ == name@
                && reg.root == root),
            !same_path(root.spec_path(), registered_path@) ==> root_not_found(r, registered_path@),
    {
        if paths_equal(root.path(), registered_path) {
            Ok(RegisteredRepository { name: name.to_owned(), root })
        } else {
            Err(AstralError::RepositoryRootNotFound { path: registered_path.to_owned() })
        }
    }

    /// The outcome of removing `name`, given how many registrations the removal deleted.
    pub fn unregister(&self, name: &str, deleted: usize) -> (r: Result<(), AstralError>)
        ensures
            !valid_repository_name(name@) ==> refused_name(r, name@),
            valid_repository_name(name@) ==> (r is Ok <==> deleted > 0),
            valid_repository_name(name@) && deleted == 0 ==> not_registered(r, name@),
    {
        if let Err(e) = validate_repository_name(name) {
            return Err(e);
        }
        if deleted == 0 {
            return Err(AstralError::RepositoryNotRegistered { name: name.to_owned() });
        }
        Ok(())
    }
}

} // verus!

verus! {

/// The data directory: `ASTRAL_DATA_DIR` when it is set, else the user's data directory for
/// the program, else `.astral`.
pub open spec fn spec_default_data_dir(env_value: Option<Seq<char>>, project_data_dir: Option<Seq<char>>) -> Seq<char> {
    match env_value {
        Some(v) => v,
        None => match project_data_dir {
            Some(p) => p,
            None => ".astral"@,
        },
    }
}

/// The data directory, given the value of `ASTRAL_DATA_DIR` and the platform's data
/// directory for the program, each if there is one.
pub fn default_data_dir(env_value: Option<String>, project_data_dir: Option<String>) -> (r: String)
    ensures
        r@ == spec_default_data_dir(
            match env_value {
                Some(v) => Some(v@),
                None => None,
            },
            match project_data_dir {
                Some(p) => Some(p@),
                None => None,
            },
        ),
{
    match env_value {
        Some(v) => v,
        None => match project_data_dir {
            Some(p) => p,
            None => ".astral".to_owned(),
        },
    }
}

} // verus!

verus! {

// ----- the registry's rows, loaded from its database -----

/// One row of the registry: a name and the root path registered under it.
#[derive(Debug, Clone, PartialEq, Eq)]
pub struct RegistryRow {
    pub name: String,
    pub root_path: String,
}

/// The root the rows hold for `name` (the last row for it, should there be several).
pub open spec fn rows_lookup(rows: Seq<RegistryRow>, name: Seq<char>) -> Option<Seq<char>>
    decreases rows.len(),
{
    if rows.len() == 0 {
        None
    } else if rows.last().name@ == name {
        Some(rows.last().root_path@)
    } else {
        rows_lookup(rows.drop_last(), name)
    }
}

/// The rows without those of `name`.
pub open spec fn rows_without(rows: Seq<RegistryRow>, name: Seq<char>) -> Seq<RegistryRow>
    decreases rows.len(),
{
    if rows.len() == 0 {
        Seq::empty()
    } else if rows.last().name@ == name {
        rows_without(rows.drop_last(), name)
    } else {
        rows_without(rows.drop_last(), name).push(rows.last())
    }
}

/// The table the rows make: each name with its root.
pub open spec fn rows_table(rows: Seq<RegistryRow>) -> Map<Seq<char>, Seq<char>> {
    Map::new(|n: Seq<char>| rows_lookup(rows, n) is Some, |n: Seq<char>| rows_lookup(rows, n)->0)
}

proof fn lemma_table_root_of_rows(rows: Seq<RegistryRow>, name: Seq<char>)
    ensures
        table_root(rows_table(rows), name) == rows_lookup(rows, name),
{
}

proof fn lemma_rows_without(rows: Seq<RegistryRow>, name: Seq<char>, n: Seq<char>)
    ensures
        rows_lookup(rows_without(rows, name), n) == (if n == name { None } else { rows_lookup(rows, n) }),
    decreases rows.len(),
{
    if rows.len() > 0 {
        lemma_rows_without(rows.drop_last(), name, n);
        if rows.last().name@ != name {
            assert(rows_without(rows, name).drop_last() =~= rows_without(rows.drop_last(), name));
        }
    }
}

proof fn lemma_lookup_has_row(rows: Seq<RegistryRow>, n: Seq<char>)
    requires
        rows_lookup(rows, n) is Some,
    ensures
        exists|k: int| 0 <= k < rows.len() && (#[trigger] rows[k]).name@ == n,
    decreases rows.len(),
{
    if rows.last().name@ == n {
        assert(rows[rows.len() - 1].name@ == n);
    } else {
        lemma_lookup_has_row(rows.drop_last(), n);
        let k = choose|k: int| 0 <= k < rows.drop_last().len() && (#[trigger] rows.drop_last()[k]).name@ == n;
        assert(rows[k] == rows.drop_last()[k]);
    }
}

/// The registry with the rows its database holds. Registering and unregistering decide
/// as `RepositoryRegistry` does and change the rows as the database is then changed.
pub struct RegistryTable {
    registry: RepositoryRegistry,
    rows: Vec<RegistryRow>,
}

impl View for RegistryTable {
    type V = Map<Seq<char>, Seq<char>>;

    closed spec fn view(&self) -> Map<Seq<char>, Seq<char>> {
        rows_table(self.rows@)
    }
}

impl RegistryTable {
    pub closed spec fn spec_registry(&self) -> RepositoryRegistry {
        self.registry
    }

    /// The registry, with no rows loaded yet.
    pub fn new(registry: RepositoryRegistry) -> (r: Self)
        ensures
            r@ == Map::<Seq<char>, Seq<char>>::empty(),
            r.spec_registry() == registry,
    {
        let r = RegistryTable { registry, rows: Vec::new() };
        assert(r@ =~= Map::<Seq<char>, Seq<char>>::empty());
        r
    }

    /// Adds a row read from the database.
    pub fn add_row(&mut self, name: String, root_path: String)
        ensures
            final(self)@ == old(self)@.insert(name@, root_path@),
            final(self).spec_registry() == old(self).spec_registry(),
    {
        let ghost before = self.rows@;
        self.rows.push(RegistryRow { name, root_path });
        proof {
            assert(self.rows@.drop_last() =~= before);
            assert(self@ =~= rows_table(before).insert(name@, root_path@));
        }
    }

    /// The root the table holds for `name`.
    pub fn root_of(&self, name: &str) -> (r: Option<String>)
        ensures
            stored_view(r) == table_root(self@, name@),
    {
        let key = name.to_owned();
        let mut found: Option<String> = None;
        let mut i: usize = 0;
        while i < self.rows.len()
            invariant
                i <= self.rows@.len(),
                key@ == name@,
                stored_view(found) == rows_lookup(self.rows@.take(i as int), name@),
            decreases self.rows@.len() - i,
        {
            proof {
                assert(self.rows@.take(i + 1).drop_last() =~= self.rows@.take(i as int));
                assert(self.rows@.take(i + 1).last() == self.rows@[i as int]);
            }
            if self.rows[i].name == key {
                found = Some(self.rows[i].root_path.clone());
            }
            i = i + 1;
        }
        proof {
            assert(self.rows@.take(self.rows@.len() as int) =~= self.rows@);
            lemma_table_root_of_rows(self.rows@, name@);
        }
        found
    }

    /// Another name than `name` that holds `root_path`, if one does.
    pub fn owner_of_root(&self, name: &str, root_path: &str) -> (r: Option<String>)
        ensures
            (r is Some) == root_taken(self@, name@, root_path@),
            r matches Some(n) ==> n@ != name@ && table_root(self@, n@) == Some(root_path@),
    {
        let key = name.to_owned();
        let wanted = root_path.to_owned();
        let mut i: usize = 0;
        while i < self.rows.len()
            invariant
                i <= self.rows@.len(),
                key@ == name@,
                wanted@ == root_path@,
                forall|k: int|
                    0 <= k < i ==> (#[trigger] self.rows@[k]).name@ == name@ || rows_lookup(self.rows@, self.rows@[k].name@)
                        != Some(root_path@),
            decreases self.rows@.len() - i,
        {
            let n = &self.rows[i].name;
            if *n != key {
                let held = self.root_of(n.as_str());
                let holds = match &held {
                    Some(p) => *p == wanted,
                    None => false,
                };
                if holds {
                    proof {
                        lemma_table_root_of_rows(self.rows@, n@);
                        assert(self@.dom().contains(n@) && self@[n@] == root_path@);
                    }
                    return Some(n.clone());
                }
                proof {
                    lemma_table_root_of_rows(self.rows@, n@);
                }
            }
            i = i + 1;
        }
        proof {
            if root_taken(self@, name@, root_path@) {
                let m = choose|m: Seq<char>| m != name@ && self@.dom().contains(m) && self@[m] == root_path@;
                lemma_table_root_of_rows(self.rows@, m);
                lemma_lookup_has_row(self.rows@, m);
                let k = choose|k: int| 0 <= k < self.rows@.len() && (#[trigger] self.rows@[k]).name@ == m;
                assert(self.rows@[k].name@ == m);
            }
        }
        None
    }

    /// Drops the rows of `name`.
    fn remove_rows(&mut self, name: &str)
        ensures
            final(self).rows@ == rows_without(old(self).rows@, name@),
            final(self).registry == old(self).registry,
    {
        let key = name.to_owned();
        let mut kept: Vec<RegistryRow> = Vec::new();
        let mut i: usize = 0;
        while i < self.rows.len()
            invariant
                i <= self.rows@.len(),
                key@ == name@,
                kept@ == rows_without(self.rows@.take(i as int), name@),
            decreases self.rows@.len() - i,
        {
            proof {
                assert(self.rows@.take(i + 1).drop_last() =~= self.rows@.take(i as int));
                assert(self.rows@.take(i + 1).last() == self.rows@[i as int]);
            }
            if self.rows[i].name != key {
                let row = RegistryRow { name: self.rows[i].name.clone(), root_path: self.rows[i].root_path.clone() };
                assert(row == self.rows@[i as int]);
                kept.push(row);
            }
            i = i + 1;
        }
        assert(self.rows@.take(self.rows@.len() as int) =~= self.rows@);
        self.rows = kept;
    }

    /// Registers `name` for the repository at `root`: decides as `RepositoryRegistry::register`
    /// does from what the table holds, and on success changes the table as the database is
    /// changed. Afterwards the table holds `root` for the name, every other name keeps its
    /// root, and a refused registration changes nothing.
    pub fn register(&mut self, name: &str, root: RepositoryRoot, replace: bool) -> (r: Result<Registration, AstralError>)
        ensures
            registration_result(
                r,
                name@,
                root,
                replace,
                table_root(old(self)@, name@),
                root_taken(old(self)@, name@, root.spec_path()),
            ),
            r matches Ok(reg) ==> final(self)@ == table_after(old(self)@, name@, root.spec_path(), reg.action),
            r matches Ok(reg) ==> table_root(final(self)@, name@) == Some(root.spec_path()),
            r matches Ok(reg) ==> forall|other: Seq<char>|
                other != name@ ==> #[trigger] table_root(final(self)@, other) == table_root(old(self)@, other),
            r is Err ==> final(self)@ == old(self)@,
            final(self).spec_registry() == old(self).spec_registry(),
    {
        let existing = self.root_of(name);
        let owner = self.owner_of_root(name, root.path());
        let root_path = root.path().to_owned();
        let decided = self.registry.register(name, root, replace, existing, owner);
        match decided {
            Ok(reg) => {
                match reg.action {
                    RegistryAction::Touch => {},
                    _ => {
                        let ghost before = self.rows@;
                        self.remove_rows(name);
                        let ghost without = self.rows@;
                        self.rows.push(RegistryRow { name: name.to_owned(), root_path });
                        proof {
                            assert(self.rows@.drop_last() =~= without);
                            assert forall|n: Seq<char>| #[trigger] rows_lookup(self.rows@, n) == (if n == name@ {
                                Some(root_path@)
                            } else {
                                rows_lookup(before, n)
                            }) by {
                                lemma_rows_without(before, name@, n);
                            }
                            assert(self@ =~= rows_table(before).insert(name@, root_path@));
                        }
                    },
                }
                proof {
                    let after = table_after(old(self)@, name@, root_path@, reg.action);
                    assert forall|other: Seq<char>| other != name@ implies #[trigger] table_root(self@, other)
                        == table_root(old(self)@, other) by {}
                }
                Ok(reg)
            },
            Err(e) => Err(e),
        }
    }

    /// The root registered under `name`, as the table holds it; nothing on disk is checked.
    pub fn registered_root_path(&self, name: &str) -> (r: Result<String, AstralError>)
        ensures
            !valid_repository_name(name@) ==> refused_name(r, name@),
            valid_repository_name(name@) ==> match table_root(self@, name@) {
                Some(p) => r matches Ok(q) && q@ == p,
                None => not_registered(r, name@),
            },
    {
        let stored = self.root_of(name);
        self.registry.registered_root_path(name, stored)
    }

    /// The repository registered under `name`, given `found`, the root found now from its
    /// registered path: the registration when `found` is that path, else the error
    /// `RepositoryRootNotFound` naming it.
    pub fn resolve(&self, name: &str, found: RepositoryRoot) -> (r: Result<RegisteredRepository, AstralError>)
        ensures
            !valid_repository_name(name@) ==> refused_name(r, name@),
            valid_repository_name(name@) ==> match table_root(self@, name@) {
                Some(p) => if same_path(found.spec_path(), p) {
                    r matches Ok(reg) && reg.name@ == name@ && reg.root == found
                } else {
                    root_not_found(r, p)
                },
                None => not_registered(r, name@),
            },
    {
        let path = match self.registered_root_path(name) {
            Ok(p) => p,
            Err(e) => return Err(e),
        };
        self.registry.resolve(name, path.as_str(), found)
    }

    /// Removes the registration of `name`: afterwards the table holds nothing for it and
    /// every other name keeps its root; removing a name that is not registered is refused.
    pub fn unregister(&mut self, name: &str) -> (r: Result<(), AstralError>)
        ensures
            !valid_repository_name(name@) ==> refused_name(r, name@) && final(self)@ == old(self)@,
            valid_repository_name(name@) ==> final(self)@ == old(self)@.remove(name@),
            valid_repository_name(name@) ==> (r is Ok <==> table_root(old(self)@, name@) is Some),
            valid_repository_name(name@) && table_root(old(self)@, name@) is None ==> not_registered(r, name@),
            table_root(final(self)@, name@) is None || !valid_repository_name(name@),
            forall|other: Seq<char>|
                other != name@ ==> #[trigger] table_root(final(self)@, other) == table_root(old(self)@, other),
            final(self).spec_registry() == old(self).spec_registry(),
    {
        if let Err(e) = validate_repository_name(name) {
            return Err(e);
        }
        let deleted: usize = match self.root_of(name) {
            Some(_) => 1,
            None => 0,
        };
        let ghost before = self.rows@;
        self.remove_rows(name);
        proof {
            assert forall|n: Seq<char>| #[trigger] rows_lookup(self.rows@, n) == (if n == name@ {
                None
            } else {
                rows_lookup(before, n)
            }) by {
                lemma_rows_without(before, name@, n);
            }
            assert(self@ =~= rows_table(before).remove(name@));
        }
        self.registry.unregister(name, deleted)
    }
}

} // verus!
