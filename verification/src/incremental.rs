use vstd::prelude::*;

use crate::paths::{distinct_paths, paths_equal, same_path, sort_paths, sorted_paths};
use crate::text::string_views;

verus! {

/// How long the watcher waits after the last change before it refreshes: 500 ms, in
/// nanoseconds.
pub const DEFAULT_DEBOUNCE: u64 = 500_000_000;

/// The longest a batch of changes waits after its first change: one second, in nanoseconds.
pub const DEFAULT_BATCH_WINDOW: u64 = 1_000_000_000;

// ----- the batcher of changed paths -----

/// What a batcher holds: the changed paths (each place once, in the order first seen), the
/// times of the first and the last change of the batch, and its two windows. Times and
/// windows are nanoseconds on one monotonic clock.
pub struct BatcherView {
    pub paths: Seq<Seq<char>>,
    pub first_event: Option<u64>,
    pub last_event: Option<u64>,
    pub debounce: u64,
    pub batch_window: u64,
}

/// Whether `paths` already holds a path naming the same place as `p`.
pub open spec fn holds_path(paths: Seq<Seq<char>>, p: Seq<char>) -> bool {
    exists|i: int| 0 <= i < paths.len() && same_path(#[trigger] paths[i], p)
}

/// `a - b`, or zero when `b` is later: how long after `b` the time `a` is.
pub open spec fn elapsed(a: u64, b: u64) -> u64 {
    if a >= b {
        (a - b) as u64
    } else {
        0
    }
}

/// The batch after a change of `path` at `now`.
pub open spec fn spec_record(v: BatcherView, path: Seq<char>, now: u64) -> BatcherView {
    BatcherView {
        paths: if holds_path(v.paths, path) {
            v.paths
        } else {
            v.paths.push(path)
        },
        first_event: if v.first_event is Some {
            v.first_event
        } else {
            Some(now)
        },
        last_event: Some(now),
        debounce: v.debounce,
        batch_window: v.batch_window,
    }
}

/// A batch is ready once it has a change and either the debounce has passed since the last
/// change or the batch window since the first.
pub open spec fn spec_ready(v: BatcherView, now: u64) -> bool {
    match v.first_event {
        None => false,
        Some(first) => {
            elapsed(now, v.last_event.unwrap()) >= v.debounce || elapsed(now, first)
                >= v.batch_window
        },
    }
}

/// The batcher after its batch was taken: empty, with the same windows.
pub open spec fn spec_take(v: BatcherView) -> BatcherView {
    BatcherView {
        paths: Seq::empty(),
        first_event: None,
        last_event: None,
        debounce: v.debounce,
        batch_window: v.batch_window,
    }
}

/// Collects changed paths and says when a batch of them is due.
#[derive(Debug)]
pub struct DirtyBatcher {
    paths: Vec<String>,
    first_event: Option<u64>,
    last_event: Option<u64>,
    debounce: u64,
    batch_window: u64,
}

impl View for DirtyBatcher {
    type V = BatcherView;

    closed spec fn view(&self) -> BatcherView {
        BatcherView {
            paths: string_views(self.paths@),
            first_event: self.first_event,
            last_event: self.last_event,
            debounce: self.debounce,
            batch_window: self.batch_window,
        }
    }
}

/// Whether `paths` holds a path naming the same place as `p`.
fn contains_path(paths: &Vec<String>, p: &str) -> (r: bool)
    ensures
        r == holds_path(string_views(paths@), p@),
{
    let ghost views = string_views(paths@);
    let mut i: usize = 0;
    while i < paths.len()
        invariant
            i <= paths@.len(),
            views == string_views(paths@),
            forall|j: int| 0 <= j < i ==> !same_path(#[trigger] views[j], p@),
        decreases paths@.len() - i,
    {
        if paths_equal(paths[i].as_str(), p) {
            assert(same_path(views[i as int], p@));
            return true;
        }
        i = i + 1;
    }
    false
}

impl DirtyBatcher {
    /// Paths name distinct places, and a batch with a first change has a last one.
    #[verifier::type_invariant]
    spec fn well_formed(self) -> bool {
        &&& distinct_paths(string_views(self.paths@))
        &&& (self.first_event is Some ==> self.last_event is Some)
    }

    /// An empty batcher with the given windows, in nanoseconds.
    pub fn new(debounce: u64, batch_window: u64) -> (r: Self)
        ensures
            r@.paths == Seq::<Seq<char>>::empty(),
            r@.first_event is None,
            r@.last_event is None,
            r@.debounce == debounce,
            r@.batch_window == batch_window,
    {
        let r = DirtyBatcher {
            paths: Vec::new(),
            first_event: None,
            last_event: None,
            debounce,
            batch_window,
        };
        assert(string_views(r.paths@) =~= Seq::<Seq<char>>::empty());
        r
    }

    /// Records a change of `path` at `now`. A path that names a place already in the batch
    /// is not added again.
    pub fn record(&mut self, path: String, now: u64)
        ensures
            final(self)@ == spec_record(old(self)@, path@, now),
    {
        proof {
            use_type_invariant(&*self);
        }
        let found = contains_path(&self.paths, path.as_str());
        let ghost before = string_views(self.paths@);
        if !found {
            let mut paths: Vec<String> = Vec::new();
            std::mem::swap(&mut paths, &mut self.paths);
            paths.push(path);
            proof {
                assert(string_views(paths@) =~= before.push(path@));
            }
            self.paths = paths;
        }
        self.last_event = Some(now);
        if self.first_event.is_none() {
            self.first_event = Some(now);
        }
    }

    /// Whether the batch is due at `now`.
    pub fn ready(&self, now: u64) -> (r: bool)
        ensures
            r == spec_ready(self@, now),
    {
        proof {
            use_type_invariant(self);
        }
        match self.first_event {
            None => false,
            Some(first) => {
                let last = match self.last_event {
                    Some(last) => last,
                    None => first,
                };
                now.saturating_sub(last) >= self.debounce || now.saturating_sub(first)
                    >= self.batch_window
            },
        }
    }

    /// Takes the batch: its paths in path order, each once; the batcher starts over empty.
    pub fn take(&mut self, now: u64) -> (r: Vec<String>)
        ensures
            string_views(r@).to_multiset() == old(self)@.paths.to_multiset(),
            sorted_paths(string_views(r@)),
            final(self)@ == spec_take(old(self)@),
    {
        proof {
            use_type_invariant(&*self);
        }
        self.first_event = None;
        self.last_event = None;
        let mut paths: Vec<String> = Vec::new();
        std::mem::swap(&mut paths, &mut self.paths);
        proof {
            assert(string_views(self.paths@) =~= Seq::<Seq<char>>::empty());
        }
        sort_paths(&paths)
    }

    /// The debounce window, in nanoseconds.
    pub fn debounce(&self) -> (r: u64)
        ensures
            r == self@.debounce,
    {
        self.debounce
    }

    /// The batch window, in nanoseconds.
    pub fn batch_window(&self) -> (r: u64)
        ensures
            r == self@.batch_window,
    {
        self.batch_window
    }
}

/// Recording a path twice at one time leaves the batch as recording it once did.
pub proof fn recording_again_changes_nothing(v: BatcherView, path: Seq<char>, now: u64)
    ensures
        spec_record(spec_record(v, path, now), path, now) == spec_record(v, path, now),
{
    let once = spec_record(v, path, now);
    if !holds_path(v.paths, path) {
        let i = v.paths.len() as int;
        assert(once.paths[i] == path);
        assert(same_path(once.paths[i], path));
    }
    assert(holds_path(once.paths, path));
}

/// A batch is due once the debounce has passed since its last change.
pub proof fn ready_after_the_debounce(v: BatcherView, path: Seq<char>, at: u64, now: u64)
    requires
        now >= at + v.debounce,
    ensures
        spec_ready(spec_record(v, path, at), now),
{
}

/// A batch that began with a change at `at` is not due before both the debounce and the
/// batch window have passed.
pub proof fn not_ready_before_the_debounce(v: BatcherView, path: Seq<char>, at: u64, now: u64)
    requires
        v.first_event is None,
        at <= now,
        now < at + v.debounce,
        now < at + v.batch_window,
    ensures
        !spec_ready(spec_record(v, path, at), now),
{
}

/// A batch is due once its window has passed since its first change, however often changes
/// kept coming.
pub proof fn ready_after_the_batch_window(v: BatcherView, path: Seq<char>, at: u64, now: u64)
    requires
        v.first_event matches Some(first) && now >= first + v.batch_window,
    ensures
        spec_ready(spec_record(v, path, at), now),
{
}

/// Nothing is due right after a batch was taken.
pub proof fn nothing_ready_after_take(v: BatcherView, now: u64)
    ensures
        !spec_ready(spec_take(v), now),
        spec_take(v).paths.len() == 0,
{
}

} // verus!

verus! {

// ----- refreshing an index -----

/// What one refresh did.
#[derive(Debug, Clone, Copy, PartialEq, Eq, Structural)]
pub struct RefreshReport {
    pub updated_files: usize,
    pub stale_files: usize,
    pub removed_files: usize,
    pub rebuilt: bool,
}

impl Default for RefreshReport {
    fn default() -> (r: Self)
        ensures
            r == (RefreshReport { updated_files: 0, stale_files: 0, removed_files: 0, rebuilt: false }),
    {
        RefreshReport { updated_files: 0, stale_files: 0, removed_files: 0, rebuilt: false }
    }
}

/// How many of `outcomes` are `want`.
pub open spec fn count_outcomes(outcomes: Seq<bool>, want: bool) -> nat
    decreases outcomes.len(),
{
    if outcomes.len() == 0 {
        0
    } else {
        count_outcomes(outcomes.drop_last(), want) + if outcomes.last() == want {
            1nat
        } else {
            0nat
        }
    }
}

proof fn lemma_count_outcomes_bound(outcomes: Seq<bool>, want: bool)
    ensures
        count_outcomes(outcomes, want) <= outcomes.len(),
    decreases outcomes.len(),
{
    if outcomes.len() > 0 {
        lemma_count_outcomes_bound(outcomes.drop_last(), want);
    }
}

impl RefreshReport {
    /// The report of a refresh that rebuilt the whole index.
    pub fn rebuilt() -> (r: Self)
        ensures
            r == (RefreshReport { updated_files: 0, stale_files: 0, removed_files: 0, rebuilt: true }),
    {
        RefreshReport { updated_files: 0, stale_files: 0, removed_files: 0, rebuilt: true }
    }

    /// The report of a refresh that updated files one by one: `outcomes` holds, for each file
    /// it re-analyzed, whether the file became fresh (`true`) or stayed stale with a
    /// diagnostic (`false`); `removed` files were deleted from the index.
    pub fn applied(outcomes: &Vec<bool>, removed: usize) -> (r: Self)
        ensures
            r.updated_files == count_outcomes(outcomes@, true),
            r.stale_files == count_outcomes(outcomes@, false),
            r.removed_files == removed,
            !r.rebuilt,
    {
        let mut updated: usize = 0;
        let mut stale: usize = 0;
        let mut i: usize = 0;
        while i < outcomes.len()
            invariant
                i <= outcomes@.len(),
                updated == count_outcomes(outcomes@.take(i as int), true),
                stale == count_outcomes(outcomes@.take(i as int), false),
            decreases outcomes@.len() - i,
        {
            proof {
                assert(outcomes@.take(i as int + 1).drop_last() =~= outcomes@.take(i as int));
                lemma_count_outcomes_bound(outcomes@.take(i as int), true);
                lemma_count_outcomes_bound(outcomes@.take(i as int), false);
            }
            if outcomes[i] {
                updated = updated + 1;
            } else {
                stale = stale + 1;
            }
            i = i + 1;
        }
        assert(outcomes@.take(outcomes@.len() as int) =~= outcomes@);
        RefreshReport { updated_files: updated, stale_files: stale, removed_files: removed, rebuilt: false }
    }
}

/// A source file as the scanner finds it now: its path, the hash of its contents, and the
/// state the index last recorded for it, if any.
#[derive(Debug, Clone, PartialEq, Eq)]
pub struct ObservedFile {
    pub relative_path: String,
    pub content_hash: String,
    pub state: Option<crate::index::FileStateStatus>,
}

/// A file the index holds, with the hash of the contents it was indexed from.
#[derive(Debug, Clone, PartialEq, Eq)]
pub struct IndexedFile {
    pub relative_path: String,
    pub content_hash: String,
}

/// What a refresh is to do.
#[derive(Debug, Clone, PartialEq, Eq)]
pub enum RefreshPlan {
    /// Build the whole index again.
    Rebuild,
    /// Re-analyze the files under `update` and delete those under `remove` from the index.
    Apply { update: Vec<String>, remove: Vec<String> },
}

/// The whole index is built again when it is missing, has another schema, or was built
/// under another repository name.
pub open spec fn needs_rebuild(
    status: crate::index::IndexStatus,
    stored_name: Option<Seq<char>>,
    name: Seq<char>,
) -> bool {
    ||| !status.indexed
    ||| status.schema_version != crate::index::SCHEMA_VERSION
    ||| stored_name != Some(name)
}

pub open spec fn option_view(o: Option<String>) -> Option<Seq<char>> {
    match o {
        Some(s) => Some(s@),
        None => None,
    }
}

/// The hash the index holds for `path` (the last entry for it wins, as when the entries are
/// collected into a map).
pub open spec fn indexed_hash(indexed: Seq<IndexedFile>, path: Seq<char>) -> Option<Seq<char>>
    decreases indexed.len(),
{
    if indexed.len() == 0 {
        None
    } else if indexed.last().relative_path@ == path {
        Some(indexed.last().content_hash@)
    } else {
        indexed_hash(indexed.drop_last(), path)
    }
}

/// A file is re-analyzed when its contents differ from what was indexed, or its state is
/// anything but fresh.
pub open spec fn needs_update(f: ObservedFile, indexed: Seq<IndexedFile>) -> bool {
    indexed_hash(indexed, f.relative_path@) != Some(f.content_hash@) || f.state
        != Some(crate::index::FileStateStatus::Fresh)
}

/// The paths of the files to re-analyze, in the order they were observed.
pub open spec fn spec_updates(current: Seq<ObservedFile>, indexed: Seq<IndexedFile>) -> Seq<Seq<char>>
    decreases current.len(),
{
    if current.len() == 0 {
        Seq::empty()
    } else {
        let prev = spec_updates(current.drop_last(), indexed);
        if needs_update(current.last(), indexed) {
            prev.push(current.last().relative_path@)
        } else {
            prev
        }
    }
}

/// Whether some observed file has the path `p`.
pub open spec fn observed(current: Seq<ObservedFile>, p: Seq<char>) -> bool {
    exists|j: int| 0 <= j < current.len() && (#[trigger] current[j]).relative_path@ == p
}

/// The indexed paths that no observed file has any more, in index order.
pub open spec fn spec_removals(indexed: Seq<IndexedFile>, current: Seq<ObservedFile>) -> Seq<Seq<char>>
    decreases indexed.len(),
{
    if indexed.len() == 0 {
        Seq::empty()
    } else {
        let prev = spec_removals(indexed.drop_last(), current);
        if observed(current, indexed.last().relative_path@) {
            prev
        } else {
            prev.push(indexed.last().relative_path@)
        }
    }
}

fn indexed_hash_exec(indexed: &Vec<IndexedFile>, path: &String) -> (r: Option<String>)
    ensures
        option_view(r) == indexed_hash(indexed@, path@),
{
    let mut i: usize = indexed.len();
    assert(indexed@.take(i as int) =~= indexed@);
    while i > 0
        invariant
            i <= indexed@.len(),
            indexed_hash(indexed@, path@) == indexed_hash(indexed@.take(i as int), path@),
        decreases i,
    {
        proof {
            assert(indexed@.take(i as int).drop_last() =~= indexed@.take(i - 1));
        }
        if indexed[i - 1].relative_path == *path {
            return Some(indexed[i - 1].content_hash.clone());
        }
        i = i - 1;
    }
    None
}

fn is_observed(current: &Vec<ObservedFile>, path: &String) -> (r: bool)
    ensures
        r == observed(current@, path@),
{
    let mut i: usize = 0;
    while i < current.len()
        invariant
            i <= current@.len(),
            forall|j: int| 0 <= j < i ==> (#[trigger] current@[j]).relative_path@ != path@,
        decreases current@.len() - i,
    {
        if current[i].relative_path == *path {
            assert(current@[i as int].relative_path@ == path@);
            return true;
        }
        i = i + 1;
    }
    false
}

/// An indexer that keeps one repository's index current.
#[derive(Debug, Clone)]
pub struct IncrementalIndexer {
    repository_name: String,
    root: String,
    database_path: String,
    debounce: u64,
    batch_window: u64,
}

impl IncrementalIndexer {
    pub closed spec fn spec_repository_name(&self) -> Seq<char> {
        self.repository_name@
    }

    pub closed spec fn spec_root(&self) -> Seq<char> {
        self.root@
    }

    pub closed spec fn spec_database_path(&self) -> Seq<char> {
        self.database_path@
    }

    pub closed spec fn spec_debounce(&self) -> u64 {
        self.debounce
    }

    pub closed spec fn spec_batch_window(&self) -> u64 {
        self.batch_window
    }

    /// An indexer of the repository `repository_name` at `root`, whose index is the database
    /// at `database_path`, with the default windows.
    pub fn new(repository_name: &str, root: &str, database_path: &str) -> (r: Self)
        ensures
            r.spec_repository_name() == repository_name@,
            r.spec_root() == root@,
            r.spec_database_path() == database_path@,
            r.spec_debounce() == DEFAULT_DEBOUNCE,
            r.spec_batch_window() == DEFAULT_BATCH_WINDOW,
    {
        IncrementalIndexer {
            repository_name: repository_name.to_owned(),
            root: root.to_owned(),
            database_path: database_path.to_owned(),
            debounce: DEFAULT_DEBOUNCE,
            batch_window: DEFAULT_BATCH_WINDOW,
        }
    }

    /// The same indexer with other windows, in nanoseconds.
    pub fn with_timing(self, debounce: u64, batch_window: u64) -> (r: Self)
        ensures
            r.spec_repository_name() == self.spec_repository_name(),
            r.spec_root() == self.spec_root(),
            r.spec_database_path() == self.spec_database_path(),
            r.spec_debounce() == debounce,
            r.spec_batch_window() == batch_window,
    {
        IncrementalIndexer { debounce, batch_window, ..self }
    }

    pub fn repository_name(&self) -> (r: &str)
        ensures
            r@ == self.spec_repository_name(),
    {
        self.repository_name.as_str()
    }

    pub fn root(&self) -> (r: &str)
        ensures
            r@ == self.spec_root(),
    {
        self.root.as_str()
    }

    pub fn database_path(&self) -> (r: &str)
        ensures
            r@ == self.spec_database_path(),
    {
        self.database_path.as_str()
    }

    pub fn debounce(&self) -> (r: u64)
        ensures
            r == self.spec_debounce(),
    {
        self.debounce
    }

    pub fn batch_window(&self) -> (r: u64)
        ensures
            r == self.spec_batch_window(),
    {
        self.batch_window
    }

    /// Decides what a refresh does, from the index's status, the repository name it was
    /// built under, the files found now and the files it holds: rebuild it all, or
    /// re-analyze the files that changed or are not fresh and delete those that are gone.
    /// What a refresh that indexed every file without diagnostics leaves behind (each file
    /// fresh, the index holding each file's hash) gives the next refresh nothing to do.
    pub fn refresh(
        &self,
        status: &crate::index::IndexStatus,
        stored_name: &Option<String>,
        current: &Vec<ObservedFile>,
        indexed: &Vec<IndexedFile>,
    ) -> (r: RefreshPlan)
        ensures
            (r is Rebuild) == needs_rebuild(*status, option_view(*stored_name), self.spec_repository_name()),
            r matches RefreshPlan::Apply { update, remove } ==> {
                &&& string_views(update@) == spec_updates(current@, indexed@)
                &&& string_views(remove@) == spec_removals(indexed@, current@)
            },
            !needs_rebuild(*status, option_view(*stored_name), self.spec_repository_name())
                && distinct_observed(current@) && current@ == observed_fresh(current@) && indexed@
                == indexed_after(current@) ==> (r matches RefreshPlan::Apply { update, remove } && update@.len()
                == 0 && remove@.len() == 0),
    {
        let rebuild = match stored_name {
            Some(name) => !status.indexed || status.schema_version != crate::index::SCHEMA_VERSION
                || *name != self.repository_name,
            None => true,
        };
        if rebuild {
            return RefreshPlan::Rebuild;
        }
        let mut update: Vec<String> = Vec::new();
        let mut i: usize = 0;
        while i < current.len()
            invariant
                i <= current@.len(),
                string_views(update@) == spec_updates(current@.take(i as int), indexed@),
            decreases current@.len() - i,
        {
            let f = &current[i];
            let known = indexed_hash_exec(indexed, &f.relative_path);
            let same_hash = match known {
                Some(h) => h == f.content_hash,
                None => false,
            };
            let fresh = match f.state {
                Some(crate::index::FileStateStatus::Fresh) => true,
                _ => false,
            };
            proof {
                assert(current@.take(i as int + 1).drop_last() =~= current@.take(i as int));
                assert(current@.take(i as int + 1).last() == current@[i as int]);
            }
            if !same_hash || !fresh {
                let ghost before = string_views(update@);
                update.push(f.relative_path.clone());
                proof {
                    assert(string_views(update@) =~= before.push(f.relative_path@));
                }
            }
            i = i + 1;
        }
        assert(current@.take(current@.len() as int) =~= current@);
        let mut remove: Vec<String> = Vec::new();
        let mut j: usize = 0;
        while j < indexed.len()
            invariant
                j <= indexed@.len(),
                string_views(remove@) == spec_removals(indexed@.take(j as int), current@),
            decreases indexed@.len() - j,
        {
            let p = &indexed[j].relative_path;
            proof {
                assert(indexed@.take(j as int + 1).drop_last() =~= indexed@.take(j as int));
                assert(indexed@.take(j as int + 1).last() == indexed@[j as int]);
            }
            if !is_observed(current, p) {
                let ghost before = string_views(remove@);
                remove.push(p.clone());
                proof {
                    assert(string_views(remove@) =~= before.push(p@));
                }
            }
            j = j + 1;
        }
        assert(indexed@.take(indexed@.len() as int) =~= indexed@);
        proof {
            if distinct_observed(current@) && current@ == observed_fresh(current@) && indexed@ == indexed_after(
                current@,
            ) {
                lemma_fresh_index_needs_no_work(current@);
            }
        }
        RefreshPlan::Apply { update, remove }
    }
}

} // verus!

verus! {

/// The messages of the diagnostics, joined by `"; "`.
pub open spec fn spec_diagnostics_message(diagnostics: Seq<crate::analyzer::Diagnostic>) -> Seq<char> {
    crate::text::join(diagnostics.map_values(|d: crate::analyzer::Diagnostic| d.message@), "; "@)
}

/// The messages of an analysis's diagnostics, joined by `"; "`.
pub fn diagnostics_message(analysis: &crate::analyzer::AnalysisResult) -> (r: String)
    ensures
        r@ == spec_diagnostics_message(analysis.diagnostics@),
{
    let mut messages: Vec<String> = Vec::new();
    let mut i: usize = 0;
    while i < analysis.diagnostics.len()
        invariant
            i <= analysis.diagnostics@.len(),
            string_views(messages@) == analysis.diagnostics@.take(i as int).map_values(
                |d: crate::analyzer::Diagnostic| d.message@,
            ),
        decreases analysis.diagnostics@.len() - i,
    {
        let ghost before = string_views(messages@);
        let m = analysis.diagnostics[i].message.clone();
        assert(m@ == analysis.diagnostics@[i as int].message@);
        messages.push(m);
        i = i + 1;
        proof {
            assert(string_views(messages@) =~= before.push(m@));
            assert(string_views(messages@) =~= analysis.diagnostics@.take(i as int).map_values(
                |d: crate::analyzer::Diagnostic| d.message@,
            ));
        }
    }
    assert(analysis.diagnostics@.take(analysis.diagnostics@.len() as int) =~= analysis.diagnostics@);
    let sep = crate::text::chars_of("; ");
    proof {
        reveal_strlit("; ");
    }
    crate::text::join_strings(&messages, sep.as_slice())
}

/// What re-analyzing a file writes to its state.
#[derive(Debug, Clone, PartialEq, Eq)]
pub struct StateChange {
    pub status: crate::index::FileStateStatus,
    /// Whether the file's indexed records are replaced by those of the new analysis.
    pub replace_records: bool,
    pub error: Option<String>,
}

/// A file whose new analysis is clean becomes fresh and its records are replaced; a file
/// with diagnostics becomes stale, keeps its last good records out of search, and records
/// the diagnostics' messages as its error.
pub fn file_update(analysis: &crate::analyzer::AnalysisResult) -> (r: StateChange)
    ensures
        analysis.diagnostics@.len() == 0 ==> {
            &&& r.status == crate::index::FileStateStatus::Fresh
            &&& r.replace_records
            &&& r.error is None
        },
        analysis.diagnostics@.len() > 0 ==> {
            &&& r.status == crate::index::FileStateStatus::Stale
            &&& !r.replace_records
            &&& option_view(r.error) == Some(spec_diagnostics_message(analysis.diagnostics@))
        },
{
    if analysis.diagnostics.len() == 0 {
        StateChange { status: crate::index::FileStateStatus::Fresh, replace_records: true, error: None }
    } else {
        StateChange {
            status: crate::index::FileStateStatus::Stale,
            replace_records: false,
            error: Some(diagnostics_message(analysis)),
        }
    }
}

/// A path with each `\` turned into `/`.
pub open spec fn spec_relative_path(path: Seq<char>) -> Seq<char> {
    path.map_values(|c: char| if c == '\\' { '/' } else { c })
}

/// The form a relative path is stored under: with `/` as its only separator.
pub fn relative_path(path: &str) -> (r: String)
    ensures
        r@ == spec_relative_path(path@),
{
    let cs = crate::text::chars_of(path);
    let mut out: Vec<char> = Vec::new();
    let mut i: usize = 0;
    while i < cs.len()
        invariant
            i <= cs@.len(),
            cs@ == path@,
            out@ == spec_relative_path(path@.take(i as int)),
        decreases cs@.len() - i,
    {
        let c = cs[i];
        if c == '\\' {
            out.push('/');
        } else {
            out.push(c);
        }
        i = i + 1;
        assert(out@ =~= spec_relative_path(path@.take(i as int)));
    }
    assert(path@.take(path@.len() as int) =~= path@);
    crate::text::string_of(out.as_slice())
}

} // verus!

verus! {

proof fn lemma_updates_contain(current: Seq<ObservedFile>, indexed: Seq<IndexedFile>, i: int)
    requires
        0 <= i < current.len(),
        needs_update(current[i], indexed),
    ensures
        spec_updates(current, indexed).contains(current[i].relative_path@),
    decreases current.len(),
{
    let prev = current.drop_last();
    if i < current.len() - 1 {
        assert(prev[i] == current[i]);
        lemma_updates_contain(prev, indexed, i);
        let p = spec_updates(prev, indexed);
        let k = choose|k: int| 0 <= k < p.len() && p[k] == current[i].relative_path@;
        if needs_update(current.last(), indexed) {
            assert(spec_updates(current, indexed) == p.push(current.last().relative_path@));
            assert(p.push(current.last().relative_path@)[k] == p[k]);
        }
    } else {
        assert(current.last() == current[i]);
        let p = spec_updates(prev, indexed);
        assert(spec_updates(current, indexed) == p.push(current[i].relative_path@));
        assert(p.push(current[i].relative_path@)[p.len() as int] == current[i].relative_path@);
    }
}

proof fn lemma_no_updates(current: Seq<ObservedFile>, indexed: Seq<IndexedFile>)
    requires
        forall|i: int| 0 <= i < current.len() ==> !needs_update(#[trigger] current[i], indexed),
    ensures
        spec_updates(current, indexed).len() == 0,
    decreases current.len(),
{
    if current.len() > 0 {
        let prev = current.drop_last();
        assert forall|i: int| 0 <= i < prev.len() implies !needs_update(#[trigger] prev[i], indexed) by {
            assert(prev[i] == current[i]);
        }
        lemma_no_updates(prev, indexed);
        assert(current.last() == current[current.len() - 1]);
    }
}

proof fn lemma_removals_contain(indexed: Seq<IndexedFile>, current: Seq<ObservedFile>, j: int)
    requires
        0 <= j < indexed.len(),
        !observed(current, indexed[j].relative_path@),
    ensures
        spec_removals(indexed, current).contains(indexed[j].relative_path@),
    decreases indexed.len(),
{
    let prev = indexed.drop_last();
    if j < indexed.len() - 1 {
        assert(prev[j] == indexed[j]);
        lemma_removals_contain(prev, current, j);
        let p = spec_removals(prev, current);
        let k = choose|k: int| 0 <= k < p.len() && p[k] == indexed[j].relative_path@;
        if !observed(current, indexed.last().relative_path@) {
            assert(spec_removals(indexed, current) == p.push(indexed.last().relative_path@));
            assert(p.push(indexed.last().relative_path@)[k] == p[k]);
        }
    } else {
        assert(indexed.last() == indexed[j]);
        let p = spec_removals(prev, current);
        assert(spec_removals(indexed, current) == p.push(indexed[j].relative_path@));
        assert(p.push(indexed[j].relative_path@)[p.len() as int] == indexed[j].relative_path@);
    }
}

proof fn lemma_no_removals(indexed: Seq<IndexedFile>, current: Seq<ObservedFile>)
    requires
        forall|j: int| 0 <= j < indexed.len() ==> observed(current, (#[trigger] indexed[j]).relative_path@),
    ensures
        spec_removals(indexed, current).len() == 0,
    decreases indexed.len(),
{
    if indexed.len() > 0 {
        let prev = indexed.drop_last();
        assert forall|j: int| 0 <= j < prev.len() implies observed(current, (#[trigger] prev[j]).relative_path@) by {
            assert(prev[j] == indexed[j]);
        }
        lemma_no_removals(prev, current);
        assert(indexed.last() == indexed[indexed.len() - 1]);
    }
}

/// A refresh re-analyzes every file whose contents differ from what was indexed or that is
/// not fresh, and deletes every indexed file that is gone.
pub proof fn refresh_misses_no_change(current: Seq<ObservedFile>, indexed: Seq<IndexedFile>)
    ensures
        forall|i: int|
            0 <= i < current.len() && needs_update(current[i], indexed) ==> spec_updates(current, indexed).contains(
                #[trigger] current[i].relative_path@,
            ),
        forall|j: int|
            0 <= j < indexed.len() && !observed(current, indexed[j].relative_path@) ==> spec_removals(
                indexed,
                current,
            ).contains(#[trigger] indexed[j].relative_path@),
{
    assert forall|i: int| 0 <= i < current.len() && needs_update(current[i], indexed) implies spec_updates(
        current,
        indexed,
    ).contains(#[trigger] current[i].relative_path@) by {
        lemma_updates_contain(current, indexed, i);
    }
    assert forall|j: int| 0 <= j < indexed.len() && !observed(current, indexed[j].relative_path@) implies spec_removals(
        indexed,
        current,
    ).contains(#[trigger] indexed[j].relative_path@) by {
        lemma_removals_contain(indexed, current, j);
    }
}

/// When every file is fresh and unchanged and every indexed file is still there, a refresh
/// has nothing to do.
pub proof fn unchanged_tree_needs_no_work(current: Seq<ObservedFile>, indexed: Seq<IndexedFile>)
    requires
        forall|i: int| 0 <= i < current.len() ==> !needs_update(#[trigger] current[i], indexed),
        forall|j: int| 0 <= j < indexed.len() ==> observed(current, (#[trigger] indexed[j]).relative_path@),
    ensures
        spec_updates(current, indexed).len() == 0,
        spec_removals(indexed, current).len() == 0,
{
    lemma_no_updates(current, indexed);
    lemma_no_removals(indexed, current);
}

/// What the index holds after a refresh in which every observed file was indexed without
/// diagnostics: each file with the hash it was indexed from.
pub open spec fn indexed_after(current: Seq<ObservedFile>) -> Seq<IndexedFile> {
    current.map_values(|f: ObservedFile| IndexedFile { relative_path: f.relative_path, content_hash: f.content_hash })
}

/// The same files observed again, now recorded as fresh.
pub open spec fn observed_fresh(current: Seq<ObservedFile>) -> Seq<ObservedFile> {
    current.map_values(
        |f: ObservedFile|
            ObservedFile {
                relative_path: f.relative_path,
                content_hash: f.content_hash,
                state: Some(crate::index::FileStateStatus::Fresh),
            },
    )
}

/// No two observed files share a path.
pub open spec fn distinct_observed(current: Seq<ObservedFile>) -> bool {
    forall|i: int, j: int|
        0 <= i < j < current.len() ==> (#[trigger] current[i]).relative_path@ != (#[trigger] current[j]).relative_path@
}

proof fn lemma_indexed_after_hash(current: Seq<ObservedFile>, i: int)
    requires
        distinct_observed(current),
        0 <= i < current.len(),
    ensures
        indexed_hash(indexed_after(current), current[i].relative_path@) == Some(current[i].content_hash@),
    decreases current.len(),
{
    let idx = indexed_after(current);
    assert(idx.last() == idx[current.len() - 1]);
    if i < current.len() - 1 {
        let prev = current.drop_last();
        assert(idx.drop_last() =~= indexed_after(prev));
        assert(prev[i] == current[i]);
        assert(current[i].relative_path@ != current[current.len() - 1].relative_path@);
        assert forall|a: int, b: int| 0 <= a < b < prev.len() implies (#[trigger] prev[a]).relative_path@
            != (#[trigger] prev[b]).relative_path@ by {
            assert(prev[a] == current[a]);
            assert(prev[b] == current[b]);
        }
        lemma_indexed_after_hash(prev, i);
    }
}

/// Two refreshes in a row: once a refresh has indexed every observed file without
/// diagnostics (so the index holds each file's hash, and its state is fresh), a second
/// refresh of the unchanged tree neither rebuilds, re-analyzes nor deletes anything.
pub proof fn second_refresh_does_nothing(
    current: Seq<ObservedFile>,
    status: crate::index::IndexStatus,
    name: Seq<char>,
)
    requires
        distinct_observed(current),
        status.indexed,
        status.schema_version == crate::index::SCHEMA_VERSION,
    ensures
        !needs_rebuild(status, Some(name), name),
        spec_updates(observed_fresh(current), indexed_after(current)).len() == 0,
        spec_removals(indexed_after(current), observed_fresh(current)).len() == 0,
{
    lemma_fresh_index_needs_no_work(current);
}

proof fn lemma_fresh_index_needs_no_work(current: Seq<ObservedFile>)
    requires
        distinct_observed(current),
    ensures
        spec_updates(observed_fresh(current), indexed_after(current)).len() == 0,
        spec_removals(indexed_after(current), observed_fresh(current)).len() == 0,
{
    let again = observed_fresh(current);
    let idx = indexed_after(current);
    assert forall|i: int| 0 <= i < again.len() implies !needs_update(#[trigger] again[i], idx) by {
        lemma_indexed_after_hash(current, i);
    }
    assert forall|j: int| 0 <= j < idx.len() implies observed(again, (#[trigger] idx[j]).relative_path@) by {
        assert(again[j].relative_path@ == idx[j].relative_path@);
    }
    unchanged_tree_needs_no_work(again, idx);
}

} // verus!
