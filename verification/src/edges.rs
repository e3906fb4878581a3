use vstd::prelude::*;

use crate::text::{
    chars_eq, chars_of, contains, contains_exec, ends_with, ends_with_exec, lower, lower_all,
    split_acc, split_on, split_on_exec, string_of,
};

verus! {

// ----- file naming conventions of tests and their implementations -----

pub open spec fn tests_dir() -> Seq<char> {
    seq!['t', 'e', 's', 't', 's']
}

pub open spec fn jest_tests_dir() -> Seq<char> {
    seq!['_', '_', 't', 'e', 's', 't', 's', '_', '_']
}

pub open spec fn dot_test_dot() -> Seq<char> {
    seq!['.', 't', 'e', 's', 't', '.']
}

pub open spec fn dot_spec_dot() -> Seq<char> {
    seq!['.', 's', 'p', 'e', 'c', '.']
}

pub open spec fn underscore_test_dot() -> Seq<char> {
    seq!['_', 't', 'e', 's', 't', '.']
}

/// A path names a test when, ignoring ASCII case, one of its `/`-separated parts is
/// `tests` or `__tests__`, or it contains `.test.`, `.spec.` or `_test.`.
pub open spec fn spec_is_test_path(path: Seq<char>) -> bool {
    let l = lower(path);
    ||| split_on(l, '/').contains(tests_dir())
    ||| split_on(l, '/').contains(jest_tests_dir())
    ||| contains(l, dot_test_dot())
    ||| contains(l, dot_spec_dot())
    ||| contains(l, underscore_test_dot())
}

/// The last `/`-separated part of a path.
pub open spec fn last_part(path: Seq<char>) -> Seq<char> {
    split_on(path, '/').last()
}

/// The base name of an implementation file: its file name up to the first `.`.
pub open spec fn spec_path_base_name(path: Seq<char>) -> Seq<char> {
    split_on(last_part(path), '.')[0]
}

/// The file name without its last extension.
pub open spec fn file_stem(name: Seq<char>) -> Seq<char> {
    let parts = split_on(name, '.');
    if parts.len() == 1 {
        name
    } else {
        name.take(name.len() - parts.last().len() - 1)
    }
}

pub open spec fn suffix_test() -> Seq<char> {
    seq!['.', 't', 'e', 's', 't']
}

pub open spec fn suffix_spec() -> Seq<char> {
    seq!['.', 's', 'p', 'e', 'c']
}

pub open spec fn suffix_underscore_test() -> Seq<char> {
    seq!['_', 't', 'e', 's', 't']
}

/// The base name a test file refers to: its stem without a `.test`, `.spec` or `_test` suffix.
pub open spec fn spec_test_base_name(path: Seq<char>) -> Seq<char> {
    let stem = file_stem(last_part(path));
    if ends_with(stem, suffix_test()) {
        stem.take(stem.len() - 5)
    } else if ends_with(stem, suffix_spec()) {
        stem.take(stem.len() - 5)
    } else if ends_with(stem, suffix_underscore_test()) {
        stem.take(stem.len() - 5)
    } else {
        stem
    }
}

fn seq_has(parts: &Vec<Vec<char>>, x: &[char]) -> (r: bool)
    ensures
        r == (exists|k: int| 0 <= k < parts@.len() && parts@[k]@ == x@),
{
    let mut k: usize = 0;
    while k < parts.len()
        invariant
            k <= parts@.len(),
            forall|j: int| 0 <= j < k ==> parts@[j]@ != x@,
        decreases parts@.len() - k,
    {
        if chars_eq(parts[k].as_slice(), x) {
            return true;
        }
        k = k + 1;
    }
    false
}

/// Whether a repository-relative path names a test file.
pub fn is_test_path(path: &str) -> (r: bool)
    ensures
        r == spec_is_test_path(path@),
{
    let chars = chars_of(path);
    let l = lower_all(chars.as_slice());
    let parts = split_on_exec(l.as_slice(), '/');
    let tests = vec!['t', 'e', 's', 't', 's'];
    let jest = vec!['_', '_', 't', 'e', 's', 't', 's', '_', '_'];
    let a = seq_has(&parts, tests.as_slice());
    let b = seq_has(&parts, jest.as_slice());
    let c = contains_exec(l.as_slice(), vec!['.', 't', 'e', 's', 't', '.'].as_slice());
    let d = contains_exec(l.as_slice(), vec!['.', 's', 'p', 'e', 'c', '.'].as_slice());
    let e = contains_exec(l.as_slice(), vec!['_', 't', 'e', 's', 't', '.'].as_slice());
    proof {
        let sp = split_on(lower(path@), '/');
        assert(a == sp.contains(tests_dir())) by {
            if a {
                let k = choose|k: int| 0 <= k < parts@.len() && parts@[k]@ == tests@;
                assert(sp[k] == tests_dir());
            }
            if sp.contains(tests_dir()) {
                let k = choose|k: int| 0 <= k < sp.len() && sp[k] == tests_dir();
                assert(parts@[k]@ == tests@);
            }
        }
        assert(b == sp.contains(jest_tests_dir())) by {
            if b {
                let k = choose|k: int| 0 <= k < parts@.len() && parts@[k]@ == jest@;
                assert(sp[k] == jest_tests_dir());
            }
            if sp.contains(jest_tests_dir()) {
                let k = choose|k: int| 0 <= k < sp.len() && sp[k] == jest_tests_dir();
                assert(parts@[k]@ == jest@);
            }
        }
    }
    a || b || c || d || e
}

} // verus!

verus! {

fn last_part_exec(path: &[char]) -> (r: Vec<char>)
    ensures
        r@ == last_part(path@),
{
    let mut parts = split_on_exec(path, '/');
    let n = parts.len();
    let last = parts.remove(n - 1);
    last
}

/// The base name of an implementation file: its file name up to the first `.`.
pub fn path_base_name(path: &str) -> (r: String)
    ensures
        r@ == spec_path_base_name(path@),
{
    let chars = chars_of(path);
    let name = last_part_exec(chars.as_slice());
    let mut parts = split_on_exec(name.as_slice(), '.');
    let first = parts.remove(0);
    string_of(first.as_slice())
}

fn file_stem_exec(name: &[char]) -> (r: Vec<char>)
    ensures
        r@ == file_stem(name@),
{
    let parts = split_on_exec(name, '.');
    if parts.len() == 1 {
        let r = take_chars(name, name.len());
        assert(name@.take(name@.len() as int) == name@);
        r
    } else {
        let last_len = parts[parts.len() - 1].len();
        proof {
            lemma_split_parts_fit(name@, '.');
        }
        let keep = name.len() - last_len - 1;
        let mut r: Vec<char> = Vec::new();
        let mut i: usize = 0;
        while i < keep
            invariant
                keep <= name@.len(),
                i <= keep,
                r@ == name@.take(i as int),
            decreases keep - i,
        {
            r.push(name[i]);
            i = i + 1;
            assert(r@ == name@.take(i as int));
        }
        r
    }
}

/// The pieces of a split, with the separators between them, make up the whole sequence;
/// in particular, when there are at least two pieces the last one is shorter than the whole.
proof fn lemma_split_parts_fit(s: Seq<char>, sep: char)
    ensures
        split_on(s, sep).len() >= 2 ==> split_on(s, sep).last().len() + 1 <= s.len(),
{
    lemma_split_acc_len(s, sep, s.len() as int);
}

proof fn lemma_split_acc_len(s: Seq<char>, sep: char, n: int)
    requires
        0 <= n <= s.len(),
    ensures
        split_acc(s, sep, n).0.len() >= 1 ==> split_acc(s, sep, n).1.len() + 1 <= n,
        split_acc(s, sep, n).1.len() <= n,
    decreases n,
{
    if n > 0 {
        lemma_split_acc_len(s, sep, n - 1);
    }
}

fn take_chars(s: &[char], n: usize) -> (r: Vec<char>)
    requires
        n <= s@.len(),
    ensures
        r@ == s@.take(n as int),
{
    let mut r: Vec<char> = Vec::new();
    let mut i: usize = 0;
    while i < n
        invariant
            n <= s@.len(),
            i <= n,
            r@ == s@.take(i as int),
        decreases n - i,
    {
        r.push(s[i]);
        i = i + 1;
        assert(r@ == s@.take(i as int));
    }
    r
}

/// The base name a test file refers to: its stem without a `.test`, `.spec` or `_test` suffix.
pub fn test_base_name(path: &str) -> (r: String)
    ensures
        r@ == spec_test_base_name(path@),
{
    let chars = chars_of(path);
    let name = last_part_exec(chars.as_slice());
    let stem = file_stem_exec(name.as_slice());
    let t = vec!['.', 't', 'e', 's', 't'];
    let s = vec!['.', 's', 'p', 'e', 'c'];
    let u = vec!['_', 't', 'e', 's', 't'];
    proof {
        assert(t@ == suffix_test());
        assert(s@ == suffix_spec());
        assert(u@ == suffix_underscore_test());
    }
    let base = if ends_with_exec(stem.as_slice(), t.as_slice()) {
        take_chars(stem.as_slice(), stem.len() - 5)
    } else if ends_with_exec(stem.as_slice(), s.as_slice()) {
        take_chars(stem.as_slice(), stem.len() - 5)
    } else if ends_with_exec(stem.as_slice(), u.as_slice()) {
        take_chars(stem.as_slice(), stem.len() - 5)
    } else {
        stem
    };
    string_of(base.as_slice())
}

} // verus!

verus! {

// ----- the tables an edge rebuild reads -----

/// An indexed file: its row id and repository-relative path.
#[derive(Clone, Debug)]
pub struct EdgeFile {
    pub id: i64,
    pub path: String,
}

/// An indexed symbol: its stable id, owning file, name and byte span.
#[derive(Clone, Debug)]
pub struct EdgeSymbol {
    pub id: String,
    pub file_id: i64,
    pub name: String,
    pub start: i64,
    pub end: i64,
}

/// One import statement specifier.
#[derive(Clone, Debug)]
pub struct ImportRow {
    pub file_id: i64,
    pub source: String,
    pub imported_name: Option<String>,
    pub local_name: Option<String>,
    pub resolved_path: Option<String>,
}

/// One identifier reference.
#[derive(Clone, Debug)]
pub struct ReferenceRow {
    pub file_id: i64,
    pub name: String,
    pub target: Option<String>,
    pub start: i64,
    pub end: i64,
}

/// One call expression.
#[derive(Clone, Debug)]
pub struct CallRow {
    pub file_id: i64,
    pub callee: String,
    pub start: i64,
    pub end: i64,
}

/// One exported name.
#[derive(Clone, Debug)]
pub struct ExportRow {
    pub file_id: i64,
    pub exported_name: String,
    pub local_name: Option<String>,
}

/// All rows an edge rebuild reads, each table in row order.
#[derive(Clone, Debug)]
pub struct EdgeTables {
    pub files: Vec<EdgeFile>,
    pub symbols: Vec<EdgeSymbol>,
    pub imports: Vec<ImportRow>,
    pub references: Vec<ReferenceRow>,
    pub calls: Vec<CallRow>,
    pub exports: Vec<ExportRow>,
}

#[derive(Clone, Copy, Debug, PartialEq, Eq, Structural)]
pub enum EdgeType {
    Reference,
    Call,
    Import,
    Export,
    Test,
}

/// How an edge's target was found. Each method carries a fixed confidence:
/// semantic 1.0, ast 0.7, heuristic 0.4.
#[derive(Clone, Copy, Debug, PartialEq, Eq, Structural)]
pub enum Resolution {
    Semantic,
    Ast,
    Heuristic,
}

pub open spec fn spec_confidence_tenths(r: Resolution) -> u8 {
    match r {
        Resolution::Semantic => 10,
        Resolution::Ast => 7,
        Resolution::Heuristic => 4,
    }
}

pub open spec fn spec_method_name(r: Resolution) -> Seq<char> {
    match r {
        Resolution::Semantic => "semantic"@,
        Resolution::Ast => "ast"@,
        Resolution::Heuristic => "heuristic"@,
    }
}

pub open spec fn spec_edge_type_name(t: EdgeType) -> Seq<char> {
    match t {
        EdgeType::Reference => "reference"@,
        EdgeType::Call => "call"@,
        EdgeType::Import => "import"@,
        EdgeType::Export => "export"@,
        EdgeType::Test => "test"@,
    }
}

impl Resolution {
    /// The edge confidence, in tenths.
    pub fn confidence_tenths(&self) -> (r: u8)
        ensures
            r == spec_confidence_tenths(*self),
    {
        match self {
            Resolution::Semantic => 10,
            Resolution::Ast => 7,
            Resolution::Heuristic => 4,
        }
    }

    /// The name stored as the edge's resolution method.
    pub fn method_name(&self) -> (r: &'static str)
        ensures
            r@ == spec_method_name(*self),
    {
        match self {
            Resolution::Semantic => "semantic",
            Resolution::Ast => "ast",
            Resolution::Heuristic => "heuristic",
        }
    }
}

impl EdgeType {
    /// The name stored as the edge type.
    pub fn name(&self) -> (r: &'static str)
        ensures
            r@ == spec_edge_type_name(*self),
    {
        match self {
            EdgeType::Reference => "reference",
            EdgeType::Call => "call",
            EdgeType::Import => "import",
            EdgeType::Export => "export",
            EdgeType::Test => "test",
        }
    }
}

/// One relationship between a source file (and enclosing symbol) and a target.
#[derive(Clone, Debug)]
pub struct Edge {
    pub source_file_id: i64,
    pub source_symbol_id: Option<String>,
    pub target_file_id: Option<i64>,
    pub target_symbol_id: Option<String>,
    pub target_external_name: Option<String>,
    pub edge_type: EdgeType,
    pub resolution: Resolution,
}

pub struct SpecEdge {
    pub source_file_id: i64,
    pub source_symbol_id: Option<Seq<char>>,
    pub target_file_id: Option<i64>,
    pub target_symbol_id: Option<Seq<char>>,
    pub target_external_name: Option<Seq<char>>,
    pub edge_type: EdgeType,
    pub resolution: Resolution,
}

pub open spec fn opt_view(o: Option<String>) -> Option<Seq<char>> {
    match o {
        Some(s) => Some(s@),
        None => None,
    }
}

impl View for Edge {
    type V = SpecEdge;

    open spec fn view(&self) -> SpecEdge {
        SpecEdge {
            source_file_id: self.source_file_id,
            source_symbol_id: opt_view(self.source_symbol_id),
            target_file_id: self.target_file_id,
            target_symbol_id: opt_view(self.target_symbol_id),
            target_external_name: opt_view(self.target_external_name),
            edge_type: self.edge_type,
            resolution: self.resolution,
        }
    }
}

pub open spec fn edge_views(v: Seq<Edge>) -> Seq<SpecEdge> {
    v.map_values(|e: Edge| e@)
}

pub fn clone_opt(o: &Option<String>) -> (r: Option<String>)
    ensures
        opt_view(r) == opt_view(*o),
{
    match o {
        Some(s) => Some(s.clone()),
        None => None,
    }
}

pub fn opt_eq(a: &Option<String>, b: &Option<String>) -> (r: bool)
    ensures
        r == (opt_view(*a) == opt_view(*b)),
{
    match (a, b) {
        (Some(x), Some(y)) => x.eq(y),
        (None, None) => true,
        _ => false,
    }
}

// ----- lookups -----

pub open spec fn normalize_separators(s: Seq<char>) -> Seq<char> {
    s.map_values(|c: char| if c == '\\' { '/' } else { c })
}

/// The id of the last file whose path is `p`, among the first `n` files.
pub open spec fn file_with_path_upto(files: Seq<EdgeFile>, p: Seq<char>, n: int) -> Option<i64>
    decreases n,
{
    if n <= 0 {
        None
    } else if files[n - 1].path@ == p {
        Some(files[n - 1].id)
    } else {
        file_with_path_upto(files, p, n - 1)
    }
}

/// The file an import's resolved path names, after `\` separators become `/`.
pub open spec fn resolve_path(files: Seq<EdgeFile>, resolved: Option<String>) -> Option<i64> {
    match resolved {
        Some(p) => file_with_path_upto(files, normalize_separators(p@), files.len() as int),
        None => None,
    }
}

pub open spec fn symbol_matches(s: EdgeSymbol, file: i64, name: Seq<char>) -> bool {
    s.file_id == file && s.name@ == name
}

/// The index of the first symbol named `name` in file `file`, among the first `n` symbols.
pub open spec fn first_symbol_upto(symbols: Seq<EdgeSymbol>, file: i64, name: Seq<char>, n: int) -> Option<int>
    decreases n,
{
    if n <= 0 {
        None
    } else {
        match first_symbol_upto(symbols, file, name, n - 1) {
            Some(i) => Some(i),
            None => if symbol_matches(symbols[n - 1], file, name) {
                Some(n - 1)
            } else {
                None
            },
        }
    }
}

pub open spec fn first_symbol(symbols: Seq<EdgeSymbol>, file: i64, name: Seq<char>) -> Option<int> {
    first_symbol_upto(symbols, file, name, symbols.len() as int)
}

pub open spec fn import_matches(m: ImportRow, file: i64, local: Seq<char>) -> bool {
    m.file_id == file && opt_view(m.local_name) == Some(local)
}

/// The index of the last import in `file` that binds the local name `local`.
pub open spec fn last_import_upto(imports: Seq<ImportRow>, file: i64, local: Seq<char>, n: int) -> Option<int>
    decreases n,
{
    if n <= 0 {
        None
    } else if import_matches(imports[n - 1], file, local) {
        Some(n - 1)
    } else {
        last_import_upto(imports, file, local, n - 1)
    }
}

pub open spec fn encloses(s: EdgeSymbol, file: i64, start: i64, end: i64) -> bool {
    s.file_id == file && s.start <= start && s.end >= end
}

pub open spec fn width(s: EdgeSymbol) -> int {
    s.end - s.start
}

/// The index of the narrowest symbol of `file` whose span covers `[start, end]`; the first
/// of equally narrow ones.
pub open spec fn enclosing_upto(symbols: Seq<EdgeSymbol>, file: i64, start: i64, end: i64, n: int) -> Option<int>
    decreases n,
{
    if n <= 0 {
        None
    } else {
        let prev = enclosing_upto(symbols, file, start, end, n - 1);
        if encloses(symbols[n - 1], file, start, end) && (prev is None || width(symbols[n - 1])
            < width(symbols[prev->0])) {
            Some(n - 1)
        } else {
            prev
        }
    }
}

proof fn lemma_first_symbol_upto_bounds(symbols: Seq<EdgeSymbol>, file: i64, name: Seq<char>, n: int)
    ensures
        first_symbol_upto(symbols, file, name, n) matches Some(i) ==> 0 <= i < n && symbol_matches(symbols[i], file, name),
    decreases n,
{
    if n > 0 {
        lemma_first_symbol_upto_bounds(symbols, file, name, n - 1);
    }
}

proof fn lemma_enclosing_upto_bounds(symbols: Seq<EdgeSymbol>, file: i64, start: i64, end: i64, n: int)
    ensures
        enclosing_upto(symbols, file, start, end, n) matches Some(i) ==> 0 <= i < n && encloses(symbols[i], file, start, end),
    decreases n,
{
    if n > 0 {
        lemma_enclosing_upto_bounds(symbols, file, start, end, n - 1);
    }
}

proof fn lemma_last_import_upto_bounds(imports: Seq<ImportRow>, file: i64, local: Seq<char>, n: int)
    ensures
        last_import_upto(imports, file, local, n) matches Some(i) ==> 0 <= i < n && import_matches(imports[i], file, local),
    decreases n,
{
    if n > 0 {
        lemma_last_import_upto_bounds(imports, file, local, n - 1);
    }
}

fn file_with_path(files: &Vec<EdgeFile>, p: &[char]) -> (r: Option<i64>)
    ensures
        r == file_with_path_upto(files@, p@, files@.len() as int),
{
    let mut r: Option<i64> = None;
    let mut i: usize = 0;
    while i < files.len()
        invariant
            i <= files@.len(),
            r == file_with_path_upto(files@, p@, i as int),
        decreases files@.len() - i,
    {
        let path = chars_of(files[i].path.as_str());
        if chars_eq(path.as_slice(), p) {
            r = Some(files[i].id);
        }
        i = i + 1;
    }
    r
}

fn normalize_separators_exec(s: &[char]) -> (r: Vec<char>)
    ensures
        r@ == normalize_separators(s@),
{
    let mut r: Vec<char> = Vec::new();
    let mut i: usize = 0;
    while i < s.len()
        invariant
            i <= s@.len(),
            r@ == normalize_separators(s@.take(i as int)),
        decreases s@.len() - i,
    {
        let c = s[i];
        r.push(if c == '\\' { '/' } else { c });
        i = i + 1;
        assert(normalize_separators(s@.take(i as int)) =~= normalize_separators(s@.take(i - 1)).push(
            if c == '\\' { '/' } else { c },
        ));
    }
    assert(s@.take(s@.len() as int) == s@);
    r
}

fn resolve_path_exec(files: &Vec<EdgeFile>, resolved: &Option<String>) -> (r: Option<i64>)
    ensures
        r == resolve_path(files@, *resolved),
{
    match resolved {
        Some(p) => {
            let chars = chars_of(p.as_str());
            let n = normalize_separators_exec(chars.as_slice());
            file_with_path(files, n.as_slice())
        },
        None => None,
    }
}

fn first_symbol_exec(symbols: &Vec<EdgeSymbol>, file: i64, name: &[char]) -> (r: Option<usize>)
    ensures
        match r {
            Some(i) => first_symbol_upto(symbols@, file, name@, symbols@.len() as int) == Some(i as int),
            None => first_symbol_upto(symbols@, file, name@, symbols@.len() as int) is None,
        },
{
    let mut i: usize = 0;
    while i < symbols.len()
        invariant
            i <= symbols@.len(),
            first_symbol_upto(symbols@, file, name@, i as int) is None,
        decreases symbols@.len() - i,
    {
        let nm = chars_of(symbols[i].name.as_str());
        if symbols[i].file_id == file && chars_eq(nm.as_slice(), name) {
            proof {
                lemma_first_symbol_stable(symbols@, file, name@, i as int + 1, symbols@.len() as int);
            }
            return Some(i);
        }
        i = i + 1;
    }
    None
}

proof fn lemma_first_symbol_stable(symbols: Seq<EdgeSymbol>, file: i64, name: Seq<char>, n: int, m: int)
    requires
        n <= m,
        first_symbol_upto(symbols, file, name, n) is Some,
    ensures
        first_symbol_upto(symbols, file, name, m) == first_symbol_upto(symbols, file, name, n),
    decreases m - n,
{
    if n < m {
        lemma_first_symbol_stable(symbols, file, name, n, m - 1);
    }
}

fn last_import_exec(imports: &Vec<ImportRow>, file: i64, local: &[char]) -> (r: Option<usize>)
    ensures
        match r {
            Some(i) => last_import_upto(imports@, file, local@, imports@.len() as int) == Some(i as int),
            None => last_import_upto(imports@, file, local@, imports@.len() as int) is None,
        },
{
    let mut r: Option<usize> = None;
    let mut i: usize = 0;
    while i < imports.len()
        invariant
            i <= imports@.len(),
            match r {
                Some(k) => last_import_upto(imports@, file, local@, i as int) == Some(k as int),
                None => last_import_upto(imports@, file, local@, i as int) is None,
            },
        decreases imports@.len() - i,
    {
        if imports[i].file_id == file {
            match &imports[i].local_name {
                Some(l) => {
                    let lc = chars_of(l.as_str());
                    if chars_eq(lc.as_slice(), local) {
                        r = Some(i);
                    }
                },
                None => {},
            }
        }
        i = i + 1;
    }
    r
}

fn enclosing_exec(symbols: &Vec<EdgeSymbol>, file: i64, start: i64, end: i64) -> (r: Option<usize>)
    ensures
        match r {
            Some(i) => enclosing_upto(symbols@, file, start, end, symbols@.len() as int) == Some(i as int),
            None => enclosing_upto(symbols@, file, start, end, symbols@.len() as int) is None,
        },
{
    let mut r: Option<usize> = None;
    let mut i: usize = 0;
    while i < symbols.len()
        invariant
            i <= symbols@.len(),
            match r {
                Some(k) => enclosing_upto(symbols@, file, start, end, i as int) == Some(k as int) && k < i,
                None => enclosing_upto(symbols@, file, start, end, i as int) is None,
            },
        decreases symbols@.len() - i,
    {
        let s = &symbols[i];
        if s.file_id == file && s.start <= start && s.end >= end {
            let w: i128 = s.end as i128 - s.start as i128;
            match r {
                None => {
                    r = Some(i);
                },
                Some(k) => {
                    let wk: i128 = symbols[k].end as i128 - symbols[k].start as i128;
                    if w < wk {
                        r = Some(i);
                    }
                },
            }
        }
        i = i + 1;
    }
    r
}

} // verus!

verus! {

pub struct SpecTarget {
    pub file: Option<i64>,
    pub symbol: Option<Seq<char>>,
    pub external: Option<Seq<char>>,
    pub resolution: Resolution,
}

/// Where a name used in `file` points: through the last import binding that name to a
/// resolved file, to the symbol of the imported name there (semantic) or just that file
/// (ast); otherwise to a symbol of that name in the same file (ast) or to the bare name
/// (heuristic).
pub open spec fn spec_resolve_target(t: EdgeTables, file: i64, name: Seq<char>) -> SpecTarget {
    let k = last_import_upto(t.imports@, file, name, t.imports@.len() as int);
    if k is Some && resolve_path(t.files@, t.imports@[k->0].resolved_path) is Some {
        let imp = t.imports@[k->0];
        let tf = resolve_path(t.files@, imp.resolved_path)->0;
        let tname = match imp.imported_name {
            Some(n) => n@,
            None => name,
        };
        match first_symbol(t.symbols@, tf, tname) {
            Some(i) => SpecTarget {
                file: Some(tf),
                symbol: Some(t.symbols@[i].id@),
                external: None,
                resolution: Resolution::Semantic,
            },
            None => SpecTarget {
                file: Some(tf),
                symbol: None,
                external: Some(tname),
                resolution: Resolution::Ast,
            },
        }
    } else {
        match first_symbol(t.symbols@, file, name) {
            Some(i) => SpecTarget {
                file: Some(file),
                symbol: Some(t.symbols@[i].id@),
                external: None,
                resolution: Resolution::Ast,
            },
            None => SpecTarget {
                file: Some(file),
                symbol: None,
                external: Some(name),
                resolution: Resolution::Heuristic,
            },
        }
    }
}

pub open spec fn target_edge(source_file: i64, source_symbol: Option<Seq<char>>, target: SpecTarget, edge_type: EdgeType) -> SpecEdge {
    SpecEdge {
        source_file_id: source_file,
        source_symbol_id: source_symbol,
        target_file_id: target.file,
        target_symbol_id: target.symbol,
        target_external_name: target.external,
        edge_type,
        resolution: target.resolution,
    }
}

/// The id of the narrowest symbol enclosing a span, if any.
pub open spec fn enclosing_id(t: EdgeTables, file: i64, start: i64, end: i64) -> Option<Seq<char>> {
    match enclosing_upto(t.symbols@, file, start, end, t.symbols@.len() as int) {
        Some(i) => Some(t.symbols@[i].id@),
        None => None,
    }
}

pub open spec fn spec_reference_edge(t: EdgeTables, r: ReferenceRow) -> SpecEdge {
    let name = match r.target {
        Some(n) => n@,
        None => r.name@,
    };
    target_edge(r.file_id, enclosing_id(t, r.file_id, r.start, r.end), spec_resolve_target(t, r.file_id, name), EdgeType::Reference)
}

pub open spec fn spec_call_edge(t: EdgeTables, c: CallRow) -> SpecEdge {
    target_edge(c.file_id, enclosing_id(t, c.file_id, c.start, c.end), spec_resolve_target(t, c.file_id, c.callee@), EdgeType::Call)
}

pub open spec fn star() -> Seq<char> {
    seq!['*']
}

pub open spec fn spec_import_edge(t: EdgeTables, m: ImportRow) -> SpecEdge {
    let tf = resolve_path(t.files@, m.resolved_path);
    let tname: Option<Seq<char>> = match m.imported_name {
        Some(n) => if n@ != star() { Some(n@) } else { None },
        None => None,
    };
    let ts: Option<int> = if tf is Some && tname is Some {
        first_symbol(t.symbols@, tf->0, tname->0)
    } else {
        None
    };
    SpecEdge {
        source_file_id: m.file_id,
        source_symbol_id: None,
        target_file_id: tf,
        target_symbol_id: match ts {
            Some(i) => Some(t.symbols@[i].id@),
            None => None,
        },
        target_external_name: match m.imported_name {
            Some(n) => Some(n@),
            None => Some(m.source@),
        },
        edge_type: EdgeType::Import,
        resolution: if ts is Some {
            Resolution::Semantic
        } else if tf is Some {
            Resolution::Ast
        } else {
            Resolution::Heuristic
        },
    }
}

pub open spec fn spec_export_edge(t: EdgeTables, x: ExportRow) -> SpecEdge {
    let ts: Option<int> = match x.local_name {
        Some(l) => first_symbol(t.symbols@, x.file_id, l@),
        None => None,
    };
    SpecEdge {
        source_file_id: x.file_id,
        source_symbol_id: None,
        target_file_id: Some(x.file_id),
        target_symbol_id: match ts {
            Some(i) => Some(t.symbols@[i].id@),
            None => None,
        },
        target_external_name: Some(x.exported_name@),
        edge_type: EdgeType::Export,
        resolution: if ts is Some {
            Resolution::Semantic
        } else {
            Resolution::Ast
        },
    }
}

fn resolve_target(t: &EdgeTables, file: i64, name: &[char]) -> (r: (Option<i64>, Option<String>, Option<String>, Resolution))
    ensures
        r.0 == spec_resolve_target(*t, file, name@).file,
        opt_view(r.1) == spec_resolve_target(*t, file, name@).symbol,
        opt_view(r.2) == spec_resolve_target(*t, file, name@).external,
        r.3 == spec_resolve_target(*t, file, name@).resolution,
{
    let k = last_import_exec(&t.imports, file, name);
    proof {
        lemma_last_import_upto_bounds(t.imports@, file, name@, t.imports@.len() as int);
    }
    let via: Option<(usize, i64)> = match k {
        Some(k) => match resolve_path_exec(&t.files, &t.imports[k].resolved_path) {
            Some(tf) => Some((k, tf)),
            None => None,
        },
        None => None,
    };
    match via {
        Some((k, tf)) => {
            let tname: Vec<char> = match &t.imports[k].imported_name {
                Some(n) => chars_of(n.as_str()),
                None => take_all(name),
            };
            match first_symbol_exec(&t.symbols, tf, tname.as_slice()) {
                Some(i) => {
                    proof {
                        lemma_first_symbol_upto_bounds(t.symbols@, tf, tname@, t.symbols@.len() as int);
                    }
                    (Some(tf), Some(t.symbols[i].id.clone()), None, Resolution::Semantic)
                },
                None => (Some(tf), None, Some(string_of(tname.as_slice())), Resolution::Ast),
            }
        },
        None => {
            match first_symbol_exec(&t.symbols, file, name) {
                Some(i) => {
                    proof {
                        lemma_first_symbol_upto_bounds(t.symbols@, file, name@, t.symbols@.len() as int);
                    }
                    (Some(file), Some(t.symbols[i].id.clone()), None, Resolution::Ast)
                },
                None => (Some(file), None, Some(string_of(name)), Resolution::Heuristic),
            }
        },
    }
}

fn take_all(s: &[char]) -> (r: Vec<char>)
    ensures
        r@ == s@,
{
    let r = take_chars(s, s.len());
    assert(s@.take(s@.len() as int) == s@);
    r
}

fn enclosing_id_exec(t: &EdgeTables, file: i64, start: i64, end: i64) -> (r: Option<String>)
    ensures
        opt_view(r) == enclosing_id(*t, file, start, end),
{
    proof {
        lemma_enclosing_upto_bounds(t.symbols@, file, start, end, t.symbols@.len() as int);
    }
    match enclosing_exec(&t.symbols, file, start, end) {
        Some(i) => Some(t.symbols[i].id.clone()),
        None => None,
    }
}

fn reference_edge(t: &EdgeTables, r: &ReferenceRow) -> (e: Edge)
    ensures
        e@ == spec_reference_edge(*t, *r),
{
    let name: Vec<char> = match &r.target {
        Some(n) => chars_of(n.as_str()),
        None => chars_of(r.name.as_str()),
    };
    let source = enclosing_id_exec(t, r.file_id, r.start, r.end);
    let (tf, ts, te, res) = resolve_target(t, r.file_id, name.as_slice());
    Edge {
        source_file_id: r.file_id,
        source_symbol_id: source,
        target_file_id: tf,
        target_symbol_id: ts,
        target_external_name: te,
        edge_type: EdgeType::Reference,
        resolution: res,
    }
}

fn call_edge(t: &EdgeTables, c: &CallRow) -> (e: Edge)
    ensures
        e@ == spec_call_edge(*t, *c),
{
    let name = chars_of(c.callee.as_str());
    let source = enclosing_id_exec(t, c.file_id, c.start, c.end);
    let (tf, ts, te, res) = resolve_target(t, c.file_id, name.as_slice());
    Edge {
        source_file_id: c.file_id,
        source_symbol_id: source,
        target_file_id: tf,
        target_symbol_id: ts,
        target_external_name: te,
        edge_type: EdgeType::Call,
        resolution: res,
    }
}

fn import_edge(t: &EdgeTables, m: &ImportRow) -> (e: Edge)
    ensures
        e@ == spec_import_edge(*t, *m),
{
    let tf = resolve_path_exec(&t.files, &m.resolved_path);
    let tname: Option<Vec<char>> = match &m.imported_name {
        Some(n) => {
            let c = chars_of(n.as_str());
            let st = vec!['*'];
            assert(st@ == star());
            if chars_eq(c.as_slice(), st.as_slice()) {
                None
            } else {
                Some(c)
            }
        },
        None => None,
    };
    let ts: Option<usize> = match (tf, &tname) {
        (Some(f), Some(n)) => first_symbol_exec(&t.symbols, f, n.as_slice()),
        _ => None,
    };
    proof {
        if tf is Some && tname is Some {
            lemma_first_symbol_upto_bounds(t.symbols@, tf->0, tname->0@, t.symbols@.len() as int);
        }
    }
    let target_symbol_id = match ts {
        Some(i) => Some(t.symbols[i].id.clone()),
        None => None,
    };
    let external = match &m.imported_name {
        Some(n) => Some(n.clone()),
        None => Some(m.source.clone()),
    };
    let resolution = if ts.is_some() {
        Resolution::Semantic
    } else if tf.is_some() {
        Resolution::Ast
    } else {
        Resolution::Heuristic
    };
    Edge {
        source_file_id: m.file_id,
        source_symbol_id: None,
        target_file_id: tf,
        target_symbol_id,
        target_external_name: external,
        edge_type: EdgeType::Import,
        resolution,
    }
}

fn export_edge(t: &EdgeTables, x: &ExportRow) -> (e: Edge)
    ensures
        e@ == spec_export_edge(*t, *x),
{
    let ts: Option<usize> = match &x.local_name {
        Some(l) => {
            let c = chars_of(l.as_str());
            proof {
                lemma_first_symbol_upto_bounds(t.symbols@, x.file_id, l@, t.symbols@.len() as int);
            }
            first_symbol_exec(&t.symbols, x.file_id, c.as_slice())
        },
        None => None,
    };
    let target_symbol_id = match ts {
        Some(i) => Some(t.symbols[i].id.clone()),
        None => None,
    };
    Edge {
        source_file_id: x.file_id,
        source_symbol_id: None,
        target_file_id: Some(x.file_id),
        target_symbol_id,
        target_external_name: Some(x.exported_name.clone()),
        edge_type: EdgeType::Export,
        resolution: if ts.is_some() {
            Resolution::Semantic
        } else {
            Resolution::Ast
        },
    }
}

} // verus!

verus! {

// ----- test-to-implementation edges -----

/// `file` is an implementation file that the test file `test` is named after.
pub open spec fn implements(file: EdgeFile, test: EdgeFile) -> bool {
    !spec_is_test_path(file.path@) && spec_path_base_name(file.path@) == spec_test_base_name(test.path@)
}

pub open spec fn spec_test_edge(test: EdgeFile, imp: EdgeFile, s: EdgeSymbol) -> SpecEdge {
    SpecEdge {
        source_file_id: test.id,
        source_symbol_id: None,
        target_file_id: Some(imp.id),
        target_symbol_id: Some(s.id@),
        target_external_name: None,
        edge_type: EdgeType::Test,
        resolution: Resolution::Heuristic,
    }
}

/// Edges from `test` to each of the first `n` symbols that belong to `imp`.
pub open spec fn symbol_test_edges(symbols: Seq<EdgeSymbol>, test: EdgeFile, imp: EdgeFile, n: int) -> Seq<SpecEdge>
    decreases n,
{
    if n <= 0 {
        Seq::empty()
    } else {
        let prev = symbol_test_edges(symbols, test, imp, n - 1);
        if symbols[n - 1].file_id == imp.id {
            prev.push(spec_test_edge(test, imp, symbols[n - 1]))
        } else {
            prev
        }
    }
}

/// Edges from `test` to the symbols of each of the first `n` files it is named after.
pub open spec fn implementation_test_edges(t: EdgeTables, test: EdgeFile, n: int) -> Seq<SpecEdge>
    decreases n,
{
    if n <= 0 {
        Seq::empty()
    } else {
        implementation_test_edges(t, test, n - 1) + if implements(t.files@[n - 1], test) {
            symbol_test_edges(t.symbols@, test, t.files@[n - 1], t.symbols@.len() as int)
        } else {
            Seq::empty()
        }
    }
}

/// Test edges of the first `n` files that are tests.
pub open spec fn test_edges(t: EdgeTables, n: int) -> Seq<SpecEdge>
    decreases n,
{
    if n <= 0 {
        Seq::empty()
    } else {
        test_edges(t, n - 1) + if spec_is_test_path(t.files@[n - 1].path@) {
            implementation_test_edges(t, t.files@[n - 1], t.files@.len() as int)
        } else {
            Seq::empty()
        }
    }
}

// ----- all edges, without repeats -----

pub open spec fn edge_key(e: SpecEdge) -> (i64, Option<Seq<char>>, Option<i64>, Option<Seq<char>>, Option<Seq<char>>, EdgeType) {
    (e.source_file_id, e.source_symbol_id, e.target_file_id, e.target_symbol_id, e.target_external_name, e.edge_type)
}

pub open spec fn has_key(d: Seq<SpecEdge>, e: SpecEdge) -> bool {
    exists|j: int| 0 <= j < d.len() && edge_key(d[j]) == edge_key(e)
}

/// Keep `e` unless an edge with the same endpoints, external name and type is already kept.
pub open spec fn keep_new(d: Seq<SpecEdge>, e: SpecEdge) -> Seq<SpecEdge> {
    if has_key(d, e) {
        d
    } else {
        d.push(e)
    }
}

/// The first edge of each key, in order.
pub open spec fn dedup(s: Seq<SpecEdge>) -> Seq<SpecEdge>
    decreases s.len(),
{
    if s.len() == 0 {
        Seq::empty()
    } else {
        keep_new(dedup(s.drop_last()), s.last())
    }
}

/// Every edge the tables give, in the order they are produced: references, calls,
/// imports, exports, then tests.
pub open spec fn all_edges(t: EdgeTables) -> Seq<SpecEdge> {
    t.references@.map_values(|r: ReferenceRow| spec_reference_edge(t, r))
        + t.calls@.map_values(|c: CallRow| spec_call_edge(t, c))
        + t.imports@.map_values(|m: ImportRow| spec_import_edge(t, m))
        + t.exports@.map_values(|x: ExportRow| spec_export_edge(t, x))
        + test_edges(t, t.files@.len() as int)
}

pub open spec fn spec_edges(t: EdgeTables) -> Seq<SpecEdge> {
    dedup(all_edges(t))
}

fn same_key(a: &Edge, b: &Edge) -> (r: bool)
    ensures
        r == (edge_key(a@) == edge_key(b@)),
{
    a.source_file_id == b.source_file_id && opt_eq(&a.source_symbol_id, &b.source_symbol_id)
        && a.target_file_id == b.target_file_id && opt_eq(&a.target_symbol_id, &b.target_symbol_id)
        && opt_eq(&a.target_external_name, &b.target_external_name) && a.edge_type == b.edge_type
}

fn push_new(out: &mut Vec<Edge>, e: Edge)
    ensures
        edge_views(final(out)@) == keep_new(edge_views(old(out)@), e@),
{
    let mut j: usize = 0;
    while j < out.len()
        invariant
            j <= out@.len(),
            forall|k: int| 0 <= k < j ==> edge_key(out@[k]@) != edge_key(e@),
        decreases out@.len() - j,
    {
        if same_key(&out[j], &e) {
            assert(edge_views(out@)[j as int] == out@[j as int]@);
            assert(has_key(edge_views(out@), e@));
            return;
        }
        j = j + 1;
    }
    proof {
        assert forall|k: int| 0 <= k < edge_views(out@).len() implies edge_key(edge_views(out@)[k]) != edge_key(e@) by {
            assert(edge_views(out@)[k] == out@[k]@);
        }
    }
    let ghost before = out@;
    out.push(e);
    assert(edge_views(out@) =~= edge_views(before).push(e@));
}

proof fn lemma_dedup_push(s: Seq<SpecEdge>, e: SpecEdge)
    ensures
        dedup(s.push(e)) == keep_new(dedup(s), e),
{
    assert(s.push(e).drop_last() =~= s);
}

} // verus!

verus! {

pub open spec fn reference_edges(t: EdgeTables) -> Seq<SpecEdge> {
    t.references@.map_values(|r: ReferenceRow| spec_reference_edge(t, r))
}

pub open spec fn call_edges(t: EdgeTables) -> Seq<SpecEdge> {
    t.calls@.map_values(|c: CallRow| spec_call_edge(t, c))
}

pub open spec fn import_edges(t: EdgeTables) -> Seq<SpecEdge> {
    t.imports@.map_values(|m: ImportRow| spec_import_edge(t, m))
}

pub open spec fn export_edges(t: EdgeTables) -> Seq<SpecEdge> {
    t.exports@.map_values(|x: ExportRow| spec_export_edge(t, x))
}

fn test_edge(test: &EdgeFile, imp: &EdgeFile, s: &EdgeSymbol) -> (e: Edge)
    ensures
        e@ == spec_test_edge(*test, *imp, *s),
{
    Edge {
        source_file_id: test.id,
        source_symbol_id: None,
        target_file_id: Some(imp.id),
        target_symbol_id: Some(s.id.clone()),
        target_external_name: None,
        edge_type: EdgeType::Test,
        resolution: Resolution::Heuristic,
    }
}

fn push_symbol_test_edges(t: &EdgeTables, ti: usize, ii: usize, out: &mut Vec<Edge>, Ghost(seen): Ghost<Seq<SpecEdge>>)
    requires
        ti < t.files@.len(),
        ii < t.files@.len(),
        edge_views(old(out)@) == dedup(seen),
    ensures
        edge_views(final(out)@) == dedup(seen + symbol_test_edges(t.symbols@, t.files@[ti as int], t.files@[ii as int], t.symbols@.len() as int)),
{
    let ghost test = t.files@[ti as int];
    let ghost imp = t.files@[ii as int];
    let mut k: usize = 0;
    while k < t.symbols.len()
        invariant
            ti < t.files@.len(),
            ii < t.files@.len(),
            test == t.files@[ti as int],
            imp == t.files@[ii as int],
            k <= t.symbols@.len(),
            edge_views(out@) == dedup(seen + symbol_test_edges(t.symbols@, test, imp, k as int)),
        decreases t.symbols@.len() - k,
    {
        if t.symbols[k].file_id == t.files[ii].id {
            let e = test_edge(&t.files[ti], &t.files[ii], &t.symbols[k]);
            proof {
                let before = seen + symbol_test_edges(t.symbols@, test, imp, k as int);
                lemma_dedup_push(before, e@);
                assert(seen + symbol_test_edges(t.symbols@, test, imp, k + 1) =~= before.push(e@));
            }
            push_new(out, e);
        } else {
            assert(symbol_test_edges(t.symbols@, test, imp, k + 1) == symbol_test_edges(t.symbols@, test, imp, k as int));
        }
        k = k + 1;
    }
}

fn push_implementation_test_edges(t: &EdgeTables, ti: usize, out: &mut Vec<Edge>, Ghost(seen): Ghost<Seq<SpecEdge>>)
    requires
        ti < t.files@.len(),
        edge_views(old(out)@) == dedup(seen),
    ensures
        edge_views(final(out)@) == dedup(seen + implementation_test_edges(*t, t.files@[ti as int], t.files@.len() as int)),
{
    let ghost test = t.files@[ti as int];
    let base = test_base_name(t.files[ti].path.as_str());
    let base_chars = chars_of(base.as_str());
    let mut i: usize = 0;
    while i < t.files.len()
        invariant
            ti < t.files@.len(),
            test == t.files@[ti as int],
            base_chars@ == spec_test_base_name(test.path@),
            i <= t.files@.len(),
            edge_views(out@) == dedup(seen + implementation_test_edges(*t, test, i as int)),
        decreases t.files@.len() - i,
    {
        let is_test = is_test_path(t.files[i].path.as_str());
        let name = path_base_name(t.files[i].path.as_str());
        let name_chars = chars_of(name.as_str());
        let ghost prefix = seen + implementation_test_edges(*t, test, i as int);
        if !is_test && chars_eq(name_chars.as_slice(), base_chars.as_slice()) {
            push_symbol_test_edges(t, ti, i, out, Ghost(prefix));
            assert(seen + implementation_test_edges(*t, test, i + 1) =~= prefix + symbol_test_edges(
                t.symbols@,
                test,
                t.files@[i as int],
                t.symbols@.len() as int,
            ));
        } else {
            assert(seen + implementation_test_edges(*t, test, i + 1) =~= prefix);
        }
        i = i + 1;
    }
}

fn push_test_edges(t: &EdgeTables, out: &mut Vec<Edge>, Ghost(seen): Ghost<Seq<SpecEdge>>)
    requires
        edge_views(old(out)@) == dedup(seen),
    ensures
        edge_views(final(out)@) == dedup(seen + test_edges(*t, t.files@.len() as int)),
{
    let mut i: usize = 0;
    while i < t.files.len()
        invariant
            i <= t.files@.len(),
            edge_views(out@) == dedup(seen + test_edges(*t, i as int)),
        decreases t.files@.len() - i,
    {
        let ghost prefix = seen + test_edges(*t, i as int);
        if is_test_path(t.files[i].path.as_str()) {
            push_implementation_test_edges(t, i, out, Ghost(prefix));
            assert(seen + test_edges(*t, i + 1) =~= prefix + implementation_test_edges(
                *t,
                t.files@[i as int],
                t.files@.len() as int,
            ));
        } else {
            assert(seen + test_edges(*t, i + 1) =~= prefix);
        }
        i = i + 1;
    }
}

/// The relationship edges the tables give: one per reference, call, import and export,
/// plus one from each test file to every symbol of each implementation file it is named
/// after; of edges that share endpoints, external name and type, only the first is kept.
pub fn rebuild_edges(t: &EdgeTables) -> (r: Vec<Edge>)
    ensures
        edge_views(r@) == spec_edges(*t),
{
    let mut out: Vec<Edge> = Vec::new();
    let ghost base: Seq<SpecEdge> = Seq::empty();
    assert(edge_views(out@) =~= dedup(base));
    let mut i: usize = 0;
    while i < t.references.len()
        invariant
            i <= t.references@.len(),
            edge_views(out@) == dedup(reference_edges(*t).take(i as int)),
        decreases t.references@.len() - i,
    {
        let e = reference_edge(t, &t.references[i]);
        proof {
            lemma_dedup_push(reference_edges(*t).take(i as int), e@);
            assert(reference_edges(*t).take(i + 1) =~= reference_edges(*t).take(i as int).push(e@));
        }
        push_new(&mut out, e);
        i = i + 1;
    }
    let ghost base = reference_edges(*t);
    assert(reference_edges(*t).take(t.references@.len() as int) =~= base);
    let mut i: usize = 0;
    while i < t.calls.len()
        invariant
            i <= t.calls@.len(),
            base == reference_edges(*t),
            edge_views(out@) == dedup(base + call_edges(*t).take(i as int)),
        decreases t.calls@.len() - i,
    {
        let e = call_edge(t, &t.calls[i]);
        proof {
            lemma_dedup_push(base + call_edges(*t).take(i as int), e@);
            assert(base + call_edges(*t).take(i + 1) =~= (base + call_edges(*t).take(i as int)).push(e@));
        }
        push_new(&mut out, e);
        i = i + 1;
    }
    assert(call_edges(*t).take(t.calls@.len() as int) =~= call_edges(*t));
    let ghost base = reference_edges(*t) + call_edges(*t);
    let mut i: usize = 0;
    while i < t.imports.len()
        invariant
            i <= t.imports@.len(),
            base == reference_edges(*t) + call_edges(*t),
            edge_views(out@) == dedup(base + import_edges(*t).take(i as int)),
        decreases t.imports@.len() - i,
    {
        let e = import_edge(t, &t.imports[i]);
        proof {
            lemma_dedup_push(base + import_edges(*t).take(i as int), e@);
            assert(base + import_edges(*t).take(i + 1) =~= (base + import_edges(*t).take(i as int)).push(e@));
        }
        push_new(&mut out, e);
        i = i + 1;
    }
    assert(import_edges(*t).take(t.imports@.len() as int) =~= import_edges(*t));
    let ghost base = reference_edges(*t) + call_edges(*t) + import_edges(*t);
    let mut i: usize = 0;
    while i < t.exports.len()
        invariant
            i <= t.exports@.len(),
            base == reference_edges(*t) + call_edges(*t) + import_edges(*t),
            edge_views(out@) == dedup(base + export_edges(*t).take(i as int)),
        decreases t.exports@.len() - i,
    {
        let e = export_edge(t, &t.exports[i]);
        proof {
            lemma_dedup_push(base + export_edges(*t).take(i as int), e@);
            assert(base + export_edges(*t).take(i + 1) =~= (base + export_edges(*t).take(i as int)).push(e@));
        }
        push_new(&mut out, e);
        i = i + 1;
    }
    assert(export_edges(*t).take(t.exports@.len() as int) =~= export_edges(*t));
    let ghost base = reference_edges(*t) + call_edges(*t) + import_edges(*t) + export_edges(*t);
    push_test_edges(t, &mut out, Ghost(base));
    assert(base + test_edges(*t, t.files@.len() as int) =~= all_edges(*t));
    out
}

} // verus!

verus! {

// ----- what holds of every rebuild -----

proof fn lemma_dedup_unique(s: Seq<SpecEdge>)
    ensures
        forall|i: int, j: int|
            0 <= i < j < dedup(s).len() ==> edge_key(#[trigger] dedup(s)[i]) != edge_key(#[trigger] dedup(s)[j]),
    decreases s.len(),
{
    if s.len() > 0 {
        lemma_dedup_unique(s.drop_last());
        let d = dedup(s.drop_last());
        if !has_key(d, s.last()) {
            assert forall|i: int, j: int| 0 <= i < j < dedup(s).len() implies edge_key(
                #[trigger] dedup(s)[i],
            ) != edge_key(#[trigger] dedup(s)[j]) by {
                if j == d.len() {
                    assert(dedup(s)[i] == d[i]);
                } else {
                    assert(dedup(s)[i] == d[i]);
                    assert(dedup(s)[j] == d[j]);
                }
            }
        }
    }
}

proof fn lemma_dedup_sound(s: Seq<SpecEdge>)
    ensures
        forall|i: int| 0 <= i < dedup(s).len() ==> s.contains(#[trigger] dedup(s)[i]),
        forall|i: int| 0 <= i < s.len() ==> has_key(dedup(s), #[trigger] s[i]),
    decreases s.len(),
{
    if s.len() > 0 {
        let p = s.drop_last();
        lemma_dedup_sound(p);
        let d = dedup(p);
        assert forall|i: int| 0 <= i < dedup(s).len() implies s.contains(#[trigger] dedup(s)[i]) by {
            if i < d.len() {
                assert(dedup(s)[i] == d[i]);
                assert(p.contains(d[i]));
                let k = choose|k: int| 0 <= k < p.len() && p[k] == d[i];
                assert(s[k] == p[k]);
            } else {
                assert(s[s.len() - 1] == s.last());
            }
        }
        assert forall|i: int| 0 <= i < s.len() implies has_key(dedup(s), #[trigger] s[i]) by {
            if i < p.len() {
                assert(s[i] == p[i]);
                assert(has_key(d, p[i]));
                let k = choose|k: int| 0 <= k < d.len() && edge_key(d[k]) == edge_key(p[i]);
                assert(dedup(s)[k] == d[k]);
            } else {
                if !has_key(d, s.last()) {
                    assert(dedup(s)[d.len() as int] == s.last());
                }
            }
        }
    }
}

/// An edge names its target: by a symbol, or else by an external name; and a semantic
/// edge always reached a symbol.
pub open spec fn names_target(e: SpecEdge) -> bool {
    &&& (e.target_symbol_id is Some || e.target_external_name is Some)
    &&& (e.resolution == Resolution::Semantic ==> e.target_symbol_id is Some)
}

/// A reference or call edge names its target by exactly one of a symbol and an external
/// name: a resolved target by its symbol, an unresolved one by its name.
pub open spec fn one_target(e: SpecEdge) -> bool {
    (e.edge_type == EdgeType::Reference || e.edge_type == EdgeType::Call) ==> (e.target_symbol_id is Some
        <==> e.target_external_name is None)
}

/// What every produced edge satisfies.
pub open spec fn edge_invariant(e: SpecEdge) -> bool {
    names_target(e) && one_target(e)
}

proof fn lemma_symbol_test_edges_name_targets(symbols: Seq<EdgeSymbol>, test: EdgeFile, imp: EdgeFile, n: int)
    ensures
        forall|i: int| 0 <= i < symbol_test_edges(symbols, test, imp, n).len() ==> edge_invariant(
            #[trigger] symbol_test_edges(symbols, test, imp, n)[i],
        ),
    decreases n,
{
    if n > 0 {
        lemma_symbol_test_edges_name_targets(symbols, test, imp, n - 1);
        let a = symbol_test_edges(symbols, test, imp, n - 1);
        assert forall|i: int| 0 <= i < symbol_test_edges(symbols, test, imp, n).len() implies edge_invariant(
            #[trigger] symbol_test_edges(symbols, test, imp, n)[i],
        ) by {
            if i < a.len() {
                assert(symbol_test_edges(symbols, test, imp, n)[i] == a[i]);
            }
        }
    }
}

proof fn lemma_implementation_test_edges_name_targets(t: EdgeTables, test: EdgeFile, n: int)
    ensures
        forall|i: int| 0 <= i < implementation_test_edges(t, test, n).len() ==> edge_invariant(
            #[trigger] implementation_test_edges(t, test, n)[i],
        ),
    decreases n,
{
    if n > 0 {
        lemma_implementation_test_edges_name_targets(t, test, n - 1);
        lemma_symbol_test_edges_name_targets(t.symbols@, test, t.files@[n - 1], t.symbols@.len() as int);
        let a = implementation_test_edges(t, test, n - 1);
        assert forall|i: int| 0 <= i < implementation_test_edges(t, test, n).len() implies edge_invariant(
            #[trigger] implementation_test_edges(t, test, n)[i],
        ) by {
            if i >= a.len() {
                assert(implementation_test_edges(t, test, n)[i] == symbol_test_edges(
                    t.symbols@,
                    test,
                    t.files@[n - 1],
                    t.symbols@.len() as int,
                )[i - a.len()]);
            } else {
                assert(implementation_test_edges(t, test, n)[i] == a[i]);
            }
        }
    }
}

proof fn lemma_test_edges_name_targets(t: EdgeTables, n: int)
    ensures
        forall|i: int| 0 <= i < test_edges(t, n).len() ==> edge_invariant(#[trigger] test_edges(t, n)[i]),
    decreases n,
{
    if n > 0 {
        lemma_test_edges_name_targets(t, n - 1);
        lemma_implementation_test_edges_name_targets(t, t.files@[n - 1], t.files@.len() as int);
        let a = test_edges(t, n - 1);
        assert forall|i: int| 0 <= i < test_edges(t, n).len() implies edge_invariant(#[trigger] test_edges(t, n)[i]) by {
            if i >= a.len() {
                assert(test_edges(t, n)[i] == implementation_test_edges(t, t.files@[n - 1], t.files@.len() as int)[i
                    - a.len()]);
            } else {
                assert(test_edges(t, n)[i] == a[i]);
            }
        }
    }
}

proof fn lemma_all_edges_name_targets(t: EdgeTables)
    ensures
        forall|i: int| 0 <= i < all_edges(t).len() ==> edge_invariant(#[trigger] all_edges(t)[i]),
{
    lemma_test_edges_name_targets(t, t.files@.len() as int);
    let r = reference_edges(t);
    let c = call_edges(t);
    let m = import_edges(t);
    let x = export_edges(t);
    let te = test_edges(t, t.files@.len() as int);
    assert forall|i: int| 0 <= i < all_edges(t).len() implies edge_invariant(#[trigger] all_edges(t)[i]) by {
        let a = all_edges(t);
        if i < r.len() {
            assert(a[i] == r[i]);
        } else if i < r.len() + c.len() {
            assert(a[i] == c[i - r.len()]);
        } else if i < r.len() + c.len() + m.len() {
            assert(a[i] == m[i - r.len() - c.len()]);
        } else if i < r.len() + c.len() + m.len() + x.len() {
            assert(a[i] == x[i - r.len() - c.len() - m.len()]);
        } else {
            assert(a[i] == te[i - r.len() - c.len() - m.len() - x.len()]);
        }
    }
}

/// A rebuild keeps at most one edge per source file, source symbol, target file, target
/// symbol, external name and edge type.
pub proof fn edges_are_unique(t: EdgeTables)
    ensures
        forall|i: int, j: int|
            0 <= i < j < spec_edges(t).len() ==> edge_key(#[trigger] spec_edges(t)[i]) != edge_key(
                #[trigger] spec_edges(t)[j],
            ),
{
    lemma_dedup_unique(all_edges(t));
}

/// Removing repeats loses no relationship: every produced edge is kept or has a kept edge
/// with the same key, and every kept edge was produced.
pub proof fn edges_cover_every_relationship(t: EdgeTables)
    ensures
        forall|i: int| 0 <= i < all_edges(t).len() ==> has_key(spec_edges(t), #[trigger] all_edges(t)[i]),
        forall|i: int| 0 <= i < spec_edges(t).len() ==> all_edges(t).contains(#[trigger] spec_edges(t)[i]),
{
    lemma_dedup_sound(all_edges(t));
}

/// Unresolved targets are not dropped: every kept edge names its target by a symbol or an
/// external name, and an edge is semantic only when it reached a symbol.
pub proof fn edges_name_their_targets(t: EdgeTables)
    ensures
        forall|i: int| 0 <= i < spec_edges(t).len() ==> names_target(#[trigger] spec_edges(t)[i]),
{
    lemma_spec_edges_invariant(t);
    assert forall|i: int| 0 <= i < spec_edges(t).len() implies names_target(#[trigger] spec_edges(t)[i]) by {
        assert(edge_invariant(spec_edges(t)[i]));
    }
}

proof fn lemma_spec_edges_invariant(t: EdgeTables)
    ensures
        forall|i: int| 0 <= i < spec_edges(t).len() ==> edge_invariant(#[trigger] spec_edges(t)[i]),
{
    lemma_all_edges_name_targets(t);
    lemma_dedup_sound(all_edges(t));
    assert forall|i: int| 0 <= i < spec_edges(t).len() implies edge_invariant(#[trigger] spec_edges(t)[i]) by {
        let e = spec_edges(t)[i];
        assert(all_edges(t).contains(e));
        let k = choose|k: int| 0 <= k < all_edges(t).len() && all_edges(t)[k] == e;
        assert(edge_invariant(all_edges(t)[k]));
    }
}

/// The edge model of a rebuild: every kept reference or call edge names its target by
/// exactly one of a symbol and an external name (an unresolved target keeps its name),
/// and a semantic edge (confidence 1.0) always reached a symbol.
pub proof fn reference_and_call_edges_name_one_target(t: EdgeTables)
    ensures
        forall|i: int| 0 <= i < spec_edges(t).len() ==> one_target(#[trigger] spec_edges(t)[i]),
        forall|i: int|
            0 <= i < spec_edges(t).len() && spec_confidence_tenths(#[trigger] spec_edges(t)[i].resolution) == 10
                ==> spec_edges(t)[i].target_symbol_id is Some,
{
    lemma_spec_edges_invariant(t);
    assert forall|i: int| 0 <= i < spec_edges(t).len() implies one_target(#[trigger] spec_edges(t)[i]) by {
        assert(edge_invariant(spec_edges(t)[i]));
    }
    assert forall|i: int|
        0 <= i < spec_edges(t).len() && spec_confidence_tenths(#[trigger] spec_edges(t)[i].resolution) == 10
            implies spec_edges(t)[i].target_symbol_id is Some by {
        assert(edge_invariant(spec_edges(t)[i]));
    }
}

} // verus!

verus! {

// ----- what resolution through an import means -----

proof fn lemma_first_symbol_found(symbols: Seq<EdgeSymbol>, file: i64, name: Seq<char>, i: int, n: int)
    requires
        0 <= i < n <= symbols.len(),
        symbols[i].file_id == file,
        symbols[i].name@ == name,
    ensures
        first_symbol_upto(symbols, file, name, n) is Some,
    decreases n,
{
    if i < n - 1 {
        lemma_first_symbol_found(symbols, file, name, i, n - 1);
    }
}

proof fn lemma_last_import_is(imports: Seq<ImportRow>, file: i64, local: Seq<char>, k: int, n: int)
    requires
        0 <= k < n <= imports.len(),
        import_matches(imports[k], file, local),
        forall|j: int| k < j < imports.len() ==> !import_matches(#[trigger] imports[j], file, local),
    ensures
        last_import_upto(imports, file, local, n) == Some(k),
    decreases n,
{
    if k < n - 1 {
        lemma_last_import_is(imports, file, local, k, n - 1);
    }
}

/// The target a use of `name` in `file` resolves to when the last import of `file` that
/// binds `name` (its local name, an alias included) resolves to the indexed file `tf` and
/// imports `imported`, a name that `tf` defines: the target is a symbol of `tf` named
/// `imported` (not the alias), reached semantically, with no external name.
proof fn lemma_resolves_through_import(
    t: EdgeTables,
    file: i64,
    name: Seq<char>,
    k: int,
    tf: i64,
    imported: Seq<char>,
    i: int,
)
    requires
        0 <= k < t.imports@.len(),
        t.imports@[k].file_id == file,
        opt_view(t.imports@[k].local_name) == Some(name),
        forall|j: int| k < j < t.imports@.len() ==> !import_matches(#[trigger] t.imports@[j], file, name),
        resolve_path(t.files@, t.imports@[k].resolved_path) == Some(tf),
        opt_view(t.imports@[k].imported_name) == Some(imported),
        0 <= i < t.symbols@.len(),
        t.symbols@[i].file_id == tf,
        t.symbols@[i].name@ == imported,
    ensures
        spec_resolve_target(t, file, name).resolution == Resolution::Semantic,
        spec_resolve_target(t, file, name).file == Some(tf),
        spec_resolve_target(t, file, name).external is None,
        exists|s: int|
            0 <= s < t.symbols@.len() && t.symbols@[s].file_id == tf && t.symbols@[s].name@ == imported
                && spec_resolve_target(t, file, name).symbol == Some(#[trigger] t.symbols@[s].id@),
{
    lemma_last_import_is(t.imports@, file, name, k, t.imports@.len() as int);
    lemma_first_symbol_found(t.symbols@, tf, imported, i, t.symbols@.len() as int);
    lemma_first_symbol_upto_bounds(t.symbols@, tf, imported, t.symbols@.len() as int);
    let s = first_symbol(t.symbols@, tf, imported)->0;
    assert(t.symbols@[s].file_id == tf && t.symbols@[s].name@ == imported);
}

/// A reference or a call through an aliased import reaches the imported definition: when
/// the last import of the file that binds the used name resolves to an indexed file and
/// imports a name that file defines, the reference (or call) edge produced for it targets
/// a symbol of that file with the imported name, whatever the local alias, semantically
/// (confidence 1.0) and with no external name.
pub proof fn aliased_imports_resolve_to_the_imported_symbol(
    t: EdgeTables,
    file: i64,
    name: Seq<char>,
    k: int,
    tf: i64,
    imported: Seq<char>,
    i: int,
)
    requires
        0 <= k < t.imports@.len(),
        t.imports@[k].file_id == file,
        opt_view(t.imports@[k].local_name) == Some(name),
        forall|j: int| k < j < t.imports@.len() ==> !import_matches(#[trigger] t.imports@[j], file, name),
        resolve_path(t.files@, t.imports@[k].resolved_path) == Some(tf),
        opt_view(t.imports@[k].imported_name) == Some(imported),
        0 <= i < t.symbols@.len(),
        t.symbols@[i].file_id == tf,
        t.symbols@[i].name@ == imported,
    ensures
        forall|j: int|
            0 <= j < t.references@.len() && t.references@[j].file_id == file && (match t.references@[j].target {
                Some(n) => n@,
                None => t.references@[j].name@,
            }) == name ==> {
                let e = #[trigger] all_edges(t)[j];
                &&& e.edge_type == EdgeType::Reference
                &&& e.resolution == Resolution::Semantic
                &&& e.target_file_id == Some(tf)
                &&& e.target_external_name is None
                &&& exists|s: int|
                    0 <= s < t.symbols@.len() && t.symbols@[s].file_id == tf && t.symbols@[s].name@ == imported
                        && e.target_symbol_id == Some(#[trigger] t.symbols@[s].id@)
            },
        forall|j: int|
            0 <= j < t.calls@.len() && t.calls@[j].file_id == file && t.calls@[j].callee@ == name ==> {
                let e = #[trigger] all_edges(t)[t.references@.len() + j];
                &&& e.edge_type == EdgeType::Call
                &&& e.resolution == Resolution::Semantic
                &&& e.target_file_id == Some(tf)
                &&& e.target_external_name is None
                &&& exists|s: int|
                    0 <= s < t.symbols@.len() && t.symbols@[s].file_id == tf && t.symbols@[s].name@ == imported
                        && e.target_symbol_id == Some(#[trigger] t.symbols@[s].id@)
            },
{
    lemma_resolves_through_import(t, file, name, k, tf, imported, i);
    let r = reference_edges(t);
    let c = call_edges(t);
    let a = all_edges(t);
    assert forall|j: int|
        0 <= j < t.references@.len() && t.references@[j].file_id == file && (match t.references@[j].target {
            Some(n) => n@,
            None => t.references@[j].name@,
        }) == name implies {
        let e = #[trigger] all_edges(t)[j];
        &&& e.edge_type == EdgeType::Reference
        &&& e.resolution == Resolution::Semantic
        &&& e.target_file_id == Some(tf)
        &&& e.target_external_name is None
        &&& exists|s: int|
            0 <= s < t.symbols@.len() && t.symbols@[s].file_id == tf && t.symbols@[s].name@ == imported
                && e.target_symbol_id == Some(#[trigger] t.symbols@[s].id@)
    } by {
        assert(a[j] == r[j]);
        assert(r[j] == spec_reference_edge(t, t.references@[j]));
    }
    assert forall|j: int|
        0 <= j < t.calls@.len() && t.calls@[j].file_id == file && t.calls@[j].callee@ == name implies {
        let e = #[trigger] all_edges(t)[t.references@.len() + j];
        &&& e.edge_type == EdgeType::Call
        &&& e.resolution == Resolution::Semantic
        &&& e.target_file_id == Some(tf)
        &&& e.target_external_name is None
        &&& exists|s: int|
            0 <= s < t.symbols@.len() && t.symbols@[s].file_id == tf && t.symbols@[s].name@ == imported
                && e.target_symbol_id == Some(#[trigger] t.symbols@[s].id@)
    } by {
        assert(a[r.len() + j] == c[j]);
        assert(c[j] == spec_call_edge(t, t.calls@[j]));
    }
}

} // verus!

verus! {

// ----- what the naming of test files means -----

/// Splitting `a + b` at `sep`, where `a` is empty or ends with `sep` and `b` holds no
/// `sep`: while `b` is read, the finished pieces stay those of `a` and the piece in
/// progress is what has been read of `b`.
proof fn lemma_split_free_run(a: Seq<char>, b: Seq<char>, sep: char, m: int)
    requires
        a.len() == 0 || a.last() == sep,
        forall|i: int| 0 <= i < b.len() ==> b[i] != sep,
        0 <= m <= b.len(),
    ensures
        crate::text::split_acc(a + b, sep, a.len() + m).1 == b.take(m),
        crate::text::split_acc(a + b, sep, a.len() + m).0 == crate::text::split_acc(a + b, sep, a.len() as int).0,
    decreases m,
{
    let s = a + b;
    if m == 0 {
        if a.len() > 0 {
            assert(s[a.len() - 1] == a.last());
        }
        assert(b.take(0) =~= Seq::<char>::empty());
    } else {
        lemma_split_free_run(a, b, sep, m - 1);
        assert(s[a.len() + m - 1] == b[m - 1]);
        assert(b.take(m - 1).push(b[m - 1]) =~= b.take(m));
    }
}

/// When `a` is not empty and ends with `sep`, the finished pieces of `a` are at least one.
proof fn lemma_split_done_after_sep(x: Seq<char>, sep: char, n: int)
    requires
        0 < n <= x.len(),
        x[n - 1] == sep,
    ensures
        crate::text::split_acc(x, sep, n).0.len() >= 1,
{
}

proof fn lemma_last_part_of(dir: Seq<char>, name: Seq<char>)
    requires
        dir.len() == 0 || dir.last() == '/',
        forall|i: int| 0 <= i < name.len() ==> name[i] != '/',
    ensures
        last_part(dir + name) == name,
{
    lemma_split_free_run(dir, name, '/', name.len() as int);
    assert(name.take(name.len() as int) =~= name);
    assert((dir + name).len() == dir.len() + name.len());
}

proof fn lemma_stem_of(base: Seq<char>, ext: Seq<char>)
    requires
        forall|i: int| 0 <= i < ext.len() ==> ext[i] != '.',
    ensures
        file_stem(base + seq!['.'] + ext) == base,
{
    let a = base + seq!['.'];
    let x = a + ext;
    assert(base + seq!['.'] + ext == x);
    lemma_split_free_run(a, ext, '.', ext.len() as int);
    assert(x[a.len() - 1] == '.');
    lemma_split_done_after_sep(x, '.', a.len() as int);
    assert(ext.take(ext.len() as int) =~= ext);
    assert(x.take(x.len() - ext.len() - 1) =~= base);
}

proof fn lemma_first_dot_piece(s: Seq<char>, ext: Seq<char>)
    requires
        forall|i: int| 0 <= i < s.len() ==> s[i] != '.',
        forall|i: int| 0 <= i < ext.len() ==> ext[i] != '.',
    ensures
        split_on(s + seq!['.'] + ext, '.')[0] == s,
{
    let a = s + seq!['.'];
    let x = a + ext;
    assert(s + seq!['.'] + ext == x);
    assert forall|m: int| 0 <= m <= s.len() implies crate::text::split_acc(x, '.', m).1 == s.take(m)
        && crate::text::split_acc(x, '.', m).0.len() == 0 by {
        lemma_split_prefix_free(x, s, m);
    }
    assert(s.take(s.len() as int) =~= s);
    assert(x[s.len() as int] == '.');
    assert(crate::text::split_acc(x, '.', a.len() as int).0 == seq![s]);
    lemma_split_free_run(a, ext, '.', ext.len() as int);
}

/// While reading a prefix `s` of `x` that holds no `.`, nothing is finished and the piece
/// in progress is what has been read.
proof fn lemma_split_prefix_free(x: Seq<char>, s: Seq<char>, m: int)
    requires
        s.len() <= x.len(),
        forall|i: int| 0 <= i < s.len() ==> x[i] == s[i] && s[i] != '.',
        0 <= m <= s.len(),
    ensures
        crate::text::split_acc(x, '.', m).1 == s.take(m),
        crate::text::split_acc(x, '.', m).0.len() == 0,
    decreases m,
{
    if m == 0 {
        assert(s.take(0) =~= Seq::<char>::empty());
    } else {
        lemma_split_prefix_free(x, s, m - 1);
        assert(s.take(m - 1).push(s[m - 1]) =~= s.take(m));
    }
}

/// Test files are linked to the implementation they are named after: in any directory,
/// a test file whose stem is `s` followed by `.test`, `.spec` or `_test` (with any one
/// extension after it) has the test base name `s`; and an implementation file named `s`
/// with an extension, for an `s` without `.`, has the base name `s`, so the two are linked.
pub proof fn test_files_name_their_implementation(
    dir: Seq<char>,
    s: Seq<char>,
    suffix: Seq<char>,
    ext: Seq<char>,
    impl_dir: Seq<char>,
    impl_ext: Seq<char>,
)
    requires
        dir.len() == 0 || dir.last() == '/',
        impl_dir.len() == 0 || impl_dir.last() == '/',
        forall|i: int| 0 <= i < s.len() ==> s[i] != '/',
        suffix == seq!['.', 't', 'e', 's', 't'] || suffix == seq!['.', 's', 'p', 'e', 'c'] || suffix
            == seq!['_', 't', 'e', 's', 't'],
        forall|i: int| 0 <= i < ext.len() ==> ext[i] != '/' && ext[i] != '.',
        forall|i: int| 0 <= i < impl_ext.len() ==> impl_ext[i] != '/' && impl_ext[i] != '.',
    ensures
        spec_test_base_name(dir + s + suffix + seq!['.'] + ext) == s,
        (forall|i: int| 0 <= i < s.len() ==> s[i] != '.') ==> spec_path_base_name(impl_dir + s + seq!['.'] + impl_ext)
            == s,
{
    let name = s + suffix + seq!['.'] + ext;
    assert forall|i: int| 0 <= i < name.len() implies name[i] != '/' by {
        if i < s.len() {
            assert(name[i] == s[i]);
        } else if i < s.len() + suffix.len() {
            assert(name[i] == suffix[i - s.len()]);
        } else if i == s.len() + suffix.len() {
            assert(name[i] == '.');
        } else {
            assert(name[i] == ext[i - s.len() - suffix.len() - 1]);
        }
    }
    assert(dir + s + suffix + seq!['.'] + ext == dir + name);
    lemma_last_part_of(dir, name);
    lemma_stem_of(s + suffix, ext);
    let stem = s + suffix;
    assert(stem.skip(stem.len() - 5) =~= suffix);
    assert(stem.take(stem.len() - 5) =~= s);
    if suffix == seq!['.', 's', 'p', 'e', 'c'] {
        assert(stem.skip(stem.len() - 5)[1] == 's');
        assert(!crate::text::ends_with(stem, suffix_test()));
    }
    if suffix == seq!['_', 't', 'e', 's', 't'] {
        assert(stem.skip(stem.len() - 5)[0] == '_');
        assert(!crate::text::ends_with(stem, suffix_test()));
        assert(!crate::text::ends_with(stem, suffix_spec()));
    }
    if forall|i: int| 0 <= i < s.len() ==> s[i] != '.' {
        let iname = s + seq!['.'] + impl_ext;
        assert forall|i: int| 0 <= i < iname.len() implies iname[i] != '/' by {
            if i < s.len() {
                assert(iname[i] == s[i]);
            } else if i > s.len() {
                assert(iname[i] == impl_ext[i - s.len() - 1]);
            }
        }
        assert(impl_dir + s + seq!['.'] + impl_ext == impl_dir + iname);
        lemma_last_part_of(impl_dir, iname);
        lemma_first_dot_piece(s, impl_ext);
    }
}

} // verus!

verus! {

proof fn lemma_no_import(imports: Seq<ImportRow>, file: i64, local: Seq<char>, n: int)
    requires
        n <= imports.len(),
        forall|j: int| 0 <= j < imports.len() ==> !import_matches(#[trigger] imports[j], file, local),
    ensures
        last_import_upto(imports, file, local, n) is None,
    decreases n,
{
    if n > 0 {
        lemma_no_import(imports, file, local, n - 1);
    }
}

proof fn lemma_no_symbol(symbols: Seq<EdgeSymbol>, file: i64, name: Seq<char>, n: int)
    requires
        n <= symbols.len(),
        forall|i: int| 0 <= i < symbols.len() ==> !symbol_matches(#[trigger] symbols[i], file, name),
    ensures
        first_symbol_upto(symbols, file, name, n) is None,
    decreases n,
{
    if n > 0 {
        lemma_no_symbol(symbols, file, name, n - 1);
    }
}

/// A name that no import of its file binds resolves within that file: to a symbol of the
/// file with that name when there is one (found by the syntax tree, confidence 0.7, no
/// external name), and otherwise to no symbol, keeping the name as an external target
/// (heuristic, confidence 0.4).
pub proof fn local_names_resolve_in_their_file(t: EdgeTables, file: i64, name: Seq<char>)
    requires
        forall|j: int| 0 <= j < t.imports@.len() ==> !import_matches(#[trigger] t.imports@[j], file, name),
    ensures
        spec_resolve_target(t, file, name).file == Some(file),
        (exists|i: int| 0 <= i < t.symbols@.len() && symbol_matches(#[trigger] t.symbols@[i], file, name)) ==> {
            &&& spec_resolve_target(t, file, name).resolution == Resolution::Ast
            &&& spec_resolve_target(t, file, name).external is None
            &&& exists|s: int|
                0 <= s < t.symbols@.len() && symbol_matches(t.symbols@[s], file, name) && spec_resolve_target(
                    t,
                    file,
                    name,
                ).symbol == Some(#[trigger] t.symbols@[s].id@)
        },
        (forall|i: int| 0 <= i < t.symbols@.len() ==> !symbol_matches(#[trigger] t.symbols@[i], file, name)) ==> {
            &&& spec_resolve_target(t, file, name).resolution == Resolution::Heuristic
            &&& spec_resolve_target(t, file, name).symbol is None
            &&& spec_resolve_target(t, file, name).external == Some(name)
        },
{
    lemma_no_import(t.imports@, file, name, t.imports@.len() as int);
    lemma_first_symbol_upto_bounds(t.symbols@, file, name, t.symbols@.len() as int);
    if exists|i: int| 0 <= i < t.symbols@.len() && symbol_matches(#[trigger] t.symbols@[i], file, name) {
        let i = choose|i: int| 0 <= i < t.symbols@.len() && symbol_matches(#[trigger] t.symbols@[i], file, name);
        lemma_first_symbol_found(t.symbols@, file, name, i, t.symbols@.len() as int);
        let s = first_symbol(t.symbols@, file, name)->0;
        assert(symbol_matches(t.symbols@[s], file, name));
    }
    if forall|i: int| 0 <= i < t.symbols@.len() ==> !symbol_matches(#[trigger] t.symbols@[i], file, name) {
        lemma_no_symbol(t.symbols@, file, name, t.symbols@.len() as int);
    }
}

} // verus!

verus! {

proof fn lemma_lower_keeps_occurrence(s: Seq<char>, p: Seq<char>, i: int)
    requires
        crate::text::occurs_at(s, p, i),
        forall|k: int| 0 <= k < p.len() ==> !crate::text::is_ascii_upper(#[trigger] p[k]),
    ensures
        crate::text::occurs_at(lower(s), p, i),
{
    assert(lower(s).subrange(i, i + p.len()) =~= p) by {
        assert forall|k: int| 0 <= k < p.len() implies lower(s).subrange(i, i + p.len())[k] == p[k] by {
            assert(s[i + k] == s.subrange(i, i + p.len())[k]);
        }
    }
}

/// A file whose path holds `.test.`, `.spec.` or `_test.` (in any case) is a test file.
pub proof fn marked_files_are_tests(path: Seq<char>)
    ensures
        (contains(path, seq!['.', 't', 'e', 's', 't', '.']) || contains(path, seq!['.', 's', 'p', 'e', 'c', '.'])
            || contains(path, seq!['_', 't', 'e', 's', 't', '.'])) ==> spec_is_test_path(path),
{
    let marks = seq![dot_test_dot(), dot_spec_dot(), underscore_test_dot()];
    assert forall|m: int| 0 <= m < 3 && contains(path, #[trigger] marks[m]) implies contains(lower(path), marks[m]) by {
        let p = marks[m];
        let i = choose|i: int| crate::text::occurs_at(path, p, i);
        lemma_lower_keeps_occurrence(path, p, i);
    }
    assert(marks[0] == dot_test_dot());
    assert(marks[1] == dot_spec_dot());
    assert(marks[2] == underscore_test_dot());
}

} // verus!
