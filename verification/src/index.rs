use vstd::prelude::*;

use vstd::string::StringSliceAdditionalSpecFns;

use crate::analyzer::{ReferenceKind, SymbolKind};
use crate::error::AstralError;
use crate::text::{append_chars, chars_eq, chars_of, decimal, sha256_hex, sha256_hex_of, spec_decimal, string_of};

verus! {

/// The version of the index's database schema.
pub const SCHEMA_VERSION: i64 = 5;

/// Whether a file's indexed data is current.
#[derive(Debug, Clone, Copy, PartialEq, Eq, Structural)]
pub enum FileStateStatus {
    Fresh,
    Stale,
    Missing,
}

/// The recorded state of one file.
#[derive(Debug, Clone, PartialEq, Eq)]
pub struct FileStateRecord {
    pub relative_path: String,
    pub status: FileStateStatus,
    pub observed_hash: Option<String>,
    pub error: Option<String>,
}

/// What an index holds and which snapshot it reflects.
#[derive(Debug, Clone, PartialEq, Eq)]
pub struct IndexStatus {
    pub indexed: bool,
    pub database_path: String,
    pub schema_version: i64,
    pub file_count: usize,
    pub symbol_count: usize,
    pub diagnostic_count: usize,
    pub stale_count: usize,
    pub missing_count: usize,
    pub snapshot_head: Option<String>,
    pub snapshot_branch: Option<String>,
    pub working_tree_dirty: bool,
    pub dirty_file_count: usize,
    pub snapshot_stale: bool,
}

/// One symbol found by name.
#[derive(Debug, Clone, PartialEq, Eq)]
pub struct SymbolResult {
    pub symbol_id: String,
    pub name: String,
    pub qualified_name: Option<String>,
    pub kind: String,
    pub relative_path: String,
    pub start_byte: usize,
    pub end_byte: usize,
}

/// One symbol with its source text.
#[derive(Debug, Clone, PartialEq, Eq)]
pub struct ReadSymbolResult {
    pub symbol_id: String,
    pub name: String,
    pub kind: String,
    pub relative_path: String,
    pub source: String,
}

/// The repository index, kept in a SQLite database per repository root.
#[derive(Debug, Clone, Copy)]
pub struct IndexStore;

pub open spec fn fresh_name() -> Seq<char> {
    seq!['f', 'r', 'e', 's', 'h']
}

pub open spec fn stale_name() -> Seq<char> {
    seq!['s', 't', 'a', 'l', 'e']
}

pub open spec fn missing_name() -> Seq<char> {
    seq!['m', 'i', 's', 's', 'i', 'n', 'g']
}

/// The state a stored name stands for; an unknown name reads as stale.
pub open spec fn spec_parse_file_state(s: Seq<char>) -> FileStateStatus {
    if s == fresh_name() {
        FileStateStatus::Fresh
    } else if s == missing_name() {
        FileStateStatus::Missing
    } else {
        FileStateStatus::Stale
    }
}

pub open spec fn spec_file_state_name(status: FileStateStatus) -> Seq<char> {
    match status {
        FileStateStatus::Fresh => fresh_name(),
        FileStateStatus::Stale => stale_name(),
        FileStateStatus::Missing => missing_name(),
    }
}

/// Reads a stored file state.
pub fn parse_file_state(status: &str) -> (r: FileStateStatus)
    ensures
        r == spec_parse_file_state(status@),
{
    let s = chars_of(status);
    let fresh = vec!['f', 'r', 'e', 's', 'h'];
    let missing = vec!['m', 'i', 's', 's', 'i', 'n', 'g'];
    assert(fresh@ == fresh_name());
    assert(missing@ == missing_name());
    if chars_eq(s.as_slice(), fresh.as_slice()) {
        FileStateStatus::Fresh
    } else if chars_eq(s.as_slice(), missing.as_slice()) {
        FileStateStatus::Missing
    } else {
        FileStateStatus::Stale
    }
}

/// The name a file state is stored under.
pub fn file_state_name(status: FileStateStatus) -> (r: &'static str)
    ensures
        r@ == spec_file_state_name(status),
{
    match status {
        FileStateStatus::Fresh => {
            proof {
                reveal_strlit("fresh");
            }
            "fresh"
        },
        FileStateStatus::Stale => {
            proof {
                reveal_strlit("stale");
            }
            "stale"
        },
        FileStateStatus::Missing => {
            proof {
                reveal_strlit("missing");
            }
            "missing"
        },
    }
}

/// A stored name reads back as the state it was stored for.
pub proof fn file_state_names_round_trip(status: FileStateStatus)
    ensures
        spec_parse_file_state(spec_file_state_name(status)) == status,
{
    assert(stale_name() != fresh_name()) by {
        assert(stale_name()[0] != fresh_name()[0]);
    }
    assert(stale_name() != missing_name()) by {
        assert(stale_name().len() != missing_name().len());
    }
    assert(missing_name() != fresh_name()) by {
        assert(missing_name().len() != fresh_name().len());
    }
}

pub open spec fn spec_symbol_kind_name(kind: SymbolKind) -> Seq<char> {
    match kind {
        SymbolKind::Function => "function"@,
        SymbolKind::Class => "class"@,
        SymbolKind::Interface => "interface"@,
        SymbolKind::Type => "type"@,
        SymbolKind::Variable => "variable"@,
        SymbolKind::Module => "module"@,
        SymbolKind::Unknown => "unknown"@,
    }
}

/// The name a symbol kind is stored under.
pub fn symbol_kind_name(kind: SymbolKind) -> (r: &'static str)
    ensures
        r@ == spec_symbol_kind_name(kind),
{
    match kind {
        SymbolKind::Function => "function",
        SymbolKind::Class => "class",
        SymbolKind::Interface => "interface",
        SymbolKind::Type => "type",
        SymbolKind::Variable => "variable",
        SymbolKind::Module => "module",
        SymbolKind::Unknown => "unknown",
    }
}

pub open spec fn spec_reference_kind_name(kind: ReferenceKind) -> Seq<char> {
    match kind {
        ReferenceKind::Read => "read"@,
        ReferenceKind::Write => "write"@,
        ReferenceKind::Call => "call"@,
        ReferenceKind::Import => "import"@,
        ReferenceKind::Unknown => "unknown"@,
    }
}

/// The name a reference kind is stored under.
pub fn reference_kind_name(kind: ReferenceKind) -> (r: &'static str)
    ensures
        r@ == spec_reference_kind_name(kind),
{
    match kind {
        ReferenceKind::Read => "read",
        ReferenceKind::Write => "write",
        ReferenceKind::Call => "call",
        ReferenceKind::Import => "import",
        ReferenceKind::Unknown => "unknown",
    }
}

/// `symbol:<repository>:<path>:<name>:<start byte>:<index>`.
pub open spec fn spec_symbol_id(repository: Seq<char>, path: Seq<char>, name: Seq<char>, start: nat, index: nat) -> Seq<char> {
    seq!['s', 'y', 'm', 'b', 'o', 'l', ':'] + repository + seq![':'] + path + seq![':'] + name + seq![':']
        + spec_decimal(start) + seq![':'] + spec_decimal(index)
}

/// The stable id of the `index`-th symbol of a file: it names the repository, so the same
/// symbol in two repositories gets two ids.
pub fn symbol_id(repository_name: &str, relative_path: &str, name: &str, start_byte: usize, index: usize) -> (r: String)
    ensures
        r@ == spec_symbol_id(repository_name@, relative_path@, name@, start_byte as nat, index as nat),
{
    let mut r = String::new();
    let colon = vec![':'];
    append_chars(&mut r, vec!['s', 'y', 'm', 'b', 'o', 'l', ':'].as_slice());
    append_chars(&mut r, chars_of(repository_name).as_slice());
    append_chars(&mut r, colon.as_slice());
    append_chars(&mut r, chars_of(relative_path).as_slice());
    append_chars(&mut r, colon.as_slice());
    append_chars(&mut r, chars_of(name).as_slice());
    append_chars(&mut r, colon.as_slice());
    let s = decimal(start_byte as u64);
    append_chars(&mut r, chars_of(s.as_str()).as_slice());
    append_chars(&mut r, colon.as_slice());
    let i = decimal(index as u64);
    append_chars(&mut r, chars_of(i.as_str()).as_slice());
    r
}

/// The SHA-256 digest of the bytes, in lowercase hexadecimal.
pub fn hash_bytes(bytes: &[u8]) -> (r: String)
    ensures
        r@ == sha256_hex(bytes@),
        r@.len() == 64,
{
    sha256_hex_of(bytes)
}

} // verus!

verus! {

// ----- chunks of source text for full-text search -----

/// The most bytes a chunk holds before a new one starts at the next character.
pub const MAX_CHUNK_BYTES: usize = 1200;

/// The chunks closed while reading the first `n` bytes, and where the open chunk starts:
/// a chunk closes at the first character start at least `MAX_CHUNK_BYTES` past its own.
pub open spec fn chunk_acc(b: Seq<u8>, n: int) -> (Seq<(int, int)>, int)
    decreases n,
{
    if n <= 0 {
        (Seq::empty(), 0)
    } else {
        let (rs, st) = chunk_acc(b, n - 1);
        let off = n - 1;
        if vstd::utf8::is_char_boundary(b, off) && off - st >= MAX_CHUNK_BYTES {
            (rs.push((st, off)), off)
        } else {
            (rs, st)
        }
    }
}

/// The byte ranges a source is cut into; an empty source is one empty chunk.
pub open spec fn spec_chunk_ranges(b: Seq<u8>) -> Seq<(int, int)> {
    if b.len() == 0 {
        seq![(0int, 0int)]
    } else {
        let (rs, st) = chunk_acc(b, b.len() as int);
        rs.push((st, b.len() as int))
    }
}

proof fn lemma_chunk_acc_bounds(b: Seq<u8>, n: int)
    requires
        0 <= n,
    ensures
        0 <= chunk_acc(b, n).1 <= n,
    decreases n,
{
    if n > 0 {
        lemma_chunk_acc_bounds(b, n - 1);
    }
}

/// Cuts a source into byte ranges for the full-text index: each range ends at a character
/// start and, but for the last, is at least `MAX_CHUNK_BYTES` long.
pub fn chunk_ranges(source: &str) -> (r: Vec<(usize, usize)>)
    ensures
        r@.len() == spec_chunk_ranges(source.spec_bytes()).len(),
        forall|k: int|
            0 <= k < r@.len() ==> (#[trigger] r@[k]).0 as int == spec_chunk_ranges(source.spec_bytes())[k].0
                && r@[k].1 as int == spec_chunk_ranges(source.spec_bytes())[k].1,
{
    let bytes = source.as_bytes();
    let ghost b = source.spec_bytes();
    assert(bytes@ == b);
    assert(b == vstd::utf8::encode_utf8(source@));
    let len = bytes.len();
    if len == 0 {
        let r = vec![(0usize, 0usize)];
        return r;
    }
    let mut ranges: Vec<(usize, usize)> = Vec::new();
    let mut start: usize = 0;
    let mut i: usize = 0;
    while i < len
        invariant
            len == b.len(),
            bytes@ == b,
            b == vstd::utf8::encode_utf8(source@),
            i <= len,
            start as int == chunk_acc(b, i as int).1,
            start <= i,
            ranges@.len() == chunk_acc(b, i as int).0.len(),
            forall|k: int|
                0 <= k < ranges@.len() ==> (#[trigger] ranges@[k]).0 as int == chunk_acc(b, i as int).0[k].0
                    && ranges@[k].1 as int == chunk_acc(b, i as int).0[k].1,
        decreases len - i,
    {
        proof {
            lemma_chunk_acc_bounds(b, i as int);
        }
        let byte = bytes[i];
        let boundary = !(0x80 <= byte && byte <= 0xbf);
        proof {
            vstd::utf8::encode_utf8_valid_utf8(source@);
            vstd::utf8::is_char_boundary_iff_not_is_continuation_byte(b, i as int);
        }
        if boundary && i - start >= MAX_CHUNK_BYTES {
            ranges.push((start, i));
            start = i;
        }
        i = i + 1;
    }
    ranges.push((start, len));
    ranges
}

/// The chunks cover the whole source, in order and without gaps: the first starts at 0,
/// each starts where the one before ended, the last ends at the source's end; every cut is
/// at a character start, and every chunk but the last is at least `MAX_CHUNK_BYTES` long.
pub proof fn chunks_tile_the_source(b: Seq<u8>)
    ensures
        spec_chunk_ranges(b).len() >= 1,
        spec_chunk_ranges(b)[0].0 == 0,
        spec_chunk_ranges(b).last().1 == b.len(),
        forall|k: int|
            0 <= k < spec_chunk_ranges(b).len() - 1 ==> #[trigger] spec_chunk_ranges(b)[k].1 == spec_chunk_ranges(b)[k + 1].0,
        forall|k: int|
            0 <= k < spec_chunk_ranges(b).len() - 1 ==> #[trigger] spec_chunk_ranges(b)[k].1 - spec_chunk_ranges(b)[k].0 >= MAX_CHUNK_BYTES,
        forall|k: int|
            0 <= k < spec_chunk_ranges(b).len() ==> #[trigger] spec_chunk_ranges(b)[k].0 <= spec_chunk_ranges(b)[k].1,
        forall|k: int|
            0 <= k < spec_chunk_ranges(b).len() - 1 ==> vstd::utf8::is_char_boundary(b, #[trigger] spec_chunk_ranges(b)[k].1),
{
    if b.len() > 0 {
        lemma_chunk_acc_tiles(b, b.len() as int);
        let (rs, st) = chunk_acc(b, b.len() as int);
        lemma_chunk_acc_bounds(b, b.len() as int);
        let r = spec_chunk_ranges(b);
        assert(r == rs.push((st, b.len() as int)));
        assert forall|k: int| 0 <= k < r.len() - 1 implies #[trigger] r[k].1 == r[k + 1].0 by {
            if k + 1 < rs.len() {
            } else {
                assert(r[k + 1] == (st, b.len() as int));
            }
        }
        assert forall|k: int| 0 <= k < r.len() implies #[trigger] r[k].0 <= r[k].1 by {
            if k < rs.len() {
            }
        }
        if rs.len() == 0 {
            assert(r[0] == (st, b.len() as int));
        }
    }
}

proof fn lemma_chunk_acc_tiles(b: Seq<u8>, n: int)
    requires
        0 <= n,
    ensures
        ({
            let (rs, st) = chunk_acc(b, n);
            &&& rs.len() > 0 ==> rs[0].0 == 0 && rs.last().1 == st
            &&& rs.len() == 0 ==> st == 0
            &&& forall|k: int| 0 <= k < rs.len() - 1 ==> #[trigger] rs[k].1 == rs[k + 1].0
            &&& forall|k: int| 0 <= k < rs.len() ==> #[trigger] rs[k].1 - rs[k].0 >= MAX_CHUNK_BYTES
            &&& forall|k: int| 0 <= k < rs.len() ==> vstd::utf8::is_char_boundary(b, #[trigger] rs[k].1)
        }),
    decreases n,
{
    if n > 0 {
        lemma_chunk_acc_tiles(b, n - 1);
        let (rs, st) = chunk_acc(b, n - 1);
        let (rs2, st2) = chunk_acc(b, n);
        if vstd::utf8::is_char_boundary(b, n - 1) && (n - 1) - st >= MAX_CHUNK_BYTES {
            assert(rs2 == rs.push((st, n - 1)));
            assert forall|k: int| 0 <= k < rs2.len() - 1 implies #[trigger] rs2[k].1 == rs2[k + 1].0 by {
                if k + 1 < rs.len() {
                    assert(rs2[k] == rs[k] && rs2[k + 1] == rs[k + 1]);
                } else {
                    assert(rs2[k] == rs[k]);
                }
            }
            assert forall|k: int| 0 <= k < rs2.len() implies #[trigger] rs2[k].1 - rs2[k].0 >= MAX_CHUNK_BYTES by {
                if k < rs.len() {
                    assert(rs2[k] == rs[k]);
                }
            }
            assert forall|k: int| 0 <= k < rs2.len() implies vstd::utf8::is_char_boundary(b, #[trigger] rs2[k].1) by {
                if k < rs.len() {
                    assert(rs2[k] == rs[k]);
                }
            }
        }
    }
}

} // verus!

verus! {

// ----- reading a symbol's text -----

/// The text between two byte offsets when both fall on character starts in order
/// (`str::get`), and empty otherwise.
pub open spec fn spec_symbol_source(source: Seq<char>, start: int, end: int) -> Seq<char> {
    let b = vstd::utf8::encode_utf8(source);
    if start <= end <= b.len() && vstd::utf8::is_char_boundary(b, start) && vstd::utf8::is_char_boundary(b, end) {
        vstd::utf8::decode_utf8(b.subrange(start, end))
    } else {
        Seq::empty()
    }
}

fn boundary_at(bytes: &[u8], i: usize) -> (r: bool)
    requires
        vstd::utf8::valid_utf8(bytes@),
    ensures
        r == vstd::utf8::is_char_boundary(bytes@, i as int),
{
    proof {
        vstd::utf8::is_char_boundary_start_end_of_seq(bytes@);
    }
    if i > bytes.len() {
        return false;
    }
    if i == bytes.len() {
        return true;
    }
    proof {
        vstd::utf8::is_char_boundary_iff_not_is_continuation_byte(bytes@, i as int);
    }
    let byte = bytes[i];
    !(0x80 <= byte && byte <= 0xbf)
}

/// The source text of a symbol's byte span, or an empty string when the span does not fall
/// on character starts within the source.
pub fn symbol_source(source: &str, start: usize, end: usize) -> (r: String)
    ensures
        r@ == spec_symbol_source(source@, start as int, end as int),
{
    let bytes = source.as_bytes();
    let ghost b = vstd::utf8::encode_utf8(source@);
    proof {
        vstd::utf8::encode_utf8_valid_utf8(source@);
    }
    if !(start <= end && end <= bytes.len() && boundary_at(bytes, start) && boundary_at(bytes, end)) {
        return String::new();
    }
    let (head, _) = source.split_at(end);
    proof {
        vstd::utf8::valid_utf8_split(b, end as int);
        vstd::utf8::encode_utf8_valid_utf8(head@);
        assert(head.spec_bytes() =~= b.subrange(0, end as int));
        if start < end {
            vstd::utf8::is_char_boundary_iff_not_is_continuation_byte(b, start as int);
            vstd::utf8::is_char_boundary_iff_not_is_continuation_byte(head.spec_bytes(), start as int);
        } else {
            vstd::utf8::is_char_boundary_start_end_of_seq(head.spec_bytes());
        }
    }
    let (_, piece) = head.split_at(start);
    proof {
        assert(piece.spec_bytes() =~= b.subrange(start as int, end as int));
        vstd::utf8::encode_utf8_decode_utf8(piece@);
    }
    piece.to_owned()
}

} // verus!

verus! {

// ----- the public API of a file -----

/// `exported:local` (the local name empty when there is none).
pub open spec fn export_entry(e: crate::analyzer::Export) -> Seq<char> {
    e.exported_name@ + seq![':'] + match e.local_name {
        Some(l) => l@,
        None => Seq::empty(),
    }
}

/// The `exported:local` entries of a file's exports, in the order of the exports.
pub open spec fn export_entries(exports: Seq<crate::analyzer::Export>) -> Seq<Seq<char>> {
    exports.map_values(|e: crate::analyzer::Export| export_entry(e))
}

/// The export entries in sorted order (there is exactly one such arrangement).
pub open spec fn sorted_export_entries(exports: Seq<crate::analyzer::Export>) -> Seq<Seq<char>> {
    choose|sorted: Seq<Seq<char>>|
        sorted.to_multiset() == export_entries(exports).to_multiset() && crate::paths::sorted_strings(sorted)
}

/// The digest of a file's public API: the SHA-256 of its sorted export entries, one per
/// line.
pub open spec fn spec_public_api_hash(exports: Seq<crate::analyzer::Export>) -> Seq<char> {
    sha256_hex(vstd::utf8::encode_utf8(crate::text::join(sorted_export_entries(exports), seq!['\n'])))
}

/// The digest of a file's exports: their `exported:local` entries sorted, one per line.
/// Exports that are only reordered give the same digest.
pub fn public_api_hash(exports: &Vec<crate::analyzer::Export>) -> (r: String)
    ensures
        r@ == spec_public_api_hash(exports@),
{
    let mut entries: Vec<String> = Vec::new();
    let mut i: usize = 0;
    while i < exports.len()
        invariant
            i <= exports@.len(),
            crate::text::string_views(entries@) == exports@.take(i as int).map_values(
                |e: crate::analyzer::Export| export_entry(e),
            ),
        decreases exports@.len() - i,
    {
        let e = &exports[i];
        let mut s = e.exported_name.clone();
        crate::text::push_char(&mut s, ':');
        match &e.local_name {
            Some(l) => append_chars(&mut s, chars_of(l.as_str()).as_slice()),
            None => {},
        }
        assert(s@ =~= export_entry(*e));
        let ghost before = entries@;
        entries.push(s);
        i = i + 1;
        assert(crate::text::string_views(entries@) =~= crate::text::string_views(before).push(export_entry(*e)));
        assert(exports@.take(i as int).map_values(|e: crate::analyzer::Export| export_entry(e)) =~= exports@.take(
            i - 1,
        ).map_values(|e: crate::analyzer::Export| export_entry(e)).push(export_entry(*e)));
    }
    assert(exports@.take(exports@.len() as int) =~= exports@);
    let sorted = crate::paths::sort_strings(&entries);
    let nl = vec!['\n'];
    assert(nl@ == seq!['\n']);
    let joined = crate::text::join_strings(&sorted, nl.as_slice());
    let js = joined.as_str();
    let jb = js.as_bytes();
    assert(jb@ == vstd::utf8::encode_utf8(joined@));
    let r = hash_bytes(jb);
    proof {
        let ours = crate::text::string_views(sorted@);
        assert(crate::paths::sorted_strings(ours));
        assert(crate::text::string_views(entries@) =~= export_entries(exports@));
        let chosen = sorted_export_entries(exports@);
        crate::paths::sorted_strings_unique(chosen, ours);
    }
    r
}

/// A file's public-API digest depends only on which exports it has, not on their order:
/// two export lists with the same entries, each as often, have the same digest.
pub proof fn public_api_hash_ignores_order(a: Seq<crate::analyzer::Export>, b: Seq<crate::analyzer::Export>)
    requires
        export_entries(a).to_multiset() == export_entries(b).to_multiset(),
    ensures
        spec_public_api_hash(a) == spec_public_api_hash(b),
{
}

} // verus!

verus! {

/// Where the index of a repository root lives under a data directory:
/// `<data dir>/projects/<first 24 hex digits of the root's SHA-256>/index.sqlite`.
pub open spec fn spec_index_path(canonical_root: Seq<char>, data_dir: Seq<char>) -> Seq<char> {
    let id = sha256_hex(vstd::utf8::encode_utf8(canonical_root)).take(24);
    crate::paths::spec_join_path(
        crate::paths::spec_join_path(crate::paths::spec_join_path(data_dir, "projects"@), id),
        "index.sqlite"@,
    )
}

impl IndexStore {
    /// The index database of a repository root under `data_dir`. The root is taken in its
    /// canonical form (as the caller obtained it), so every spelling of one directory shares
    /// one index.
    pub fn path_in_data_dir(canonical_root: &str, data_dir: &str) -> (r: String)
        ensures
            r@ == spec_index_path(canonical_root@, data_dir@),
    {
        let hash = hash_bytes(canonical_root.as_bytes());
        let hc = chars_of(hash.as_str());
        let id = string_of(crate::text::take_prefix(hc.as_slice(), 24).as_slice());
        let projects = crate::paths::join_path(data_dir, "projects");
        let dir = crate::paths::join_path(projects.as_str(), id.as_str());
        crate::paths::join_path(dir.as_str(), "index.sqlite")
    }
}

} // verus!

verus! {

// ----- the status of an index -----

/// What an index database says of itself, as read from it.
#[derive(Debug, Clone, PartialEq, Eq)]
pub struct IndexFacts {
    /// The stored `schema_version` entry, if any.
    pub schema_version: Option<String>,
    pub file_count: usize,
    pub symbol_count: usize,
    pub diagnostic_count: usize,
    /// The counts of stale and of missing files, when the database keeps file states.
    pub state_counts: Option<(usize, usize)>,
    /// The stored `git_available`, `git_head`, `git_branch`, `git_dirty` and
    /// `git_dirty_file_count` entries, if any.
    pub git_available: Option<String>,
    pub git_head: Option<String>,
    pub git_branch: Option<String>,
    pub git_dirty: Option<String>,
    pub git_dirty_file_count: Option<String>,
}

/// Whether a stored entry is the text `true`.
pub open spec fn is_true_entry(o: Option<String>) -> bool {
    o matches Some(v) && v@ == "true"@
}

fn true_entry(o: &Option<String>) -> (r: bool)
    ensures
        r == is_true_entry(*o),
{
    match o {
        Some(v) => chars_eq(chars_of(v.as_str()).as_slice(), chars_of("true").as_slice()),
        None => false,
    }
}

/// The schema version an index was stored with; an entry that is missing or not a number
/// reads as 0.
pub open spec fn stored_schema_version(o: Option<String>) -> i64 {
    match o {
        Some(v) => match crate::text::spec_parse_i64(v@) {
            Some(n) => n,
            None => 0,
        },
        None => 0,
    }
}

/// The stored count of changed files; an entry that is missing or not a count reads as 0.
pub open spec fn stored_dirty_count(o: Option<String>) -> usize {
    match o {
        Some(v) => match crate::text::spec_parse_usize(v@) {
            Some(n) => n,
            None => 0,
        },
        None => 0,
    }
}

impl IndexStore {
    /// The status of the index database at `database_path`, given what it holds (`None`
    /// when there is no database file): an index is current when its schema is this
    /// version's; the snapshot's commit and branch count only when git was available.
    pub fn status_at(database_path: &str, found: Option<IndexFacts>) -> (r: IndexStatus)
        ensures
            r.database_path@ == database_path@,
            !r.snapshot_stale,
            found is None ==> {
                &&& !r.indexed
                &&& r.schema_version == 0
                &&& r.file_count == 0 && r.symbol_count == 0 && r.diagnostic_count == 0
                &&& r.stale_count == 0 && r.missing_count == 0
                &&& r.snapshot_head is None && r.snapshot_branch is None
                &&& !r.working_tree_dirty && r.dirty_file_count == 0
            },
            found matches Some(f) ==> {
                &&& r.schema_version == stored_schema_version(f.schema_version)
                &&& r.indexed == (r.schema_version == SCHEMA_VERSION)
                &&& r.file_count == f.file_count
                &&& r.symbol_count == f.symbol_count
                &&& r.diagnostic_count == f.diagnostic_count
                &&& r.stale_count == (match f.state_counts { Some(c) => c.0, None => 0 })
                &&& r.missing_count == (match f.state_counts { Some(c) => c.1, None => 0 })
                &&& r.snapshot_head == (if is_true_entry(f.git_available) { f.git_head } else { None })
                &&& r.snapshot_branch == (if is_true_entry(f.git_available) { f.git_branch } else { None })
                &&& r.working_tree_dirty == is_true_entry(f.git_dirty)
                &&& r.dirty_file_count == stored_dirty_count(f.git_dirty_file_count)
            },
    {
        match found {
            None => IndexStatus {
                indexed: false,
                database_path: database_path.to_owned(),
                schema_version: 0,
                file_count: 0,
                symbol_count: 0,
                diagnostic_count: 0,
                stale_count: 0,
                missing_count: 0,
                snapshot_head: None,
                snapshot_branch: None,
                working_tree_dirty: false,
                dirty_file_count: 0,
                snapshot_stale: false,
            },
            Some(f) => {
                let schema_version = match &f.schema_version {
                    Some(v) => match crate::text::parse_i64(v.as_str()) {
                        Some(n) => n,
                        None => 0,
                    },
                    None => 0,
                };
                let (stale_count, missing_count) = match f.state_counts {
                    Some(c) => c,
                    None => (0, 0),
                };
                let git_available = true_entry(&f.git_available);
                let working_tree_dirty = true_entry(&f.git_dirty);
                let dirty_file_count = match &f.git_dirty_file_count {
                    Some(v) => match crate::text::parse_usize(v.as_str()) {
                        Some(n) => n,
                        None => 0,
                    },
                    None => 0,
                };
                IndexStatus {
                    indexed: schema_version == SCHEMA_VERSION,
                    database_path: database_path.to_owned(),
                    schema_version,
                    file_count: f.file_count,
                    symbol_count: f.symbol_count,
                    diagnostic_count: f.diagnostic_count,
                    stale_count,
                    missing_count,
                    snapshot_head: if git_available { f.git_head } else { None },
                    snapshot_branch: if git_available { f.git_branch } else { None },
                    working_tree_dirty,
                    dirty_file_count,
                    snapshot_stale: false,
                }
            },
        }
    }
}

// ----- reading one symbol -----

/// A stored symbol with the source of its file, as the index returns it for an id.
#[derive(Debug, Clone, PartialEq, Eq)]
pub struct StoredSymbol {
    pub symbol_id: String,
    pub name: String,
    pub kind: String,
    pub relative_path: String,
    pub start_byte: usize,
    pub end_byte: usize,
    pub file_source: String,
}

/// `r` says that no fresh symbol has the id `symbol_id`.
pub open spec fn symbol_not_found<T>(r: Result<T, AstralError>, symbol_id: Seq<char>) -> bool {
    r matches Err(AstralError::Indexing { message: m }) && m@ == "symbol not found: "@ + symbol_id
}

impl IndexStore {
    /// The symbol with the id `symbol_id` and its source text, given `stored`, the symbol
    /// the index holds under that id in a fresh file, if any.
    pub fn read_symbol_at(symbol_id: &str, stored: Option<StoredSymbol>) -> (r: Result<ReadSymbolResult, AstralError>)
        ensures
            stored is None ==> symbol_not_found(r, symbol_id@),
            stored matches Some(s) ==> (r matches Ok(res) && {
                &&& res.symbol_id == s.symbol_id
                &&& res.name == s.name
                &&& res.kind == s.kind
                &&& res.relative_path == s.relative_path
                &&& res.source@ == spec_symbol_source(s.file_source@, s.start_byte as int, s.end_byte as int)
            }),
    {
        match stored {
            None => {
                let mut message = String::new();
                append_chars(&mut message, chars_of("symbol not found: ").as_slice());
                append_chars(&mut message, chars_of(symbol_id).as_slice());
                Err(AstralError::Indexing { message })
            },
            Some(s) => {
                let source = symbol_source(s.file_source.as_str(), s.start_byte, s.end_byte);
                Ok(ReadSymbolResult {
                    symbol_id: s.symbol_id,
                    name: s.name,
                    kind: s.kind,
                    relative_path: s.relative_path,
                    source,
                })
            },
        }
    }
}

} // verus!

verus! {

// ----- the records a file is stored as -----

/// A file's own record in the index.
#[derive(Debug, Clone, PartialEq, Eq)]
pub struct FileRecord {
    pub relative_path: String,
    pub language: String,
    pub content_hash: String,
    pub public_api_hash: String,
    pub size_bytes: usize,
}

/// One chunk of a file's source, for full-text search.
#[derive(Debug, Clone, PartialEq, Eq)]
pub struct ChunkRecord {
    pub start_byte: usize,
    pub end_byte: usize,
    pub content: String,
}

/// What the index stores of one analyzed file, beyond the analysis itself: the file's
/// record, the id of each symbol (in the analysis's order), and the source's chunks.
#[derive(Debug, Clone, PartialEq, Eq)]
pub struct FileRecords {
    pub file: FileRecord,
    pub symbol_ids: Vec<String>,
    pub chunks: Vec<ChunkRecord>,
}

/// The records of a scanned file and its analysis in the repository `repository_name`:
/// the file under its `/`-separated path with the SHA-256 of its contents and of its public
/// API, its symbols' ids, and its source cut into chunks.
pub fn file_records(
    repository_name: &str,
    file: &crate::scanner::SourceFile,
    analysis: &crate::analyzer::AnalysisResult,
) -> (r: FileRecords)
    ensures
        r.file.relative_path@ == crate::incremental::spec_relative_path(file.relative_path@),
        r.file.language@ == file.language@,
        r.file.content_hash@ == sha256_hex(vstd::utf8::encode_utf8(file.source@)),
        r.file.public_api_hash@ == spec_public_api_hash(analysis.exports@),
        r.file.size_bytes == vstd::utf8::encode_utf8(file.source@).len(),
        r.symbol_ids@.len() == analysis.symbols@.len(),
        forall|i: int|
            0 <= i < r.symbol_ids@.len() ==> (#[trigger] r.symbol_ids@[i])@ == spec_symbol_id(
                repository_name@,
                crate::incremental::spec_relative_path(file.relative_path@),
                analysis.symbols@[i].name@,
                analysis.symbols@[i].range.start_byte as nat,
                i as nat,
            ),
        r.chunks@.len() == spec_chunk_ranges(vstd::utf8::encode_utf8(file.source@)).len(),
        forall|k: int|
            0 <= k < r.chunks@.len() ==> {
                let range = spec_chunk_ranges(vstd::utf8::encode_utf8(file.source@))[k];
                &&& (#[trigger] r.chunks@[k]).start_byte == range.0
                &&& r.chunks@[k].end_byte == range.1
                &&& r.chunks@[k].content@ == spec_symbol_source(file.source@, range.0, range.1)
            },
{
    let path = crate::incremental::relative_path(file.relative_path.as_str());
    let source = file.source.as_str();
    let bytes = source.as_bytes();
    assert(bytes@ == vstd::utf8::encode_utf8(file.source@));
    let content_hash = hash_bytes(bytes);
    let api = public_api_hash(&analysis.exports);
    let mut symbol_ids: Vec<String> = Vec::new();
    let mut i: usize = 0;
    while i < analysis.symbols.len()
        invariant
            i <= analysis.symbols@.len(),
            path@ == crate::incremental::spec_relative_path(file.relative_path@),
            symbol_ids@.len() == i,
            forall|j: int|
                0 <= j < i ==> (#[trigger] symbol_ids@[j])@ == spec_symbol_id(
                    repository_name@,
                    path@,
                    analysis.symbols@[j].name@,
                    analysis.symbols@[j].range.start_byte as nat,
                    j as nat,
                ),
        decreases analysis.symbols@.len() - i,
    {
        let s = &analysis.symbols[i];
        let id = symbol_id(repository_name, path.as_str(), s.name.as_str(), s.range.start_byte, i);
        symbol_ids.push(id);
        i = i + 1;
    }
    let ranges = chunk_ranges(source);
    let ghost spec_ranges = spec_chunk_ranges(vstd::utf8::encode_utf8(file.source@));
    let mut chunks: Vec<ChunkRecord> = Vec::new();
    let mut k: usize = 0;
    while k < ranges.len()
        invariant
            k <= ranges@.len(),
            ranges@.len() == spec_ranges.len(),
            spec_ranges == spec_chunk_ranges(vstd::utf8::encode_utf8(file.source@)),
            source@ == file.source@,
            forall|m: int|
                0 <= m < ranges@.len() ==> (#[trigger] ranges@[m]).0 as int == spec_ranges[m].0
                    && ranges@[m].1 as int == spec_ranges[m].1,
            chunks@.len() == k,
            forall|m: int|
                0 <= m < k ==> {
                    &&& (#[trigger] chunks@[m]).start_byte == spec_ranges[m].0
                    &&& chunks@[m].end_byte == spec_ranges[m].1
                    &&& chunks@[m].content@ == spec_symbol_source(file.source@, spec_ranges[m].0, spec_ranges[m].1)
                },
        decreases ranges@.len() - k,
    {
        let (start, end) = ranges[k];
        let content = symbol_source(source, start, end);
        chunks.push(ChunkRecord { start_byte: start, end_byte: end, content });
        k = k + 1;
    }
    FileRecords {
        file: FileRecord {
            relative_path: path,
            language: file.language.clone(),
            content_hash,
            public_api_hash: api,
            size_bytes: bytes.len(),
        },
        symbol_ids,
        chunks,
    }
}

/// The name a diagnostic's severity is stored under.
pub open spec fn spec_severity_name(severity: crate::analyzer::DiagnosticSeverity) -> Seq<char> {
    match severity {
        crate::analyzer::DiagnosticSeverity::Error => "Error"@,
        crate::analyzer::DiagnosticSeverity::Warning => "Warning"@,
        crate::analyzer::DiagnosticSeverity::Info => "Info"@,
    }
}

/// The name a diagnostic's severity is stored under.
pub fn severity_name(severity: crate::analyzer::DiagnosticSeverity) -> (r: &'static str)
    ensures
        r@ == spec_severity_name(severity),
{
    match severity {
        crate::analyzer::DiagnosticSeverity::Error => "Error",
        crate::analyzer::DiagnosticSeverity::Warning => "Warning",
        crate::analyzer::DiagnosticSeverity::Info => "Info",
    }
}

} // verus!

verus! {

// ----- the metadata of an index -----

/// `true` or `false`, as a bool prints.
pub open spec fn bool_text(b: bool) -> Seq<char> {
    if b {
        "true"@
    } else {
        "false"@
    }
}

fn bool_string(b: bool) -> (r: String)
    ensures
        r@ == bool_text(b),
{
    if b {
        "true".to_owned()
    } else {
        "false".to_owned()
    }
}

/// The text of an optional value, empty when there is none.
pub open spec fn text_or_empty(o: Option<String>) -> Seq<char> {
    match o {
        Some(s) => s@,
        None => Seq::empty(),
    }
}

fn string_or_empty(o: &Option<String>) -> (r: String)
    ensures
        r@ == text_or_empty(*o),
{
    match o {
        Some(s) => s.clone(),
        None => String::new(),
    }
}

/// The metadata entries a fresh index is stored with, in order: its schema and indexer
/// versions, the repository name, and the git snapshot (values that are absent stored as
/// empty text).
pub open spec fn spec_metadata_entries(repository_name: Seq<char>, git: crate::git::GitSnapshot) -> Seq<(Seq<char>, Seq<char>)> {
    seq![
        ("schema_version"@, spec_decimal(SCHEMA_VERSION as nat)),
        ("indexer_version"@, "phase-5-git"@),
        ("repository_name"@, repository_name),
        ("git_available"@, bool_text(git.available)),
        ("git_head"@, text_or_empty(git.head)),
        ("git_branch"@, text_or_empty(git.branch)),
        ("git_dirty"@, bool_text(git.dirty)),
        ("git_dirty_file_count"@, spec_decimal(git.dirty_file_count as nat)),
        ("git_worktree_hash"@, text_or_empty(git.worktree_hash)),
    ]
}

/// The metadata entries of an index built for `repository_name` from the snapshot `git`.
pub fn metadata_entries(repository_name: &str, git: &crate::git::GitSnapshot) -> (r: Vec<(String, String)>)
    ensures
        r@.len() == 9,
        forall|i: int|
            0 <= i < 9 ==> (#[trigger] r@[i]).0@ == spec_metadata_entries(repository_name@, *git)[i].0
                && r@[i].1@ == spec_metadata_entries(repository_name@, *git)[i].1,
{
    let mut r: Vec<(String, String)> = Vec::new();
    r.push(("schema_version".to_owned(), decimal(SCHEMA_VERSION as u64)));
    r.push(("indexer_version".to_owned(), "phase-5-git".to_owned()));
    r.push(("repository_name".to_owned(), repository_name.to_owned()));
    r.push(("git_available".to_owned(), bool_string(git.available)));
    r.push(("git_head".to_owned(), string_or_empty(&git.head)));
    r.push(("git_branch".to_owned(), string_or_empty(&git.branch)));
    r.push(("git_dirty".to_owned(), bool_string(git.dirty)));
    r.push(("git_dirty_file_count".to_owned(), decimal(git.dirty_file_count as u64)));
    r.push(("git_worktree_hash".to_owned(), string_or_empty(&git.worktree_hash)));
    r
}

} // verus!

verus! {

/// Symbols of two repositories never share an id: an id names its repository, and a valid
/// repository name holds no `:`, so the name can be read back from the id.
pub proof fn symbol_ids_are_namespaced_by_repository(
    repo_a: Seq<char>,
    repo_b: Seq<char>,
    path_a: Seq<char>,
    path_b: Seq<char>,
    name_a: Seq<char>,
    name_b: Seq<char>,
    start_a: nat,
    start_b: nat,
    index_a: nat,
    index_b: nat,
)
    requires
        crate::repository::valid_repository_name(repo_a),
        crate::repository::valid_repository_name(repo_b),
        repo_a != repo_b,
    ensures
        spec_symbol_id(repo_a, path_a, name_a, start_a, index_a) != spec_symbol_id(
            repo_b,
            path_b,
            name_b,
            start_b,
            index_b,
        ),
{
    let x = spec_symbol_id(repo_a, path_a, name_a, start_a, index_a);
    let y = spec_symbol_id(repo_b, path_b, name_b, start_b, index_b);
    let head = seq!['s', 'y', 'm', 'b', 'o', 'l', ':'];
    let tail_a = seq![':'] + path_a + seq![':'] + name_a + seq![':'] + spec_decimal(start_a) + seq![':']
        + spec_decimal(index_a);
    let tail_b = seq![':'] + path_b + seq![':'] + name_b + seq![':'] + spec_decimal(start_b) + seq![':']
        + spec_decimal(index_b);
    assert(x =~= head + repo_a + tail_a);
    assert(y =~= head + repo_b + tail_b);
    if x == y {
        if exists|i: int| 0 <= i < repo_a.len() && i < repo_b.len() && repo_a[i] != repo_b[i] {
            let i = choose|i: int| 0 <= i < repo_a.len() && i < repo_b.len() && repo_a[i] != repo_b[i];
            assert(x[7 + i] == repo_a[i]);
            assert(y[7 + i] == repo_b[i]);
        } else if repo_a.len() < repo_b.len() {
            let i = repo_a.len() as int;
            assert(x[7 + i] == ':');
            assert(y[7 + i] == repo_b[i]);
            assert(crate::repository::name_char(repo_b[i]));
        } else if repo_b.len() < repo_a.len() {
            let i = repo_b.len() as int;
            assert(y[7 + i] == ':');
            assert(x[7 + i] == repo_a[i]);
            assert(crate::repository::name_char(repo_a[i]));
        } else {
            assert(repo_a =~= repo_b);
        }
    }
}

} // verus!
