use vstd::prelude::*;

use crate::paths::{components, components_exec, path_less, path_lt, PathPart, SpecPart};
use crate::text::{chars_eq, chars_of, ends_with, ends_with_exec, lower, lower_all, starts_with, starts_with_exec};

verus! {

// ----- names of files -----

/// The last component of a path, when it is a name (as `Path::file_name` gives it).
pub open spec fn spec_file_name(p: Seq<char>) -> Option<Seq<char>> {
    let cs = components(p);
    if cs.len() == 0 {
        None
    } else {
        match cs.last() {
            SpecPart::Normal(name) => Some(name),
            _ => None,
        }
    }
}

/// The index of the last `.` among the first `n` characters, or -1.
pub open spec fn last_dot(name: Seq<char>, n: int) -> int
    decreases n,
{
    if n <= 0 {
        -1
    } else if name[n - 1] == '.' {
        n - 1
    } else {
        last_dot(name, n - 1)
    }
}

/// The extension of a file name, as `Path::extension` gives it: what follows the last `.`,
/// unless that `.` is the name's first character or the name has none.
pub open spec fn spec_extension(name: Seq<char>) -> Option<Seq<char>> {
    let i = last_dot(name, name.len() as int);
    if i <= 0 {
        None
    } else {
        Some(name.subrange(i + 1, name.len() as int))
    }
}

/// The file name of a path.
pub fn file_name(path: &str) -> (r: Option<Vec<char>>)
    ensures
        match r {
            Some(n) => spec_file_name(path@) == Some(n@),
            None => spec_file_name(path@) is None,
        },
{
    let cs = chars_of(path);
    let parts = components_exec(cs.as_slice());
    proof {
        assert(parts@.map_values(|x: PathPart| x@).len() == parts@.len());
    }
    if parts.len() == 0 {
        return None;
    }
    let last = &parts[parts.len() - 1];
    proof {
        assert(parts@.map_values(|x: PathPart| x@).last() == parts@.last()@);
    }
    match last {
        PathPart::Normal(name) => Some(crate::text::take_prefix(name.as_slice(), name.len())),
        _ => None,
    }
}

/// The extension of a file name.
pub fn extension(name: &[char]) -> (r: Option<Vec<char>>)
    ensures
        match r {
            Some(e) => spec_extension(name@) == Some(e@),
            None => spec_extension(name@) is None,
        },
{
    let mut i: usize = name.len();
    while i > 0 && name[i - 1] != '.'
        invariant
            i <= name@.len(),
            last_dot(name@, name@.len() as int) == last_dot(name@, i as int),
        decreases i,
    {
        i = i - 1;
    }
    if i <= 1 {
        return None;
    }
    let dot = i - 1;
    let mut out: Vec<char> = Vec::new();
    let mut k: usize = dot + 1;
    while k < name.len()
        invariant
            dot + 1 <= k <= name@.len(),
            out@ == name@.subrange(dot + 1, k as int),
        decreases name@.len() - k,
    {
        out.push(name[k]);
        k = k + 1;
        assert(out@ =~= name@.subrange(dot + 1, k as int));
    }
    Some(out)
}

// ----- languages -----

/// The extensions of the source files the scanner reads, in lower case.
pub open spec fn supported_extension(e: Seq<char>) -> bool {
    ||| e == "js"@
    ||| e == "jsx"@
    ||| e == "mjs"@
    ||| e == "cjs"@
    ||| e == "ts"@
    ||| e == "tsx"@
    ||| e == "mts"@
    ||| e == "cts"@
}

/// The language of a path: its extension in lower case, when that is a supported one (the
/// extension itself is matched without regard to ASCII case).
pub open spec fn spec_language_for(path: Seq<char>) -> Option<Seq<char>> {
    match spec_file_name(path) {
        Some(name) => match spec_extension(name) {
            Some(e) => if supported_extension(lower(e)) {
                Some(lower(e))
            } else {
                None
            },
            None => None,
        },
        None => None,
    }
}

/// The language of a file: `"js"`, `"jsx"`, `"mjs"`, `"cjs"`, `"ts"`, `"tsx"`, `"mts"` or
/// `"cts"` after its extension, in any ASCII case; `None` for any other file.
pub fn language_for(path: &str) -> (r: Option<&'static str>)
    ensures
        match r {
            Some(language) => spec_language_for(path@) == Some(language@),
            None => spec_language_for(path@) is None,
        },
{
    let name = match file_name(path) {
        Some(name) => name,
        None => return None,
    };
    let ext = match extension(name.as_slice()) {
        Some(ext) => ext,
        None => return None,
    };
    let e = lower_all(ext.as_slice());
    let e = e.as_slice();
    if chars_eq(e, chars_of("js").as_slice()) {
        Some("js")
    } else if chars_eq(e, chars_of("jsx").as_slice()) {
        Some("jsx")
    } else if chars_eq(e, chars_of("mjs").as_slice()) {
        Some("mjs")
    } else if chars_eq(e, chars_of("cjs").as_slice()) {
        Some("cjs")
    } else if chars_eq(e, chars_of("ts").as_slice()) {
        Some("ts")
    } else if chars_eq(e, chars_of("tsx").as_slice()) {
        Some("tsx")
    } else if chars_eq(e, chars_of("mts").as_slice()) {
        Some("mts")
    } else if chars_eq(e, chars_of("cts").as_slice()) {
        Some("cts")
    } else {
        None
    }
}

// ----- what the scanner skips -----

/// The directories the scanner does not enter.
pub open spec fn excluded_directory_name(name: Seq<char>) -> bool {
    ||| name == ".git"@
    ||| name == "node_modules"@
    ||| name == "target"@
    ||| name == "dist"@
    ||| name == "build"@
    ||| name == ".next"@
    ||| name == "coverage"@
}

/// Whether the scanner skips a directory: version-control data, dependencies and build
/// output.
pub fn is_excluded_directory(path: &str) -> (r: bool)
    ensures
        r == (spec_file_name(path@) matches Some(name) && excluded_directory_name(name)),
{
    match file_name(path) {
        None => false,
        Some(name) => {
            let n = name.as_slice();
            chars_eq(n, chars_of(".git").as_slice()) || chars_eq(n, chars_of("node_modules").as_slice())
                || chars_eq(n, chars_of("target").as_slice()) || chars_eq(n, chars_of("dist").as_slice())
                || chars_eq(n, chars_of("build").as_slice()) || chars_eq(n, chars_of(".next").as_slice())
                || chars_eq(n, chars_of("coverage").as_slice())
        },
    }
}

/// Secrets (`.env` files) and generated files (source maps, minified bundles).
pub open spec fn secret_or_generated_name(name: Seq<char>) -> bool {
    ||| starts_with(name, ".env"@)
    ||| ends_with(name, ".map"@)
    ||| ends_with(name, ".min.js"@)
    ||| ends_with(name, ".min.ts"@)
    ||| ends_with(name, ".min.tsx"@)
}

/// Whether the scanner skips a file as a secret or as generated; a path without a file name
/// is judged by the empty name.
pub fn is_secret_or_generated(path: &str) -> (r: bool)
    ensures
        r == secret_or_generated_name(
            match spec_file_name(path@) {
                Some(name) => name,
                None => Seq::empty(),
            },
        ),
{
    let name = match file_name(path) {
        Some(name) => name,
        None => Vec::new(),
    };
    let n = name.as_slice();
    starts_with_exec(n, chars_of(".env").as_slice()) || ends_with_exec(n, chars_of(".map").as_slice())
        || ends_with_exec(n, chars_of(".min.js").as_slice()) || ends_with_exec(
        n,
        chars_of(".min.ts").as_slice(),
    ) || ends_with_exec(n, chars_of(".min.tsx").as_slice())
}

/// The language of a walked entry that the scanner reads, or `None` for one it skips:
/// anything but a file, a secret or generated file, or a file of no supported language.
pub fn source_language(path: &str, is_file: bool) -> (r: Option<&'static str>)
    ensures
        match r {
            Some(language) => {
                &&& is_file
                &&& !secret_or_generated_name(
                    match spec_file_name(path@) {
                        Some(name) => name,
                        None => Seq::empty(),
                    },
                )
                &&& spec_language_for(path@) == Some(language@)
            },
            None => !is_file || secret_or_generated_name(
                match spec_file_name(path@) {
                    Some(name) => name,
                    None => Seq::empty(),
                },
            ) || spec_language_for(path@) is None,
        },
{
    if !is_file || is_secret_or_generated(path) {
        return None;
    }
    language_for(path)
}

} // verus!

verus! {

// ----- scanned files -----

/// One source file found under a repository root.
#[derive(Debug, Clone, PartialEq, Eq)]
pub struct SourceFile {
    pub absolute_path: String,
    pub relative_path: String,
    pub language: String,
    pub source: String,
}

/// Finds the source files under a root.
#[derive(Debug, Clone)]
pub struct SourceScanner {
    root: String,
}

impl SourceScanner {
    pub closed spec fn spec_root(&self) -> Seq<char> {
        self.root@
    }

    /// A scanner of the tree under `root`.
    pub fn new(root: &str) -> (r: Self)
        ensures
            r.spec_root() == root@,
    {
        SourceScanner { root: root.to_owned() }
    }

    pub fn root(&self) -> (r: &str)
        ensures
            r@ == self.spec_root(),
    {
        self.root.as_str()
    }
}

/// Files in order of their relative paths: none is followed by one whose path orders
/// before its own.
pub open spec fn sorted_by_path(files: Seq<SourceFile>) -> bool {
    forall|i: int, j: int|
        0 <= i < j < files.len() ==> !path_lt(#[trigger] files[j].relative_path@, #[trigger] files[i].relative_path@)
}

proof fn lemma_path_order(p: Seq<char>, q: Seq<char>, r: Seq<char>)
    ensures
        !path_lt(p, p),
        path_lt(p, q) && path_lt(q, r) ==> path_lt(p, r),
        !path_lt(p, q) && !path_lt(q, p) ==> components(p) == components(q),
{
    crate::paths::lemma_parts_lt_irreflexive(components(p));
    if path_lt(p, q) && path_lt(q, r) {
        crate::paths::lemma_parts_lt_transitive(components(p), components(q), components(r));
    }
    if components(p) != components(q) {
        crate::paths::lemma_parts_lt_total(components(p), components(q));
    }
}

/// Sorts scanned files by their relative paths, component by component.
pub fn sort_by_path(files: Vec<SourceFile>) -> (r: Vec<SourceFile>)
    ensures
        r@.to_multiset() == files@.to_multiset(),
        sorted_by_path(r@),
{
    broadcast use vstd::seq_lib::to_multiset_insert;

    let mut rest = files;
    let mut out: Vec<SourceFile> = Vec::new();
    proof {
        broadcast use vstd::multiset::group_multiset_axioms, vstd::seq_lib::to_multiset_contains;

        assert(out@.to_multiset() =~= vstd::multiset::Multiset::<SourceFile>::empty());
        assert(out@.to_multiset().add(rest@.to_multiset()) =~= files@.to_multiset());
    }
    while rest.len() > 0
        invariant
            out@.to_multiset().add(rest@.to_multiset()) == files@.to_multiset(),
            sorted_by_path(out@),
        decreases rest@.len(),
    {
        let ghost before_rest = rest@;
        let x = rest.pop().unwrap();
        let ghost os = out@;
        let mut pos: usize = 0;
        loop
            invariant
                os == out@,
                pos <= out@.len(),
                forall|k: int| 0 <= k < pos ==> !path_lt(x.relative_path@, #[trigger] os[k].relative_path@),
            ensures
                pos <= out@.len(),
                forall|k: int| 0 <= k < pos ==> !path_lt(x.relative_path@, #[trigger] os[k].relative_path@),
                pos < out@.len() ==> path_lt(x.relative_path@, os[pos as int].relative_path@),
            decreases out@.len() - pos,
        {
            if pos == out.len() {
                break;
            }
            if path_less(x.relative_path.as_str(), out[pos].relative_path.as_str()) {
                break;
            }
            pos = pos + 1;
        }
        proof {
            let xp = x.relative_path@;
            assert forall|k: int| pos <= k < os.len() implies !path_lt(#[trigger] os[k].relative_path@, xp) by {
                let kp = os[k].relative_path@;
                let pp = os[pos as int].relative_path@;
                lemma_path_order(xp, pp, kp);
                lemma_path_order(kp, xp, pp);
                lemma_path_order(kp, pp, xp);
                lemma_path_order(pp, kp, xp);
                if k > pos {
                    assert(!path_lt(kp, pp));
                    if path_lt(kp, xp) {
                        if components(kp) == components(pp) {
                            assert(path_lt(pp, xp));
                        }
                    }
                }
            }
        }
        out.insert(pos, x);
        proof {
            broadcast use vstd::multiset::group_multiset_axioms;

            let ns = out@;
            let xp = x.relative_path@;
            assert(before_rest =~= rest@.push(x));
            vstd::seq_lib::to_multiset_build(rest@, x);
            vstd::seq_lib::to_multiset_insert(os, pos as int, x);
            assert(ns.to_multiset().add(rest@.to_multiset()) =~= files@.to_multiset());
            assert forall|a: int, b: int| 0 <= a < b < ns.len() implies !path_lt(
                #[trigger] ns[b].relative_path@,
                #[trigger] ns[a].relative_path@,
            ) by {
                if b < pos {
                    assert(ns[a] == os[a] && ns[b] == os[b]);
                } else if b == pos {
                    assert(ns[a] == os[a]);
                } else if a < pos {
                    assert(ns[a] == os[a] && ns[b] == os[b - 1]);
                    let ap = os[a].relative_path@;
                    let bp = os[b - 1].relative_path@;
                    lemma_path_order(bp, ap, xp);
                    lemma_path_order(ap, xp, bp);
                    lemma_path_order(xp, ap, bp);
                    lemma_path_order(bp, xp, ap);
                    if path_lt(bp, ap) {
                        if components(ap) == components(xp) {
                            assert(path_lt(bp, xp));
                        }
                    }
                } else if a == pos {
                    assert(ns[b] == os[b - 1]);
                } else {
                    assert(ns[a] == os[a - 1] && ns[b] == os[b - 1]);
                }
            }
        }
    }
    proof {
        broadcast use vstd::multiset::group_multiset_axioms, vstd::seq_lib::to_multiset_contains;

        assert(rest@.to_multiset() =~= vstd::multiset::Multiset::<SourceFile>::empty());
        assert(out@.to_multiset() =~= files@.to_multiset());
    }
    out
}

} // verus!
