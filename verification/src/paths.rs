use vstd::prelude::*;

use crate::text::{chars_eq, chars_of, split_on, split_on_exec};

verus! {

// ----- path components, as std::path::Path reads a `/`-separated path -----

/// One component of a path.
#[derive(Clone, Debug)]
pub enum PathPart {
    Root,
    Current,
    Parent,
    Normal(Vec<char>),
}

pub enum SpecPart {
    Root,
    Current,
    Parent,
    Normal(Seq<char>),
}

impl View for PathPart {
    type V = SpecPart;

    open spec fn view(&self) -> SpecPart {
        match self {
            PathPart::Root => SpecPart::Root,
            PathPart::Current => SpecPart::Current,
            PathPart::Parent => SpecPart::Parent,
            PathPart::Normal(v) => SpecPart::Normal(v@),
        }
    }
}

pub open spec fn dot() -> Seq<char> {
    seq!['.']
}

pub open spec fn dot_dot() -> Seq<char> {
    seq!['.', '.']
}

/// The components named by the first `n` segments: empty and `.` segments are skipped,
/// `..` is the parent.
pub open spec fn segment_parts(segs: Seq<Seq<char>>, n: int) -> Seq<SpecPart>
    decreases n,
{
    if n <= 0 {
        Seq::empty()
    } else {
        let prev = segment_parts(segs, n - 1);
        let s = segs[n - 1];
        if s.len() == 0 || s == dot() {
            prev
        } else if s == dot_dot() {
            prev.push(SpecPart::Parent)
        } else {
            prev.push(SpecPart::Normal(s))
        }
    }
}

/// The components of a path: a leading `/` is the root, a leading `.` of a relative path
/// is kept as the current directory, repeated separators and inner `.` are dropped.
pub open spec fn components(p: Seq<char>) -> Seq<SpecPart> {
    let segs = split_on(p, '/');
    let head: Seq<SpecPart> = if p.len() > 0 && p[0] == '/' {
        seq![SpecPart::Root]
    } else if segs[0] == dot() {
        seq![SpecPart::Current]
    } else {
        Seq::empty()
    };
    head + segment_parts(segs, segs.len() as int)
}

pub fn components_exec(p: &[char]) -> (r: Vec<PathPart>)
    ensures
        r@.map_values(|x: PathPart| x@) == components(p@),
{
    let segs = split_on_exec(p, '/');
    let mut r: Vec<PathPart> = Vec::new();
    let d = vec!['.'];
    let dd = vec!['.', '.'];
    assert(d@ == dot());
    assert(dd@ == dot_dot());
    if p.len() > 0 && p[0] == '/' {
        r.push(PathPart::Root);
    } else if chars_eq(segs[0].as_slice(), d.as_slice()) {
        r.push(PathPart::Current);
    }
    let ghost head = r@.map_values(|x: PathPart| x@);
    let ghost ss = split_on(p@, '/');
    assert(r@.map_values(|x: PathPart| x@) =~= head + segment_parts(ss, 0));
    let mut i: usize = 0;
    while i < segs.len()
        invariant
            i <= segs@.len(),
            segs@.len() == ss.len(),
            forall|k: int| 0 <= k < segs@.len() ==> #[trigger] segs@[k]@ == ss[k],
            d@ == dot(),
            dd@ == dot_dot(),
            r@.map_values(|x: PathPart| x@) == head + segment_parts(ss, i as int),
        decreases segs@.len() - i,
    {
        let s = &segs[i];
        assert(s@ == ss[i as int]);
        let ghost before = r@;
        if s.len() == 0 || chars_eq(s.as_slice(), d.as_slice()) {
        } else if chars_eq(s.as_slice(), dd.as_slice()) {
            r.push(PathPart::Parent);
            assert(r@.map_values(|x: PathPart| x@) =~= before.map_values(|x: PathPart| x@).push(SpecPart::Parent));
        } else {
            r.push(PathPart::Normal(s.clone()));
            assert(r@.map_values(|x: PathPart| x@) =~= before.map_values(|x: PathPart| x@).push(SpecPart::Normal(s@)));
        }
        i = i + 1;
        assert(head + segment_parts(ss, i as int) =~= r@.map_values(|x: PathPart| x@));
    }
    r
}

} // verus!

verus! {

// ----- ordering -----

/// Lexicographic order of character sequences by code point (the byte order of their UTF-8).
pub open spec fn chars_lt(a: Seq<char>, b: Seq<char>) -> bool
    decreases a.len(),
{
    if a.len() == 0 {
        b.len() > 0
    } else if b.len() == 0 {
        false
    } else if a[0] < b[0] {
        true
    } else if a[0] == b[0] {
        chars_lt(a.drop_first(), b.drop_first())
    } else {
        false
    }
}

pub open spec fn part_rank(x: SpecPart) -> int {
    match x {
        SpecPart::Root => 0,
        SpecPart::Current => 1,
        SpecPart::Parent => 2,
        SpecPart::Normal(_) => 3,
    }
}

/// Components order by kind (root, current, parent, then normal), normal ones by name.
pub open spec fn part_lt(x: SpecPart, y: SpecPart) -> bool {
    part_rank(x) < part_rank(y) || (x matches SpecPart::Normal(a) && y matches SpecPart::Normal(b)
        && chars_lt(a, b))
}

/// Lexicographic order of component sequences.
pub open spec fn parts_lt(a: Seq<SpecPart>, b: Seq<SpecPart>) -> bool
    decreases a.len(),
{
    if a.len() == 0 {
        b.len() > 0
    } else if b.len() == 0 {
        false
    } else if part_lt(a[0], b[0]) {
        true
    } else if a[0] == b[0] {
        parts_lt(a.drop_first(), b.drop_first())
    } else {
        false
    }
}

/// The order of paths: by their components.
pub open spec fn path_lt(p: Seq<char>, q: Seq<char>) -> bool {
    parts_lt(components(p), components(q))
}

/// Two paths name the same place when their components agree.
pub open spec fn same_path(p: Seq<char>, q: Seq<char>) -> bool {
    components(p) == components(q)
}

pub proof fn lemma_chars_lt_irreflexive(a: Seq<char>)
    ensures
        !chars_lt(a, a),
    decreases a.len(),
{
    if a.len() > 0 {
        lemma_chars_lt_irreflexive(a.drop_first());
    }
}

pub proof fn lemma_chars_lt_transitive(a: Seq<char>, b: Seq<char>, c: Seq<char>)
    requires
        chars_lt(a, b),
        chars_lt(b, c),
    ensures
        chars_lt(a, c),
    decreases a.len(),
{
    if a.len() > 0 && b.len() > 0 && c.len() > 0 {
        if a[0] == b[0] && b[0] == c[0] {
            lemma_chars_lt_transitive(a.drop_first(), b.drop_first(), c.drop_first());
        }
    }
}

pub proof fn lemma_chars_lt_total(a: Seq<char>, b: Seq<char>)
    requires
        a != b,
    ensures
        chars_lt(a, b) || chars_lt(b, a),
    decreases a.len(),
{
    if a.len() > 0 && b.len() > 0 && a[0] == b[0] {
        if a.drop_first() == b.drop_first() {
            assert(a =~= seq![a[0]] + a.drop_first());
            assert(b =~= seq![b[0]] + b.drop_first());
        }
        lemma_chars_lt_total(a.drop_first(), b.drop_first());
    } else if a.len() > 0 && b.len() > 0 {
        assert(a[0] != b[0]);
    } else if a.len() == 0 && b.len() == 0 {
        assert(a =~= b);
    }
}

pub proof fn lemma_part_lt_irreflexive(x: SpecPart)
    ensures
        !part_lt(x, x),
{
    if let SpecPart::Normal(a) = x {
        lemma_chars_lt_irreflexive(a);
    }
}

pub proof fn lemma_part_lt_transitive(x: SpecPart, y: SpecPart, z: SpecPart)
    requires
        part_lt(x, y),
        part_lt(y, z),
    ensures
        part_lt(x, z),
{
    if let (SpecPart::Normal(a), SpecPart::Normal(b), SpecPart::Normal(c)) = (x, y, z) {
        lemma_chars_lt_transitive(a, b, c);
    }
}

pub proof fn lemma_part_lt_total(x: SpecPart, y: SpecPart)
    requires
        x != y,
    ensures
        part_lt(x, y) || part_lt(y, x),
{
    if let (SpecPart::Normal(a), SpecPart::Normal(b)) = (x, y) {
        lemma_chars_lt_total(a, b);
    }
}

pub proof fn lemma_parts_lt_irreflexive(a: Seq<SpecPart>)
    ensures
        !parts_lt(a, a),
    decreases a.len(),
{
    if a.len() > 0 {
        lemma_part_lt_irreflexive(a[0]);
        lemma_parts_lt_irreflexive(a.drop_first());
    }
}

pub proof fn lemma_parts_lt_transitive(a: Seq<SpecPart>, b: Seq<SpecPart>, c: Seq<SpecPart>)
    requires
        parts_lt(a, b),
        parts_lt(b, c),
    ensures
        parts_lt(a, c),
    decreases a.len(),
{
    if a.len() > 0 && b.len() > 0 && c.len() > 0 {
        if part_lt(a[0], b[0]) && part_lt(b[0], c[0]) {
            lemma_part_lt_transitive(a[0], b[0], c[0]);
        } else if a[0] == b[0] && b[0] == c[0] {
            lemma_parts_lt_transitive(a.drop_first(), b.drop_first(), c.drop_first());
        }
    }
}

pub proof fn lemma_parts_lt_total(a: Seq<SpecPart>, b: Seq<SpecPart>)
    requires
        a != b,
    ensures
        parts_lt(a, b) || parts_lt(b, a),
    decreases a.len(),
{
    if a.len() > 0 && b.len() > 0 && a[0] == b[0] {
        if a.drop_first() == b.drop_first() {
            assert(a =~= seq![a[0]] + a.drop_first());
            assert(b =~= seq![b[0]] + b.drop_first());
        }
        lemma_parts_lt_total(a.drop_first(), b.drop_first());
    } else if a.len() > 0 && b.len() > 0 {
        lemma_part_lt_total(a[0], b[0]);
    } else if a.len() == 0 && b.len() == 0 {
        assert(a =~= b);
    }
}

} // verus!

verus! {

pub fn chars_less(a: &[char], b: &[char]) -> (r: bool)
    ensures
        r == chars_lt(a@, b@),
{
    let mut i: usize = 0;
    assert(a@.skip(0) =~= a@);
    assert(b@.skip(0) =~= b@);
    loop
        invariant
            i <= a@.len(),
            i <= b@.len(),
            chars_lt(a@, b@) == chars_lt(a@.skip(i as int), b@.skip(i as int)),
        decreases a@.len() - i,
    {
        if i == a.len() {
            return i < b.len();
        }
        if i == b.len() {
            return false;
        }
        assert(a@.skip(i as int)[0] == a@[i as int]);
        assert(b@.skip(i as int)[0] == b@[i as int]);
        if a[i] < b[i] {
            return true;
        }
        if a[i] != b[i] {
            return false;
        }
        assert(a@.skip(i as int).drop_first() =~= a@.skip(i + 1));
        assert(b@.skip(i as int).drop_first() =~= b@.skip(i + 1));
        i = i + 1;
    }
}

fn rank(x: &PathPart) -> (r: u8)
    ensures
        r as int == part_rank(x@),
{
    match x {
        PathPart::Root => 0,
        PathPart::Current => 1,
        PathPart::Parent => 2,
        PathPart::Normal(_) => 3,
    }
}

fn part_less(x: &PathPart, y: &PathPart) -> (r: bool)
    ensures
        r == part_lt(x@, y@),
{
    if rank(x) < rank(y) {
        return true;
    }
    match (x, y) {
        (PathPart::Normal(a), PathPart::Normal(b)) => chars_less(a.as_slice(), b.as_slice()),
        _ => false,
    }
}

fn part_eq(x: &PathPart, y: &PathPart) -> (r: bool)
    ensures
        r == (x@ == y@),
{
    match (x, y) {
        (PathPart::Root, PathPart::Root) => true,
        (PathPart::Current, PathPart::Current) => true,
        (PathPart::Parent, PathPart::Parent) => true,
        (PathPart::Normal(a), PathPart::Normal(b)) => chars_eq(a.as_slice(), b.as_slice()),
        _ => false,
    }
}

pub open spec fn part_views(v: Seq<PathPart>) -> Seq<SpecPart> {
    v.map_values(|x: PathPart| x@)
}

fn parts_less(a: &Vec<PathPart>, b: &Vec<PathPart>) -> (r: bool)
    ensures
        r == parts_lt(part_views(a@), part_views(b@)),
{
    let ghost av = part_views(a@);
    let ghost bv = part_views(b@);
    let mut i: usize = 0;
    assert(av.skip(0) =~= av);
    assert(bv.skip(0) =~= bv);
    loop
        invariant
            av == part_views(a@),
            bv == part_views(b@),
            i <= a@.len(),
            i <= b@.len(),
            parts_lt(av, bv) == parts_lt(av.skip(i as int), bv.skip(i as int)),
        decreases a@.len() - i,
    {
        if i == a.len() {
            return i < b.len();
        }
        if i == b.len() {
            return false;
        }
        assert(av.skip(i as int)[0] == a@[i as int]@);
        assert(bv.skip(i as int)[0] == b@[i as int]@);
        if part_less(&a[i], &b[i]) {
            return true;
        }
        if !part_eq(&a[i], &b[i]) {
            return false;
        }
        assert(av.skip(i as int).drop_first() =~= av.skip(i + 1));
        assert(bv.skip(i as int).drop_first() =~= bv.skip(i + 1));
        i = i + 1;
    }
}

fn parts_eq(a: &Vec<PathPart>, b: &Vec<PathPart>) -> (r: bool)
    ensures
        r == (part_views(a@) == part_views(b@)),
{
    if a.len() != b.len() {
        return false;
    }
    let mut i: usize = 0;
    while i < a.len()
        invariant
            a@.len() == b@.len(),
            i <= a@.len(),
            forall|k: int| 0 <= k < i ==> a@[k]@ == b@[k]@,
        decreases a@.len() - i,
    {
        if !part_eq(&a[i], &b[i]) {
            assert(part_views(a@)[i as int] != part_views(b@)[i as int]);
            return false;
        }
        i = i + 1;
    }
    assert(part_views(a@) =~= part_views(b@));
    true
}

/// Whether path `p` orders before path `q`, component by component.
pub fn path_less(p: &str, q: &str) -> (r: bool)
    ensures
        r == path_lt(p@, q@),
{
    let pc = chars_of(p);
    let qc = chars_of(q);
    let a = components_exec(pc.as_slice());
    let b = components_exec(qc.as_slice());
    parts_less(&a, &b)
}

/// Whether two paths have the same components.
pub fn paths_equal(p: &str, q: &str) -> (r: bool)
    ensures
        r == same_path(p@, q@),
{
    let pc = chars_of(p);
    let qc = chars_of(q);
    let a = components_exec(pc.as_slice());
    let b = components_exec(qc.as_slice());
    parts_eq(&a, &b)
}

} // verus!

verus! {

pub open spec fn sorted_paths(s: Seq<Seq<char>>) -> bool {
    forall|i: int, j: int| 0 <= i < j < s.len() ==> path_lt(#[trigger] s[i], #[trigger] s[j])
}

pub open spec fn distinct_paths(s: Seq<Seq<char>>) -> bool {
    forall|i: int, j: int| 0 <= i < j < s.len() ==> !same_path(#[trigger] s[i], #[trigger] s[j])
}

proof fn lemma_path_lt_total(p: Seq<char>, q: Seq<char>)
    requires
        !same_path(p, q),
    ensures
        path_lt(p, q) || path_lt(q, p),
{
    lemma_parts_lt_total(components(p), components(q));
}

proof fn lemma_path_lt_transitive(p: Seq<char>, q: Seq<char>, r: Seq<char>)
    requires
        path_lt(p, q),
        path_lt(q, r),
    ensures
        path_lt(p, r),
{
    lemma_parts_lt_transitive(components(p), components(q), components(r));
}

/// Sorts paths that name distinct places into path order.
pub fn sort_paths(v: &Vec<String>) -> (r: Vec<String>)
    requires
        distinct_paths(crate::text::string_views(v@)),
    ensures
        crate::text::string_views(r@).to_multiset() == crate::text::string_views(v@).to_multiset(),
        sorted_paths(crate::text::string_views(r@)),
{
    broadcast use vstd::seq_lib::to_multiset_insert, vstd::seq_lib::to_multiset_contains;

    let ghost vs = crate::text::string_views(v@);
    let mut out: Vec<String> = Vec::new();
    let mut i: usize = 0;
    assert(crate::text::string_views(out@).to_multiset() =~= vs.take(0).to_multiset()) by {
        broadcast use vstd::multiset::group_multiset_axioms;
        assert(vs.take(0) =~= Seq::<Seq<char>>::empty());
        assert(crate::text::string_views(out@) =~= Seq::<Seq<char>>::empty());
    }
    while i < v.len()
        invariant
            vs == crate::text::string_views(v@),
            distinct_paths(vs),
            i <= v@.len(),
            crate::text::string_views(out@).to_multiset() == vs.take(i as int).to_multiset(),
            sorted_paths(crate::text::string_views(out@)),
        decreases v@.len() - i,
    {
        let x = v[i].clone();
        let ghost os = crate::text::string_views(out@);
        let mut pos: usize = 0;
        while pos < out.len() && !path_less(x.as_str(), out[pos].as_str())
            invariant
                os == crate::text::string_views(out@),
                pos <= out@.len(),
                forall|k: int| 0 <= k < pos ==> !path_lt(x@, #[trigger] os[k]),
            decreases out@.len() - pos,
        {
            pos = pos + 1;
        }
        proof {
            assert forall|k: int| 0 <= k < pos implies path_lt(#[trigger] os[k], x@) by {
                assert(os.contains(os[k]));
                vstd::seq_lib::to_multiset_contains(os, os[k]);
                vstd::seq_lib::to_multiset_contains(vs.take(i as int), os[k]);
                assert(vs.take(i as int).contains(os[k]));
                let j = choose|j: int| 0 <= j < i && vs.take(i as int)[j] == os[k];
                assert(vs[j] == os[k]);
                assert(vs[i as int] == x@);
                assert(!same_path(vs[j], vs[i as int]));
                lemma_path_lt_total(os[k], x@);
            }
            assert forall|k: int| pos <= k < os.len() implies path_lt(x@, #[trigger] os[k]) by {
                if k > pos {
                    lemma_path_lt_transitive(x@, os[pos as int], os[k]);
                }
            }
        }
        out.insert(pos, x);
        proof {
            let ns = crate::text::string_views(out@);
            assert(ns =~= os.insert(pos as int, x@));
            assert(vs.take(i + 1) =~= vs.take(i as int).push(x@));
            vstd::seq_lib::to_multiset_build(vs.take(i as int), x@);
            vstd::seq_lib::to_multiset_insert(os, pos as int, x@);
            assert(ns.to_multiset() == vs.take(i + 1).to_multiset());
            assert forall|a: int, b: int| 0 <= a < b < ns.len() implies path_lt(#[trigger] ns[a], #[trigger] ns[b]) by {
                if b < pos {
                    assert(ns[a] == os[a] && ns[b] == os[b]);
                } else if b == pos {
                    assert(ns[a] == os[a]);
                } else if a < pos {
                    assert(ns[a] == os[a] && ns[b] == os[b - 1]);
                    lemma_path_lt_transitive(os[a], x@, os[b - 1]);
                } else if a == pos {
                    assert(ns[b] == os[b - 1]);
                } else {
                    assert(ns[a] == os[a - 1] && ns[b] == os[b - 1]);
                }
            }
        }
        i = i + 1;
    }
    assert(vs.take(v@.len() as int) =~= vs);
    out
}

} // verus!

verus! {

/// In order, allowing repeats: no string is followed by a smaller one.
pub open spec fn sorted_strings(s: Seq<Seq<char>>) -> bool {
    forall|i: int, j: int| 0 <= i < j < s.len() ==> !chars_lt(#[trigger] s[j], #[trigger] s[i])
}

proof fn lemma_chars_lt_asymmetric(a: Seq<char>, b: Seq<char>)
    requires
        chars_lt(a, b),
    ensures
        !chars_lt(b, a),
{
    if chars_lt(b, a) {
        lemma_chars_lt_transitive(a, b, a);
        lemma_chars_lt_irreflexive(a);
    }
}

/// Sorts strings by code point, as `Vec<String>::sort` orders them.
pub fn sort_strings(v: &Vec<String>) -> (r: Vec<String>)
    ensures
        crate::text::string_views(r@).to_multiset() == crate::text::string_views(v@).to_multiset(),
        sorted_strings(crate::text::string_views(r@)),
{
    broadcast use vstd::seq_lib::to_multiset_insert;

    let ghost vs = crate::text::string_views(v@);
    let mut out: Vec<String> = Vec::new();
    let mut i: usize = 0;
    assert(crate::text::string_views(out@).to_multiset() =~= vs.take(0).to_multiset()) by {
        broadcast use vstd::multiset::group_multiset_axioms;
        assert(vs.take(0) =~= Seq::<Seq<char>>::empty());
        assert(crate::text::string_views(out@) =~= Seq::<Seq<char>>::empty());
    }
    while i < v.len()
        invariant
            vs == crate::text::string_views(v@),
            i <= v@.len(),
            crate::text::string_views(out@).to_multiset() == vs.take(i as int).to_multiset(),
            sorted_strings(crate::text::string_views(out@)),
        decreases v@.len() - i,
    {
        let x = v[i].clone();
        let xc = chars_of(x.as_str());
        let ghost os = crate::text::string_views(out@);
        let mut pos: usize = 0;
        loop
            invariant
                os == crate::text::string_views(out@),
                xc@ == x@,
                pos <= out@.len(),
                forall|k: int| 0 <= k < pos ==> !chars_lt(x@, #[trigger] os[k]),
            ensures
                pos <= out@.len(),
                forall|k: int| 0 <= k < pos ==> !chars_lt(x@, #[trigger] os[k]),
                pos < out@.len() ==> chars_lt(x@, os[pos as int]),
            decreases out@.len() - pos,
        {
            if pos == out.len() {
                break;
            }
            let oc = chars_of(out[pos].as_str());
            if chars_less(xc.as_slice(), oc.as_slice()) {
                break;
            }
            pos = pos + 1;
        }
        proof {
            assert forall|k: int| pos <= k < os.len() implies chars_lt(x@, #[trigger] os[k]) by {
                if k > pos {
                    if chars_lt(os[k], os[pos as int]) {
                    } else if os[k] == os[pos as int] {
                    } else {
                        lemma_chars_lt_total(os[k], os[pos as int]);
                        lemma_chars_lt_transitive(x@, os[pos as int], os[k]);
                    }
                    assert(!chars_lt(os[k], os[pos as int]));
                }
            }
        }
        out.insert(pos, x);
        proof {
            let ns = crate::text::string_views(out@);
            assert(ns =~= os.insert(pos as int, x@));
            assert(vs.take(i + 1) =~= vs.take(i as int).push(x@));
            vstd::seq_lib::to_multiset_build(vs.take(i as int), x@);
            vstd::seq_lib::to_multiset_insert(os, pos as int, x@);
            assert forall|a: int, b: int| 0 <= a < b < ns.len() implies !chars_lt(#[trigger] ns[b], #[trigger] ns[a]) by {
                if b < pos {
                    assert(ns[a] == os[a] && ns[b] == os[b]);
                } else if b == pos {
                    assert(ns[a] == os[a]);
                } else if a < pos {
                    assert(ns[a] == os[a] && ns[b] == os[b - 1]);
                    lemma_chars_lt_asymmetric(x@, os[b - 1]);
                    if chars_lt(os[b - 1], os[a]) {
                        if chars_lt(os[a], x@) {
                            lemma_chars_lt_transitive(os[b - 1], os[a], x@);
                        } else if os[a] != x@ {
                            lemma_chars_lt_total(os[a], x@);
                        }
                    }
                } else if a == pos {
                    assert(ns[b] == os[b - 1]);
                    lemma_chars_lt_asymmetric(x@, os[b - 1]);
                } else {
                    assert(ns[a] == os[a - 1] && ns[b] == os[b - 1]);
                }
            }
        }
        i = i + 1;
    }
    assert(vs.take(v@.len() as int) =~= vs);
    out
}

} // verus!

verus! {

/// `Path::join` for `/`-separated paths: an absolute `part` replaces `base`; otherwise a
/// separator is added unless `base` is empty or already ends with one.
pub open spec fn spec_join_path(base: Seq<char>, part: Seq<char>) -> Seq<char> {
    if part.len() > 0 && part[0] == '/' {
        part
    } else if base.len() == 0 {
        part
    } else if base.last() == '/' {
        base + part
    } else {
        base + seq!['/'] + part
    }
}

/// Joins `part` onto `base` as `Path::join` does.
pub fn join_path(base: &str, part: &str) -> (r: String)
    ensures
        r@ == spec_join_path(base@, part@),
{
    let b = chars_of(base);
    let p = chars_of(part);
    if p.len() > 0 && p[0] == '/' {
        return crate::text::string_of(p.as_slice());
    }
    let mut r = crate::text::string_of(b.as_slice());
    if b.len() > 0 && b[b.len() - 1] != '/' {
        crate::text::push_char(&mut r, '/');
    }
    crate::text::append_chars(&mut r, p.as_slice());
    r
}

} // verus!

verus! {

/// Two sorted arrangements of the same strings are the same sequence.
pub proof fn sorted_strings_unique(a: Seq<Seq<char>>, b: Seq<Seq<char>>)
    requires
        sorted_strings(a),
        sorted_strings(b),
        a.to_multiset() == b.to_multiset(),
    ensures
        a == b,
    decreases a.len(),
{
    broadcast use vstd::seq_lib::to_multiset_contains, vstd::seq_lib::to_multiset_len;

    vstd::seq_lib::to_multiset_len(a);
    vstd::seq_lib::to_multiset_len(b);
    if a.len() == 0 {
        assert(b.len() == 0);
        assert(a =~= b);
    } else {
        assert(b.len() == a.len());
        let x = a[0];
        let y = b[0];
        assert(a.contains(x));
        vstd::seq_lib::to_multiset_contains(a, x);
        vstd::seq_lib::to_multiset_contains(b, x);
        assert(b.contains(x));
        let j = choose|j: int| 0 <= j < b.len() && b[j] == x;
        assert(b.contains(y));
        vstd::seq_lib::to_multiset_contains(b, y);
        vstd::seq_lib::to_multiset_contains(a, y);
        assert(a.contains(y));
        let i = choose|i: int| 0 <= i < a.len() && a[i] == y;
        if j > 0 {
            assert(!chars_lt(b[j], b[0]));
        }
        if i > 0 {
            assert(!chars_lt(a[i], a[0]));
        }
        if x != y {
            lemma_chars_lt_total(x, y);
        }
        assert(x == y);
        vstd::seq_lib::to_multiset_remove(a, 0);
        vstd::seq_lib::to_multiset_remove(b, 0);
        assert(a.remove(0) =~= a.drop_first());
        assert(b.remove(0) =~= b.drop_first());
        assert(sorted_strings(a.drop_first())) by {
            assert forall|p: int, q: int| 0 <= p < q < a.drop_first().len() implies !chars_lt(
                #[trigger] a.drop_first()[q],
                #[trigger] a.drop_first()[p],
            ) by {
                assert(a.drop_first()[q] == a[q + 1] && a.drop_first()[p] == a[p + 1]);
            }
        }
        assert(sorted_strings(b.drop_first())) by {
            assert forall|p: int, q: int| 0 <= p < q < b.drop_first().len() implies !chars_lt(
                #[trigger] b.drop_first()[q],
                #[trigger] b.drop_first()[p],
            ) by {
                assert(b.drop_first()[q] == b[q + 1] && b.drop_first()[p] == b[p + 1]);
            }
        }
        sorted_strings_unique(a.drop_first(), b.drop_first());
        assert(a =~= seq![x] + a.drop_first());
        assert(b =~= seq![y] + b.drop_first());
    }
}

} // verus!
