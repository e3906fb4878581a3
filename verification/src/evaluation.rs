use vstd::prelude::*;

use crate::text::string_views;

verus! {

/// One case of a search-quality dataset: a query and the paths it should find among its
/// first `k` results.
#[derive(Debug, Clone, PartialEq, Eq)]
pub struct EvaluationCase {
    pub id: String,
    pub query: String,
    pub expected_paths: Vec<String>,
    pub k: usize,
}

/// The dataset's default place under a repository root: `evaluation/search_quality.json`.
pub open spec fn spec_default_dataset(root: Seq<char>) -> Seq<char> {
    crate::paths::spec_join_path(crate::paths::spec_join_path(root, "evaluation"@), "search_quality.json"@)
}

/// The default dataset of the repository at `root`.
pub fn default_dataset(root: &str) -> (r: String)
    ensures
        r@ == spec_default_dataset(root@),
{
    let dir = crate::paths::join_path(root, "evaluation");
    crate::paths::join_path(dir.as_str(), "search_quality.json")
}

/// The strings in order of first appearance, each once.
pub open spec fn spec_dedup(s: Seq<Seq<char>>) -> Seq<Seq<char>>
    decreases s.len(),
{
    if s.len() == 0 {
        Seq::empty()
    } else {
        let prev = spec_dedup(s.drop_last());
        if prev.contains(s.last()) {
            prev
        } else {
            prev.push(s.last())
        }
    }
}

/// The first `k` distinct paths of the results, in result order.
pub open spec fn spec_top_paths(results: Seq<Seq<char>>, k: nat) -> Seq<Seq<char>> {
    let d = spec_dedup(results);
    if d.len() <= k {
        d
    } else {
        d.take(k as int)
    }
}

/// How many of the paths are expected.
pub open spec fn spec_hits(top: Seq<Seq<char>>, expected: Seq<Seq<char>>) -> nat
    decreases top.len(),
{
    if top.len() == 0 {
        0
    } else {
        spec_hits(top.drop_last(), expected) + if expected.contains(top.last()) {
            1nat
        } else {
            0nat
        }
    }
}

/// The position of the first expected path, if any.
pub open spec fn spec_first_hit(top: Seq<Seq<char>>, expected: Seq<Seq<char>>) -> Option<nat>
    decreases top.len(),
{
    if top.len() == 0 {
        None
    } else {
        match spec_first_hit(top.drop_last(), expected) {
            Some(i) => Some(i),
            None => if expected.contains(top.last()) {
                Some((top.len() - 1) as nat)
            } else {
                None
            },
        }
    }
}

/// The counts one case of an evaluation comes to; the ratios are formed from them.
#[derive(Debug, Clone, PartialEq, Eq)]
pub struct CaseCounts {
    /// The case's `k`, or 1 when it is 0.
    pub k: usize,
    /// The first `k` distinct paths among the results, in result order.
    pub top_paths: Vec<String>,
    /// How many of those are expected.
    pub hits: usize,
    /// How many distinct paths are expected.
    pub expected: usize,
    /// The position of the first expected path among the top paths, if any.
    pub first_hit: Option<usize>,
}

fn contains_string(v: &Vec<String>, s: &String) -> (r: bool)
    ensures
        r == string_views(v@).contains(s@),
{
    let mut i: usize = 0;
    while i < v.len()
        invariant
            i <= v@.len(),
            forall|j: int| 0 <= j < i ==> (#[trigger] v@[j])@ != s@,
        decreases v@.len() - i,
    {
        if v[i] == *s {
            assert(string_views(v@)[i as int] == s@);
            return true;
        }
        i = i + 1;
    }
    proof {
        if string_views(v@).contains(s@) {
            let j = choose|j: int| 0 <= j < v@.len() && string_views(v@)[j] == s@;
            assert(v@[j]@ == s@);
        }
    }
    false
}

fn dedup(v: &Vec<String>) -> (r: Vec<String>)
    ensures
        string_views(r@) == spec_dedup(string_views(v@)),
{
    let ghost vs = string_views(v@);
    let mut out: Vec<String> = Vec::new();
    let mut i: usize = 0;
    while i < v.len()
        invariant
            i <= v@.len(),
            vs == string_views(v@),
            string_views(out@) == spec_dedup(vs.take(i as int)),
        decreases v@.len() - i,
    {
        proof {
            assert(vs.take(i + 1).drop_last() =~= vs.take(i as int));
            assert(vs.take(i + 1).last() == v@[i as int]@);
        }
        if !contains_string(&out, &v[i]) {
            let ghost before = string_views(out@);
            let s = v[i].clone();
            out.push(s);
            assert(string_views(out@) =~= before.push(v@[i as int]@));
        }
        i = i + 1;
    }
    assert(vs.take(v@.len() as int) =~= vs);
    out
}

/// The counts of one evaluation case, from the paths of its search results in rank order.
pub fn case_counts(case: &EvaluationCase, result_paths: &Vec<String>) -> (r: CaseCounts)
    ensures
        r.k == (if case.k == 0 { 1 } else { case.k }),
        string_views(r.top_paths@) == spec_top_paths(string_views(result_paths@), r.k as nat),
        r.hits == spec_hits(string_views(r.top_paths@), string_views(case.expected_paths@)),
        r.expected == spec_dedup(string_views(case.expected_paths@)).len(),
        match r.first_hit {
            Some(i) => spec_first_hit(string_views(r.top_paths@), string_views(case.expected_paths@))
                == Some(i as nat),
            None => spec_first_hit(string_views(r.top_paths@), string_views(case.expected_paths@)) is None,
        },
{
    let k: usize = if case.k == 0 { 1 } else { case.k };
    let distinct = dedup(result_paths);
    let mut top: Vec<String> = Vec::new();
    let mut i: usize = 0;
    let n: usize = if distinct.len() <= k { distinct.len() } else { k };
    let ghost ds = string_views(distinct@);
    let ghost ex = string_views(case.expected_paths@);
    let mut hits: usize = 0;
    let mut first_hit: Option<usize> = None;
    while i < n
        invariant
            n <= distinct@.len(),
            i <= n,
            ds == string_views(distinct@),
            ex == string_views(case.expected_paths@),
            string_views(top@) == ds.take(i as int),
            hits == spec_hits(ds.take(i as int), ex),
            hits <= i,
            match first_hit {
                Some(f) => spec_first_hit(ds.take(i as int), ex) == Some(f as nat),
                None => spec_first_hit(ds.take(i as int), ex) is None,
            },
        decreases n - i,
    {
        let s = distinct[i].clone();
        let expected = contains_string(&case.expected_paths, &s);
        proof {
            assert(ds.take(i + 1).drop_last() =~= ds.take(i as int));
            assert(ds.take(i + 1).last() == s@);
        }
        if expected {
            hits = hits + 1;
            if first_hit.is_none() {
                first_hit = Some(i);
            }
        }
        let ghost before = string_views(top@);
        top.push(s);
        assert(string_views(top@) =~= before.push(ds[i as int]));
        i = i + 1;
    }
    assert(ds.take(n as int) == spec_top_paths(string_views(result_paths@), k as nat)) by {
        if ds.len() <= k {
            assert(ds.take(n as int) =~= ds);
        }
    }
    let expected_distinct = dedup(&case.expected_paths);
    CaseCounts { k, top_paths: top, hits, expected: expected_distinct.len(), first_hit }
}

} // verus!

verus! {

/// The reciprocal rank's position is the first expected path among the top paths: when
/// there is one at `i`, `top[i]` is expected and no top path before it is; there is none
/// exactly when no top path is expected.
pub proof fn first_hit_is_the_first_expected_path(top: Seq<Seq<char>>, expected: Seq<Seq<char>>)
    ensures
        spec_first_hit(top, expected) matches Some(i) ==> {
            &&& i < top.len()
            &&& expected.contains(top[i as int])
            &&& forall|j: int| 0 <= j < i ==> !expected.contains(#[trigger] top[j])
        },
        spec_first_hit(top, expected) is None <==> forall|j: int| 0 <= j < top.len() ==> !expected.contains(
            #[trigger] top[j],
        ),
    decreases top.len(),
{
    if top.len() > 0 {
        let prev = top.drop_last();
        first_hit_is_the_first_expected_path(prev, expected);
        assert forall|j: int| 0 <= j < prev.len() implies prev[j] == top[j] by {}
        assert(top.last() == top[top.len() - 1]);
        if spec_first_hit(prev, expected) is None {
            if !expected.contains(top.last()) {
                assert forall|j: int| 0 <= j < top.len() implies !expected.contains(#[trigger] top[j]) by {
                    if j < prev.len() {
                        assert(prev[j] == top[j]);
                    }
                }
            }
        } else {
            let i = spec_first_hit(prev, expected)->0;
            assert(prev[i as int] == top[i as int]);
            assert(!(forall|j: int| 0 <= j < top.len() ==> !expected.contains(#[trigger] top[j]))) by {
                assert(expected.contains(top[i as int]));
            }
            assert forall|j: int| 0 <= j < i implies !expected.contains(#[trigger] top[j]) by {
                assert(prev[j] == top[j]);
            }
        }
    }
}

} // verus!

verus! {

proof fn lemma_dedup_facts(s: Seq<Seq<char>>)
    ensures
        forall|i: int, j: int| 0 <= i < j < spec_dedup(s).len() ==> spec_dedup(s)[i] != spec_dedup(s)[j],
        forall|i: int| 0 <= i < spec_dedup(s).len() ==> s.contains(#[trigger] spec_dedup(s)[i]),
        forall|i: int| 0 <= i < s.len() ==> spec_dedup(s).contains(#[trigger] s[i]),
    decreases s.len(),
{
    if s.len() > 0 {
        let prev = s.drop_last();
        lemma_dedup_facts(prev);
        let p = spec_dedup(prev);
        let d = spec_dedup(s);
        assert forall|i: int| 0 <= i < d.len() implies s.contains(#[trigger] d[i]) by {
            if i < p.len() {
                assert(d[i] == p[i]);
                let k = choose|k: int| 0 <= k < prev.len() && prev[k] == p[i];
                assert(s[k] == prev[k]);
            } else {
                assert(d[i] == s.last());
                assert(s[s.len() - 1] == s.last());
            }
        }
        assert forall|i: int| 0 <= i < s.len() implies d.contains(#[trigger] s[i]) by {
            if i < prev.len() {
                assert(prev[i] == s[i]);
                let k = choose|k: int| 0 <= k < p.len() && p[k] == prev[i];
                assert(d[k] == p[k]);
            } else {
                assert(s[i] == s.last());
                if p.contains(s.last()) {
                } else {
                    assert(d[p.len() as int] == s.last());
                }
            }
        }
    }
}

/// The top paths of a case are the first `k` distinct result paths: no path twice, each
/// one a result, at most `k` of them, and fewer only when every result is among them.
pub proof fn top_paths_are_the_first_distinct_results(results: Seq<Seq<char>>, k: nat)
    ensures
        forall|i: int, j: int|
            0 <= i < j < spec_top_paths(results, k).len() ==> spec_top_paths(results, k)[i] != spec_top_paths(
                results,
                k,
            )[j],
        forall|i: int| 0 <= i < spec_top_paths(results, k).len() ==> results.contains(#[trigger] spec_top_paths(results, k)[i]),
        spec_top_paths(results, k).len() <= k,
        spec_top_paths(results, k).len() < k ==> forall|i: int|
            0 <= i < results.len() ==> spec_top_paths(results, k).contains(#[trigger] results[i]),
{
    lemma_dedup_facts(results);
    let d = spec_dedup(results);
    let top = spec_top_paths(results, k);
    if d.len() > k {
        assert forall|i: int| 0 <= i < top.len() implies results.contains(#[trigger] top[i]) by {
            assert(top[i] == d[i]);
        }
        assert forall|i: int, j: int| 0 <= i < j < top.len() implies top[i] != top[j] by {
            assert(top[i] == d[i]);
            assert(top[j] == d[j]);
        }
    }
}

} // verus!

verus! {

/// The hits are the expected paths among the top paths: at most one per top path, and
/// none exactly when no top path is expected (so there is no first hit).
pub proof fn hits_are_the_expected_top_paths(top: Seq<Seq<char>>, expected: Seq<Seq<char>>)
    ensures
        spec_hits(top, expected) <= top.len(),
        (spec_hits(top, expected) == 0) <==> spec_first_hit(top, expected) is None,
    decreases top.len(),
{
    if top.len() > 0 {
        hits_are_the_expected_top_paths(top.drop_last(), expected);
    }
}

} // verus!
