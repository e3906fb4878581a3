use vstd::prelude::*;

use crate::error::AstralError;
use crate::index::SymbolResult;
use crate::text::{append_chars, chars_eq, chars_of, split_on, split_on_exec, string_of};

verus! {

/// The arguments of the web server.
#[derive(Debug, Clone, PartialEq, Eq)]
pub struct Args {
    /// The registered repository the UI starts with.
    pub repository_name: String,
    /// The address to bind to.
    pub host: String,
    /// The port to bind to.
    pub port: u16,
    /// A directory to serve the UI's files from, in place of the built-in ones.
    pub assets_dir: Option<String>,
}

/// How many results an API call returns: 20 unless asked, and at most 100.
pub fn bounded_limit(limit: Option<usize>) -> (r: usize)
    ensures
        r == ({
            let asked = match limit {
                Some(n) => n,
                None => 20,
            };
            if asked > 100 {
                100
            } else {
                asked
            }
        }),
{
    let asked = match limit {
        Some(n) => n,
        None => 20,
    };
    if asked > 100 {
        100
    } else {
        asked
    }
}

// ----- serving files -----

/// A segment that may not appear in a requested path: `..`, or one holding `:` or `\`.
pub open spec fn forbidden_segment(s: Seq<char>) -> bool {
    s == seq!['.', '.'] || s.contains(':') || s.contains('\\')
}

/// The segments of a requested path that name something: neither empty nor `.`.
pub open spec fn kept_segments(segs: Seq<Seq<char>>) -> Seq<Seq<char>>
    decreases segs.len(),
{
    if segs.len() == 0 {
        Seq::empty()
    } else {
        let prev = kept_segments(segs.drop_last());
        let s = segs.last();
        if s.len() == 0 || s == seq!['.'] {
            prev
        } else {
            prev.push(s)
        }
    }
}

/// `base` with each segment joined on in turn.
pub open spec fn join_all(base: Seq<char>, segs: Seq<Seq<char>>) -> Seq<char>
    decreases segs.len(),
{
    if segs.len() == 0 {
        base
    } else {
        crate::paths::spec_join_path(join_all(base, segs.drop_last()), segs.last())
    }
}

/// The file under `base` that a `/`-separated request path names, or none when a segment
/// could climb out of `base`.
pub open spec fn spec_safe_subpath(base: Seq<char>, path: Seq<char>) -> Option<Seq<char>> {
    let segs = split_on(path, '/');
    if exists|i: int| 0 <= i < segs.len() && forbidden_segment(#[trigger] segs[i]) {
        None
    } else {
        Some(join_all(base, kept_segments(segs)))
    }
}

fn has_char(s: &[char], c: char) -> (r: bool)
    ensures
        r == s@.contains(c),
{
    let mut i: usize = 0;
    while i < s.len()
        invariant
            i <= s@.len(),
            forall|j: int| 0 <= j < i ==> s@[j] != c,
        decreases s@.len() - i,
    {
        if s[i] == c {
            return true;
        }
        i = i + 1;
    }
    false
}

/// The file under `base` named by the request path `path`, or `None` when the path holds a
/// `..` segment or a segment with `:` or `\`; empty and `.` segments are skipped.
pub fn safe_subpath(base: &str, path: &str) -> (r: Option<String>)
    ensures
        match r {
            Some(p) => spec_safe_subpath(base@, path@) == Some(p@),
            None => spec_safe_subpath(base@, path@) is None,
        },
{
    let cs = chars_of(path);
    let segs = split_on_exec(cs.as_slice(), '/');
    let ghost ss = split_on(path@, '/');
    let mut result = base.to_owned();
    let dot = vec!['.'];
    let dotdot = vec!['.', '.'];
    let mut i: usize = 0;
    while i < segs.len()
        invariant
            i <= segs@.len(),
            segs@.len() == ss.len(),
            ss == split_on(path@, '/'),
            forall|k: int| 0 <= k < segs@.len() ==> #[trigger] segs@[k]@ == ss[k],
            dot@ == seq!['.'],
            dotdot@ == seq!['.', '.'],
            forall|k: int| 0 <= k < i ==> !forbidden_segment(#[trigger] ss[k]),
            result@ == join_all(base@, kept_segments(ss.take(i as int))),
        decreases segs@.len() - i,
    {
        let s = segs[i].as_slice();
        assert(s@ == ss[i as int]);
        proof {
            assert(ss.take(i + 1).drop_last() =~= ss.take(i as int));
            assert(ss.take(i + 1).last() == ss[i as int]);
        }
        if s.len() == 0 || chars_eq(s, dot.as_slice()) {
        } else if chars_eq(s, dotdot.as_slice()) || has_char(s, ':') || has_char(s, '\\') {
            assert(forbidden_segment(ss[i as int]));
            return None;
        } else {
            let text = string_of(s);
            let ghost before = result@;
            result = crate::paths::join_path(result.as_str(), text.as_str());
            proof {
                let kept = kept_segments(ss.take(i as int));
                assert(kept_segments(ss.take(i + 1)) == kept.push(ss[i as int]));
                assert(kept.push(ss[i as int]).drop_last() =~= kept);
            }
        }
        i = i + 1;
    }
    assert(ss.take(segs@.len() as int) =~= ss);
    Some(result)
}

/// The asset a request path asks for: without leading `/` and surrounding whitespace, and
/// `index.html` when nothing is left.
pub open spec fn spec_asset_request(path: Seq<char>) -> Seq<char> {
    let t = crate::text::spec_trim(strip_leading_slashes(path));
    if t.len() == 0 {
        "index.html"@
    } else {
        t
    }
}

/// The path without its leading `/` characters.
pub open spec fn strip_leading_slashes(p: Seq<char>) -> Seq<char>
    decreases p.len(),
{
    if p.len() > 0 && p[0] == '/' {
        strip_leading_slashes(p.drop_first())
    } else {
        p
    }
}

/// The asset named by the path of a request.
pub fn asset_request(path: &str) -> (r: String)
    ensures
        r@ == spec_asset_request(path@),
{
    let cs = chars_of(path);
    let mut i: usize = 0;
    assert(cs@.skip(0) =~= cs@);
    while i < cs.len() && cs[i] == '/'
        invariant
            i <= cs@.len(),
            cs@ == path@,
            strip_leading_slashes(path@) == strip_leading_slashes(cs@.skip(i as int)),
        decreases cs@.len() - i,
    {
        proof {
            assert(cs@.skip(i as int).drop_first() =~= cs@.skip(i + 1));
        }
        i = i + 1;
    }
    let rest = crate::text::drop_prefix(cs.as_slice(), i);
    proof {
        assert(rest@ =~= cs@.skip(i as int));
        if rest@.len() > 0 {
            assert(rest@[0] != '/');
        }
    }
    let t = crate::text::trim(rest.as_slice());
    if t.len() == 0 {
        "index.html".to_owned()
    } else {
        string_of(t.as_slice())
    }
}

/// Whether a request that matched no file is answered with the UI's `index.html`: when it
/// is not under `assets/` and names no file (has no `.`).
pub fn falls_back_to_index(path: &str) -> (r: bool)
    ensures
        r == (!crate::text::starts_with(path@, "assets/"@) && !path@.contains('.')),
{
    let cs = chars_of(path);
    let prefix = chars_of("assets/");
    !crate::text::starts_with_exec(cs.as_slice(), prefix.as_slice()) && !has_char(cs.as_slice(), '.')
}

/// `mime_guess::from_path(path).first_or_octet_stream()`, as text: the MIME type the
/// path's extension is registered with. The table it is looked up in is named, not
/// written out.
pub uninterp spec fn guessed_content_type(path: Seq<char>) -> Seq<char>;

/// The content type of a file, guessed from its extension; a path with no extension, or
/// an empty one, is `application/octet-stream`.
#[verifier::external_body]
pub(crate) fn content_type_for(path: &str) -> (r: String)
    ensures
        r@ == guessed_content_type(path@),
        (match crate::scanner::spec_file_name(path@) {
            Some(name) => match crate::scanner::spec_extension(name) {
                Some(e) => e.len() == 0,
                None => true,
            },
            None => true,
        }) ==> r@ == "application/octet-stream"@,
{
    mime_guess::from_path(path).first_or_octet_stream().to_string()
}

/// Where a request is served from a directory of assets: the file it names (with its
/// content type), if the name is safe, and else or when that file cannot be read, the
/// directory's `index.html` for a request that names no file.
#[derive(Debug, Clone, PartialEq, Eq)]
pub struct AssetPlan {
    pub file: Option<String>,
    pub content_type: Option<String>,
    pub fallback: Option<String>,
}

/// How a request for `path` is served from the assets directory `assets_dir`.
pub fn disk_asset_plan(assets_dir: &str, path: &str) -> (r: AssetPlan)
    ensures
        match spec_safe_subpath(assets_dir@, path@) {
            Some(f) => (r.file matches Some(g) && g@ == f) && (r.content_type matches Some(t) && t@
                == guessed_content_type(f)),
            None => r.file is None && r.content_type is None,
        },
        (!crate::text::starts_with(path@, "assets/"@) && !path@.contains('.')) ==> (match spec_safe_subpath(
            assets_dir@,
            "index.html"@,
        ) {
            Some(f) => r.fallback matches Some(g) && g@ == f,
            None => r.fallback is None,
        }),
        !(!crate::text::starts_with(path@, "assets/"@) && !path@.contains('.')) ==> r.fallback is None,
{
    let file = safe_subpath(assets_dir, path);
    let content_type = match &file {
        Some(f) => Some(content_type_for(f.as_str())),
        None => None,
    };
    let fallback = if falls_back_to_index(path) {
        safe_subpath(assets_dir, "index.html")
    } else {
        None
    };
    AssetPlan { file, content_type, fallback }
}

/// The value of the first `name=value` pair of a query string whose key is `name`.
pub open spec fn spec_query_param(pairs: Seq<Seq<char>>, name: Seq<char>) -> Option<Seq<char>>
    decreases pairs.len(),
{
    if pairs.len() == 0 {
        None
    } else {
        match spec_query_param(pairs.drop_last(), name) {
            Some(v) => Some(v),
            None => {
                let p = pairs.last();
                let parts = split_on(p, '=');
                if parts.len() > 1 && parts[0] == name {
                    Some(p.skip(parts[0].len() + 1int))
                } else {
                    None
                }
            },
        }
    }
}

/// The value of the parameter `name` in the query string of a request, if any: pairs are
/// separated by `&`, a pair without `=` is skipped, and the value is all after the first
/// `=`.
pub fn extract_query_param(query: Option<&str>, name: &str) -> (r: Option<String>)
    ensures
        match query {
            None => r is None,
            Some(q) => match r {
                Some(v) => spec_query_param(split_on(q@, '&'), name@) == Some(v@),
                None => spec_query_param(split_on(q@, '&'), name@) is None,
            },
        },
{
    match query {
        None => None,
        Some(q) => query_param_in(q, name),
    }
}

fn query_param_in(q: &str, name: &str) -> (r: Option<String>)
    ensures
        match r {
            Some(v) => spec_query_param(split_on(q@, '&'), name@) == Some(v@),
            None => spec_query_param(split_on(q@, '&'), name@) is None,
        },
{
    let cs = chars_of(q);
    let pairs = split_on_exec(cs.as_slice(), '&');
    let ghost ps = split_on(q@, '&');
    let nc = chars_of(name);
    let mut i: usize = 0;
    while i < pairs.len()
        invariant
            i <= pairs@.len(),
            pairs@.len() == ps.len(),
            ps == split_on(q@, '&'),
            nc@ == name@,
            forall|k: int| 0 <= k < pairs@.len() ==> #[trigger] pairs@[k]@ == ps[k],
            spec_query_param(ps.take(i as int), name@) is None,
        decreases pairs@.len() - i,
    {
        let p = pairs[i].as_slice();
        assert(p@ == ps[i as int]);
        proof {
            assert(ps.take(i + 1).drop_last() =~= ps.take(i as int));
            assert(ps.take(i + 1).last() == ps[i as int]);
        }
        let kv = split_on_exec(p, '=');
        if kv.len() > 1 && chars_eq(kv[0].as_slice(), nc.as_slice()) {
            let klen = kv[0].len();
            proof {
                crate::text::lemma_split_first_piece(p@, '=');
                assert(kv@[0]@ == split_on(p@, '=')[0]);
                assert(klen < p@.len());
            }
            let plen = p.len();
            assert(klen < plen);
            let value = crate::text::drop_prefix(p, klen + 1);
            assert(value@ =~= p@.skip(klen + 1));
            proof {
                let parts = split_on(p@, '=');
                assert(kv@[0]@ == parts[0]);
                assert(parts.len() > 1);
                assert(parts[0] == name@);
                assert(ps.take(i + 1).last() == p@);
                assert(spec_query_param(ps.take(i + 1), name@) == Some(p@.skip(parts[0].len() + 1int)));
                lemma_query_param_prefix(ps, name@, i as int);
                assert(spec_query_param(split_on(q@, '&'), name@) == Some(value@));
            }
            return Some(string_of(value.as_slice()));
        }
        i = i + 1;
    }
    assert(ps.take(pairs@.len() as int) =~= ps);
    None
}

proof fn lemma_query_param_prefix(ps: Seq<Seq<char>>, name: Seq<char>, i: int)
    requires
        0 <= i < ps.len(),
        spec_query_param(ps.take(i), name) is None,
        spec_query_param(ps.take(i + 1), name) is Some,
    ensures
        spec_query_param(ps, name) == spec_query_param(ps.take(i + 1), name),
    decreases ps.len() - i,
{
    lemma_query_param_extend(ps, name, i + 1, ps.len() as int);
    assert(ps.take(ps.len() as int) =~= ps);
}

proof fn lemma_query_param_extend(ps: Seq<Seq<char>>, name: Seq<char>, k: int, m: int)
    requires
        0 <= k <= m <= ps.len(),
        spec_query_param(ps.take(k), name) is Some,
    ensures
        spec_query_param(ps.take(m), name) == spec_query_param(ps.take(k), name),
    decreases m - k,
{
    if k < m {
        lemma_query_param_extend(ps, name, k, m - 1);
        assert(ps.take(m).drop_last() =~= ps.take(m - 1));
    }
    assert(ps.take(ps.len() as int) =~= ps);
}

} // verus!

verus! {

// ----- the graph around a symbol -----

/// What the graph reads of one relationship found for its center.
#[derive(Debug, Clone, PartialEq, Eq)]
pub struct RelationshipLink {
    pub edge_type: String,
    pub source_file: String,
    pub source_symbol_id: Option<String>,
    pub source_name: Option<String>,
    pub target_file: Option<String>,
    pub target_symbol_id: Option<String>,
    pub target_name: Option<String>,
    pub target_external_name: Option<String>,
}

/// A node of the graph.
#[derive(Debug, Clone, PartialEq, Eq)]
pub struct GraphNode {
    pub id: String,
    pub label: String,
    pub kind: String,
    pub path: String,
    pub is_center: bool,
}

/// An edge of the graph; the `i`-th edge stands for the `i`-th relationship.
#[derive(Debug, Clone, PartialEq, Eq)]
pub struct GraphEdge {
    pub from: String,
    pub to: String,
    pub label: String,
}

/// The graph around a symbol.
#[derive(Debug, Clone, PartialEq, Eq)]
pub struct Graph {
    pub nodes: Vec<GraphNode>,
    pub edges: Vec<GraphEdge>,
}

/// The view of a node: id, label, kind, path, whether it is the center.
pub struct NodeView {
    pub id: Seq<char>,
    pub label: Seq<char>,
    pub kind: Seq<char>,
    pub path: Seq<char>,
    pub is_center: bool,
}

impl View for GraphNode {
    type V = NodeView;

    open spec fn view(&self) -> NodeView {
        NodeView { id: self.id@, label: self.label@, kind: self.kind@, path: self.path@, is_center: self.is_center }
    }
}

pub open spec fn or_empty(o: Option<String>) -> Seq<char> {
    match o {
        Some(s) => s@,
        None => Seq::empty(),
    }
}

/// The node a relationship's source stands for: its symbol, or `external:<name>` when the
/// source has no symbol.
pub open spec fn source_node(l: RelationshipLink) -> NodeView {
    NodeView {
        id: match l.source_symbol_id {
            Some(id) => id@,
            None => "external:"@ + or_empty(l.source_name),
        },
        label: match l.source_name {
            Some(n) => n@,
            None => "external"@,
        },
        kind: "unknown"@,
        path: l.source_file@,
        is_center: false,
    }
}

/// The node a relationship's target stands for: its symbol, or `external:<name>` for a
/// name outside the index.
pub open spec fn target_node(l: RelationshipLink) -> NodeView {
    match l.target_symbol_id {
        Some(id) => NodeView {
            id: id@,
            label: match l.target_name {
                Some(n) => n@,
                None => or_empty(l.target_external_name),
            },
            kind: "unknown"@,
            path: or_empty(l.target_file),
            is_center: false,
        },
        None => NodeView {
            id: "external:"@ + or_empty(l.target_external_name),
            label: match l.target_external_name {
                Some(n) => n@,
                None => or_empty(l.target_name),
            },
            kind: "unknown"@,
            path: or_empty(l.target_file),
            is_center: false,
        },
    }
}

/// The center symbol's node.
pub open spec fn center_node(c: SymbolResult) -> NodeView {
    NodeView { id: c.symbol_id@, label: c.name@, kind: c.kind@, path: c.relative_path@, is_center: true }
}

/// The nodes in the order they are met: the center, then each relationship's source and
/// target.
pub open spec fn candidate_nodes(c: SymbolResult, links: Seq<RelationshipLink>) -> Seq<NodeView>
    decreases links.len(),
{
    if links.len() == 0 {
        seq![center_node(c)]
    } else {
        candidate_nodes(c, links.drop_last()).push(source_node(links.last())).push(target_node(links.last()))
    }
}

/// Whether some node has the id.
pub open spec fn has_id(nodes: Seq<NodeView>, id: Seq<char>) -> bool {
    exists|i: int| 0 <= i < nodes.len() && (#[trigger] nodes[i]).id == id
}

/// The nodes kept: each with a non-empty id not met before.
pub open spec fn unique_nodes(cands: Seq<NodeView>) -> Seq<NodeView>
    decreases cands.len(),
{
    if cands.len() == 0 {
        Seq::empty()
    } else {
        let prev = unique_nodes(cands.drop_last());
        let n = cands.last();
        if n.id.len() > 0 && !has_id(prev, n.id) {
            prev.push(n)
        } else {
            prev
        }
    }
}

/// The edge a relationship stands for.
pub open spec fn link_edge(l: RelationshipLink) -> (Seq<char>, Seq<char>, Seq<char>) {
    (source_node(l).id, target_node(l).id, l.edge_type@)
}

/// The center of a graph: the first symbol found by name, or an error naming the symbol.
pub fn graph_center(symbol: &str, found: Vec<SymbolResult>) -> (r: Result<SymbolResult, AstralError>)
    ensures
        found@.len() > 0 ==> r == Ok::<SymbolResult, AstralError>(found@[0]),
        found@.len() == 0 ==> crate::index::symbol_not_found(r, symbol@),
{
    let mut found = found;
    if found.len() == 0 {
        let mut message = "symbol not found: ".to_owned();
        append_chars(&mut message, chars_of(symbol).as_slice());
        return Err(AstralError::Indexing { message });
    }
    Ok(found.swap_remove(0))
}

fn opt_text(o: &Option<String>) -> (r: String)
    ensures
        r@ == or_empty(*o),
{
    match o {
        Some(s) => s.clone(),
        None => String::new(),
    }
}

fn external_id(name: &Option<String>) -> (r: String)
    ensures
        r@ == "external:"@ + or_empty(*name),
{
    let mut r = "external:".to_owned();
    append_chars(&mut r, chars_of(opt_text(name).as_str()).as_slice());
    r
}

fn make_source_node(l: &RelationshipLink) -> (r: GraphNode)
    ensures
        r@ == source_node(*l),
{
    let id = match &l.source_symbol_id {
        Some(id) => id.clone(),
        None => external_id(&l.source_name),
    };
    let label = match &l.source_name {
        Some(n) => n.clone(),
        None => "external".to_owned(),
    };
    GraphNode { id, label, kind: "unknown".to_owned(), path: l.source_file.clone(), is_center: false }
}

fn make_target_node(l: &RelationshipLink) -> (r: GraphNode)
    ensures
        r@ == target_node(*l),
{
    match &l.target_symbol_id {
        Some(id) => {
            let label = match &l.target_name {
                Some(n) => n.clone(),
                None => opt_text(&l.target_external_name),
            };
            GraphNode {
                id: id.clone(),
                label,
                kind: "unknown".to_owned(),
                path: opt_text(&l.target_file),
                is_center: false,
            }
        },
        None => {
            let label = match &l.target_external_name {
                Some(n) => n.clone(),
                None => opt_text(&l.target_name),
            };
            GraphNode {
                id: external_id(&l.target_external_name),
                label,
                kind: "unknown".to_owned(),
                path: opt_text(&l.target_file),
                is_center: false,
            }
        },
    }
}

/// Adds a node unless its id is empty or already present.
fn add_node(nodes: &mut Vec<GraphNode>, node: GraphNode)
    ensures
        final(nodes)@.map_values(|n: GraphNode| n@) == if node.id@.len() > 0 && !has_id(
            old(nodes)@.map_values(|n: GraphNode| n@),
            node.id@,
        ) {
            old(nodes)@.map_values(|n: GraphNode| n@).push(node@)
        } else {
            old(nodes)@.map_values(|n: GraphNode| n@)
        },
{
    let ghost views = nodes@.map_values(|n: GraphNode| n@);
    if node.id.as_str().is_empty() {
        return;
    }
    let mut i: usize = 0;
    while i < nodes.len()
        invariant
            i <= nodes@.len(),
            views == nodes@.map_values(|n: GraphNode| n@),
            forall|j: int| 0 <= j < i ==> (#[trigger] views[j]).id != node.id@,
        decreases nodes@.len() - i,
    {
        if nodes[i].id == node.id {
            assert(views[i as int].id == node.id@);
            return;
        }
        i = i + 1;
    }
    let ghost v = node@;
    nodes.push(node);
    assert(nodes@.map_values(|n: GraphNode| n@) =~= views.push(v));
}

/// The graph around `center`: its nodes (the center, then each relationship's source and
/// target, each id once, empty ids left out) and one edge per relationship.
pub fn build_graph(center: &SymbolResult, links: &Vec<RelationshipLink>) -> (r: Graph)
    ensures
        r.nodes@.map_values(|n: GraphNode| n@) == unique_nodes(candidate_nodes(*center, links@)),
        r.edges@.len() == links@.len(),
        forall|i: int|
            0 <= i < links@.len() ==> ((#[trigger] r.edges@[i]).from@, r.edges@[i].to@, r.edges@[i].label@)
                == link_edge(links@[i]),
{
    let mut nodes: Vec<GraphNode> = Vec::new();
    let c = GraphNode {
        id: center.symbol_id.clone(),
        label: center.name.clone(),
        kind: center.kind.clone(),
        path: center.relative_path.clone(),
        is_center: true,
    };
    proof {
        let cands = candidate_nodes(*center, Seq::<RelationshipLink>::empty());
        assert(cands == seq![center_node(*center)]);
        assert(cands.drop_last() =~= Seq::<NodeView>::empty());
        assert(unique_nodes(Seq::<NodeView>::empty()) =~= Seq::<NodeView>::empty());
        assert(nodes@.map_values(|n: GraphNode| n@) =~= Seq::<NodeView>::empty());
        assert(!has_id(Seq::<NodeView>::empty(), c.id@));
    }
    add_node(&mut nodes, c);
    assert(links@.take(0) =~= Seq::<RelationshipLink>::empty());
    let mut edges: Vec<GraphEdge> = Vec::new();
    let mut i: usize = 0;
    while i < links.len()
        invariant
            i <= links@.len(),
            nodes@.map_values(|n: GraphNode| n@) == unique_nodes(candidate_nodes(*center, links@.take(i as int))),
            edges@.len() == i,
            forall|j: int|
                0 <= j < i ==> ((#[trigger] edges@[j]).from@, edges@[j].to@, edges@[j].label@) == link_edge(
                    links@[j],
                ),
        decreases links@.len() - i,
    {
        let l = &links[i];
        let s = make_source_node(l);
        let t = make_target_node(l);
        let from = s.id.clone();
        let to = t.id.clone();
        let ghost prev = candidate_nodes(*center, links@.take(i as int));
        proof {
            let next = links@.take(i + 1);
            assert(next.drop_last() =~= links@.take(i as int));
            assert(next.last() == *l);
            let cands = candidate_nodes(*center, next);
            assert(cands == prev.push(source_node(*l)).push(target_node(*l)));
            assert(cands.drop_last() == prev.push(source_node(*l)));
            assert(prev.push(source_node(*l)).drop_last() =~= prev);
        }
        let ghost sv = s@;
        let ghost tv = t@;
        add_node(&mut nodes, s);
        assert(nodes@.map_values(|n: GraphNode| n@) == unique_nodes(prev.push(sv)));
        add_node(&mut nodes, t);
        proof {
            assert(prev.push(sv).push(tv).drop_last() =~= prev.push(sv));
            assert(nodes@.map_values(|n: GraphNode| n@) == unique_nodes(prev.push(sv).push(tv)));
        }
        edges.push(GraphEdge { from, to, label: l.edge_type.clone() });
        i = i + 1;
    }
    assert(links@.take(links@.len() as int) =~= links@);
    Graph { nodes, edges }
}

} // verus!

verus! {

proof fn lemma_split_pieces_have_no_sep(s: Seq<char>, sep: char, n: int)
    requires
        0 <= n <= s.len(),
    ensures
        forall|k: int| 0 <= k < split_acc_pieces(s, sep, n).len() ==> !(#[trigger] split_acc_pieces(s, sep, n)[k]).contains(sep),
        !crate::text::split_acc(s, sep, n).1.contains(sep),
    decreases n,
{
    if n > 0 {
        lemma_split_pieces_have_no_sep(s, sep, n - 1);
        let (done, cur) = crate::text::split_acc(s, sep, n - 1);
        assert(split_acc_pieces(s, sep, n - 1) == done);
        if s[n - 1] == sep {
            assert(crate::text::split_acc(s, sep, n) == (done.push(cur), Seq::<char>::empty()));
            let pieces = done.push(cur);
            assert(split_acc_pieces(s, sep, n) == pieces);
            assert forall|k: int| 0 <= k < pieces.len() implies !(#[trigger] pieces[k]).contains(sep) by {
                if k < done.len() {
                    assert(pieces[k] == done[k]);
                } else {
                    assert(pieces[k] == cur);
                }
            }
            assert(!Seq::<char>::empty().contains(sep));
        } else {
            let pushed = cur.push(s[n - 1]);
            assert(crate::text::split_acc(s, sep, n) == (done, pushed));
            assert forall|i: int| 0 <= i < pushed.len() implies #[trigger] pushed[i] != sep by {
                if i < cur.len() {
                    assert(pushed[i] == cur[i]);
                    assert(cur.contains(cur[i]));
                }
            }
        }
    }
}

/// The finished pieces after reading the first `n` characters.
pub open spec fn split_acc_pieces(s: Seq<char>, sep: char, n: int) -> Seq<Seq<char>> {
    crate::text::split_acc(s, sep, n).0
}

proof fn lemma_join_all_extends(base: Seq<char>, segs: Seq<Seq<char>>)
    requires
        forall|k: int| 0 <= k < segs.len() ==> (#[trigger] segs[k]).len() > 0 && segs[k][0] != '/',
    ensures
        crate::text::starts_with(join_all(base, segs), base),
    decreases segs.len(),
{
    if segs.len() == 0 {
        assert(base.take(base.len() as int) =~= base);
    } else {
        let prev = segs.drop_last();
        assert forall|k: int| 0 <= k < prev.len() implies (#[trigger] prev[k]).len() > 0 && prev[k][0] != '/' by {
            assert(prev[k] == segs[k]);
        }
        lemma_join_all_extends(base, prev);
        let j = join_all(base, prev);
        let s = segs.last();
        assert(s == segs[segs.len() - 1]);
        assert(join_all(base, segs) == crate::paths::spec_join_path(j, s));
        let n = base.len() as int;
        assert(j.take(n) == base);
        if j.len() == 0 {
            assert(crate::paths::spec_join_path(j, s) == s);
            assert(s.take(0) =~= base);
        } else if j.last() == '/' {
            assert(crate::paths::spec_join_path(j, s) == j + s);
            assert((j + s).take(n) =~= j.take(n));
        } else {
            assert(crate::paths::spec_join_path(j, s) == j + seq!['/'] + s);
            assert((j + seq!['/'] + s).take(n) =~= j.take(n));
        }
    }
}

proof fn lemma_kept_segments(segs: Seq<Seq<char>>)
    requires
        forall|k: int| 0 <= k < segs.len() ==> !(#[trigger] segs[k]).contains('/'),
    ensures
        forall|k: int| 0 <= k < kept_segments(segs).len() ==> {
            &&& (#[trigger] kept_segments(segs)[k]).len() > 0
            &&& kept_segments(segs)[k][0] != '/'
            &&& kept_segments(segs)[k] != seq!['.']
        },
    decreases segs.len(),
{
    if segs.len() > 0 {
        let prev_segs = segs.drop_last();
        assert forall|k: int| 0 <= k < prev_segs.len() implies !(#[trigger] prev_segs[k]).contains('/') by {
            assert(prev_segs[k] == segs[k]);
        }
        lemma_kept_segments(prev_segs);
        let prev = kept_segments(prev_segs);
        let s = segs.last();
        assert(s == segs[segs.len() - 1]);
        if s.len() > 0 && s != seq!['.'] {
            assert(kept_segments(segs) == prev.push(s));
            assert(s.contains(s[0]));
            assert forall|k: int| 0 <= k < prev.push(s).len() implies {
                &&& (#[trigger] prev.push(s)[k]).len() > 0
                &&& prev.push(s)[k][0] != '/'
                &&& prev.push(s)[k] != seq!['.']
            } by {
                if k < prev.len() {
                    assert(prev.push(s)[k] == prev[k]);
                }
            }
        } else {
            assert(kept_segments(segs) == prev);
        }
    }
}

proof fn lemma_kept_not_forbidden(segs: Seq<Seq<char>>)
    requires
        forall|k: int| 0 <= k < segs.len() ==> !forbidden_segment(#[trigger] segs[k]),
    ensures
        forall|k: int| 0 <= k < kept_segments(segs).len() ==> !forbidden_segment(#[trigger] kept_segments(segs)[k]),
    decreases segs.len(),
{
    if segs.len() > 0 {
        let prev_segs = segs.drop_last();
        assert forall|k: int| 0 <= k < prev_segs.len() implies !forbidden_segment(#[trigger] prev_segs[k]) by {
            assert(prev_segs[k] == segs[k]);
        }
        lemma_kept_not_forbidden(prev_segs);
        let prev = kept_segments(prev_segs);
        let s = segs.last();
        assert(s == segs[segs.len() - 1]);
        if s.len() > 0 && s != seq!['.'] {
            assert(kept_segments(segs) == prev.push(s));
            assert forall|k: int| 0 <= k < prev.push(s).len() implies !forbidden_segment(#[trigger] prev.push(s)[k]) by {
                if k < prev.len() {
                    assert(prev.push(s)[k] == prev[k]);
                }
            }
        }
    }
}

/// A served file stays under the assets directory: the path found for a request extends
/// the directory, and what is joined onto it are plain names (no `..`, no `.`, no empty
/// segment).
pub proof fn safe_subpath_stays_under_base(base: Seq<char>, path: Seq<char>)
    ensures
        spec_safe_subpath(base, path) matches Some(p) ==> crate::text::starts_with(p, base),
        spec_safe_subpath(base, path) is Some ==> forall|k: int|
            0 <= k < kept_segments(split_on(path, '/')).len() ==> {
                &&& #[trigger] kept_segments(split_on(path, '/'))[k] != seq!['.', '.']
                &&& kept_segments(split_on(path, '/'))[k] != seq!['.']
                &&& kept_segments(split_on(path, '/'))[k].len() > 0
            },
{
    let segs = split_on(path, '/');
    if spec_safe_subpath(base, path) is Some {
        lemma_split_pieces_have_no_sep(path, '/', path.len() as int);
        assert forall|k: int| 0 <= k < segs.len() implies !(#[trigger] segs[k]).contains('/') by {
            let (done, cur) = crate::text::split_acc(path, '/', path.len() as int);
            if k < done.len() {
                assert(segs[k] == split_acc_pieces(path, '/', path.len() as int)[k]);
            } else {
                assert(segs[k] == cur);
            }
        }
        lemma_kept_segments(segs);
        lemma_kept_not_forbidden(segs);
        lemma_join_all_extends(base, kept_segments(segs));
    }
}

} // verus!
