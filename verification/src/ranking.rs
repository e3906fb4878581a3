use vstd::prelude::*;

use crate::text::{
    chars_of, is_alphanumeric, is_ascii_upper, is_whitespace, join, join_strings, lower, lower_all,
    push_char, string_of,
    string_views, unicode_alphanumeric, unicode_whitespace,
};

verus! {

/// `char::is_alphanumeric`: for ASCII exactly the letters and digits, beyond ASCII the
/// Unicode tables.
pub open spec fn alphanumeric(c: char) -> bool {
    if (c as u32) < 128 {
        crate::text::is_ascii_alnum(c)
    } else {
        unicode_alphanumeric(c)
    }
}

/// `char::is_whitespace`: for ASCII exactly space and tab through carriage return, beyond
/// ASCII the Unicode tables.
pub open spec fn whitespace(c: char) -> bool {
    if (c as u32) < 128 {
        crate::text::is_ascii_whitespace_char(c)
    } else {
        unicode_whitespace(c)
    }
}

/// Word characters: alphanumerics and `_`.
pub open spec fn is_word_char(c: char) -> bool {
    alphanumeric(c) || c == '_'
}

/// Pieces of `s` between non-word characters (finished ones, and the one in progress).
pub open spec fn words_acc(s: Seq<char>, n: int) -> (Seq<Seq<char>>, Seq<char>)
    decreases n,
{
    if n <= 0 {
        (Seq::empty(), Seq::empty())
    } else {
        let (done, cur) = words_acc(s, n - 1);
        if !is_word_char(s[n - 1]) {
            (done.push(cur), Seq::empty())
        } else {
            (done, cur.push(s[n - 1]))
        }
    }
}

/// The pieces of the query between non-word characters (some may be empty).
pub open spec fn word_pieces(s: Seq<char>) -> Seq<Seq<char>> {
    let (done, cur) = words_acc(s, s.len() as int);
    done.push(cur)
}

/// A camel-case boundary: an ASCII capital after a character that is not one.
pub open spec fn camel_boundary(w: Seq<char>, i: int) -> bool {
    1 <= i < w.len() && is_ascii_upper(w[i]) && !is_ascii_upper(w[i - 1])
}

/// Pieces of a word cut before each camel-case boundary, among its first `n` characters;
/// each finished piece is lowercased with its `_` read as spaces.
pub open spec fn camel_acc(w: Seq<char>, n: int) -> (Seq<Seq<char>>, Seq<char>)
    decreases n,
{
    if n <= 0 {
        (Seq::empty(), Seq::empty())
    } else {
        let (done, cur) = camel_acc(w, n - 1);
        if camel_boundary(w, n - 1) {
            (done.push(lower(underscores_to_spaces(cur))), seq![w[n - 1]])
        } else {
            (done, cur.push(w[n - 1]))
        }
    }
}

pub open spec fn underscores_to_spaces(s: Seq<char>) -> Seq<char> {
    s.map_values(|c: char| if c == '_' { ' ' } else { c })
}

/// The lowercased camel-case pieces of a word, with `_` read as a space in every piece.
pub open spec fn camel_pieces(w: Seq<char>) -> Seq<Seq<char>> {
    let (done, cur) = camel_acc(w, w.len() as int);
    done.push(lower(underscores_to_spaces(cur)))
}

/// Non-empty runs of non-whitespace (finished ones, and the one in progress).
pub open spec fn ws_acc(s: Seq<char>, n: int) -> (Seq<Seq<char>>, Seq<char>)
    decreases n,
{
    if n <= 0 {
        (Seq::empty(), Seq::empty())
    } else {
        let (done, cur) = ws_acc(s, n - 1);
        if whitespace(s[n - 1]) {
            if cur.len() > 0 {
                (done.push(cur), Seq::empty())
            } else {
                (done, cur)
            }
        } else {
            (done, cur.push(s[n - 1]))
        }
    }
}

/// The pieces `str::split_whitespace` yields.
pub open spec fn split_ws(s: Seq<char>) -> Seq<Seq<char>> {
    let (done, cur) = ws_acc(s, s.len() as int);
    if cur.len() > 0 {
        done.push(cur)
    } else {
        done
    }
}

/// A token longer than one byte in UTF-8: two characters or more, or one outside ASCII.
pub open spec fn long_enough(t: Seq<char>) -> bool {
    t.len() >= 2 || (t.len() == 1 && (t[0] as u32) >= 0x80)
}

pub open spec fn long_tokens(ts: Seq<Seq<char>>, n: int) -> Seq<Seq<char>>
    decreases n,
{
    if n <= 0 {
        Seq::empty()
    } else {
        long_tokens(ts, n - 1) + if long_enough(ts[n - 1]) {
            seq![ts[n - 1]]
        } else {
            Seq::empty()
        }
    }
}

pub open spec fn pieces_tokens(ps: Seq<Seq<char>>, n: int) -> Seq<Seq<char>>
    decreases n,
{
    if n <= 0 {
        Seq::empty()
    } else {
        pieces_tokens(ps, n - 1) + long_tokens(split_ws(ps[n - 1]), split_ws(ps[n - 1]).len() as int)
    }
}

pub open spec fn words_tokens(ws: Seq<Seq<char>>, n: int) -> Seq<Seq<char>>
    decreases n,
{
    if n <= 0 {
        Seq::empty()
    } else {
        words_tokens(ws, n - 1) + if ws[n - 1].len() == 0 {
            Seq::empty()
        } else {
            pieces_tokens(camel_pieces(ws[n - 1]), camel_pieces(ws[n - 1]).len() as int)
        }
    }
}

/// The search tokens of a query: its words (runs of alphanumerics and `_`), cut at
/// camel-case boundaries and lowercased, with `_` read as a space, split at whitespace,
/// keeping the tokens longer than one byte.
pub open spec fn spec_tokenize(q: Seq<char>) -> Seq<Seq<char>> {
    words_tokens(word_pieces(q), word_pieces(q).len() as int)
}

fn word_pieces_exec(s: &[char]) -> (r: Vec<Vec<char>>)
    ensures
        r@.len() == word_pieces(s@).len(),
        forall|k: int| 0 <= k < r@.len() ==> #[trigger] r@[k]@ == word_pieces(s@)[k],
{
    let mut done: Vec<Vec<char>> = Vec::new();
    let mut cur: Vec<char> = Vec::new();
    let mut i: usize = 0;
    while i < s.len()
        invariant
            i <= s@.len(),
            done@.len() == words_acc(s@, i as int).0.len(),
            forall|k: int| 0 <= k < done@.len() ==> #[trigger] done@[k]@ == words_acc(s@, i as int).0[k],
            cur@ == words_acc(s@, i as int).1,
        decreases s@.len() - i,
    {
        let c = s[i];
        if !(is_alphanumeric(c) || c == '_') {
            done.push(cur);
            cur = Vec::new();
        } else {
            cur.push(c);
        }
        i = i + 1;
    }
    done.push(cur);
    done
}

fn underscores_to_spaces_exec(s: &[char]) -> (r: Vec<char>)
    ensures
        r@ == underscores_to_spaces(s@),
{
    let mut r: Vec<char> = Vec::new();
    let mut i: usize = 0;
    while i < s.len()
        invariant
            i <= s@.len(),
            r@ == underscores_to_spaces(s@.take(i as int)),
        decreases s@.len() - i,
    {
        let c = s[i];
        r.push(if c == '_' { ' ' } else { c });
        i = i + 1;
        assert(underscores_to_spaces(s@.take(i as int)) =~= underscores_to_spaces(s@.take(i - 1)).push(
            if c == '_' { ' ' } else { c },
        ));
    }
    assert(s@.take(s@.len() as int) == s@);
    r
}

fn camel_pieces_exec(w: &[char]) -> (r: Vec<Vec<char>>)
    ensures
        r@.len() == camel_pieces(w@).len(),
        forall|k: int| 0 <= k < r@.len() ==> #[trigger] r@[k]@ == camel_pieces(w@)[k],
{
    let mut done: Vec<Vec<char>> = Vec::new();
    let mut cur: Vec<char> = Vec::new();
    let mut i: usize = 0;
    while i < w.len()
        invariant
            i <= w@.len(),
            done@.len() == camel_acc(w@, i as int).0.len(),
            forall|k: int| 0 <= k < done@.len() ==> #[trigger] done@[k]@ == camel_acc(w@, i as int).0[k],
            cur@ == camel_acc(w@, i as int).1,
        decreases w@.len() - i,
    {
        let c = w[i];
        if i >= 1 && 'A' <= c && c <= 'Z' && !('A' <= w[i - 1] && w[i - 1] <= 'Z') {
            let spaced = underscores_to_spaces_exec(cur.as_slice());
            let piece = lower_all(spaced.as_slice());
            done.push(piece);
            cur = Vec::new();
            cur.push(c);
        } else {
            cur.push(c);
        }
        i = i + 1;
    }
    let last = underscores_to_spaces_exec(cur.as_slice());
    done.push(lower_all(last.as_slice()));
    done
}

fn split_ws_exec(s: &[char]) -> (r: Vec<Vec<char>>)
    ensures
        r@.len() == split_ws(s@).len(),
        forall|k: int| 0 <= k < r@.len() ==> #[trigger] r@[k]@ == split_ws(s@)[k],
{
    let mut done: Vec<Vec<char>> = Vec::new();
    let mut cur: Vec<char> = Vec::new();
    let mut i: usize = 0;
    while i < s.len()
        invariant
            i <= s@.len(),
            done@.len() == ws_acc(s@, i as int).0.len(),
            forall|k: int| 0 <= k < done@.len() ==> #[trigger] done@[k]@ == ws_acc(s@, i as int).0[k],
            cur@ == ws_acc(s@, i as int).1,
        decreases s@.len() - i,
    {
        let c = s[i];
        if is_whitespace(c) {
            if cur.len() > 0 {
                done.push(cur);
                cur = Vec::new();
            }
        } else {
            cur.push(c);
        }
        i = i + 1;
    }
    if cur.len() > 0 {
        done.push(cur);
    }
    done
}

fn push_long_tokens(out: &mut Vec<String>, ts: &Vec<Vec<char>>, Ghost(base): Ghost<Seq<Seq<char>>>, Ghost(spec_ts): Ghost<Seq<Seq<char>>>)
    requires
        string_views(old(out)@) == base,
        ts@.len() == spec_ts.len(),
        forall|k: int| 0 <= k < ts@.len() ==> #[trigger] ts@[k]@ == spec_ts[k],
    ensures
        string_views(final(out)@) == base + long_tokens(spec_ts, spec_ts.len() as int),
{
    let mut j: usize = 0;
    while j < ts.len()
        invariant
            j <= ts@.len(),
            ts@.len() == spec_ts.len(),
            forall|k: int| 0 <= k < ts@.len() ==> #[trigger] ts@[k]@ == spec_ts[k],
            string_views(out@) == base + long_tokens(spec_ts, j as int),
        decreases ts@.len() - j,
    {
        let t = &ts[j];
        assert(t@ == spec_ts[j as int]);
        let long = t.len() >= 2 || (t.len() == 1 && (t[0] as u32) >= 0x80);
        if long {
            let ghost before = out@;
            out.push(string_of(t.as_slice()));
            assert(string_views(out@) =~= string_views(before).push(t@));
            assert(base + long_tokens(spec_ts, j + 1) =~= (base + long_tokens(spec_ts, j as int)).push(t@));
        } else {
            assert(base + long_tokens(spec_ts, j + 1) =~= base + long_tokens(spec_ts, j as int));
        }
        j = j + 1;
    }
}

/// Splits a search query into lowercase tokens: words are runs of alphanumerics and `_`,
/// cut before each ASCII capital that follows a non-capital; `_` separates tokens, in
/// camel-case and snake_case alike; tokens of a single byte are dropped.
pub fn tokenize(query: &str) -> (r: Vec<String>)
    ensures
        string_views(r@) == spec_tokenize(query@),
{
    let q = chars_of(query);
    let words = word_pieces_exec(q.as_slice());
    let ghost ws = word_pieces(q@);
    let mut out: Vec<String> = Vec::new();
    assert(string_views(out@) =~= words_tokens(ws, 0));
    let mut i: usize = 0;
    while i < words.len()
        invariant
            i <= words@.len(),
            words@.len() == ws.len(),
            forall|k: int| 0 <= k < words@.len() ==> #[trigger] words@[k]@ == ws[k],
            string_views(out@) == words_tokens(ws, i as int),
        decreases words@.len() - i,
    {
        let w = &words[i];
        assert(w@ == ws[i as int]);
        if w.len() > 0 {
            let pieces = camel_pieces_exec(w.as_slice());
            let ghost ps = camel_pieces(w@);
            let ghost base = words_tokens(ws, i as int);
            let mut j: usize = 0;
            while j < pieces.len()
                invariant
                    j <= pieces@.len(),
                    pieces@.len() == ps.len(),
                    forall|k: int| 0 <= k < pieces@.len() ==> #[trigger] pieces@[k]@ == ps[k],
                    string_views(out@) == base + pieces_tokens(ps, j as int),
                decreases pieces@.len() - j,
            {
                let parts = split_ws_exec(pieces[j].as_slice());
                assert(pieces@[j as int]@ == ps[j as int]);
                push_long_tokens(&mut out, &parts, Ghost(base + pieces_tokens(ps, j as int)), Ghost(split_ws(ps[j as int])));
                assert(base + pieces_tokens(ps, j + 1) =~= base + pieces_tokens(ps, j as int) + long_tokens(
                    split_ws(ps[j as int]),
                    split_ws(ps[j as int]).len() as int,
                ));
                j = j + 1;
            }
            assert(words_tokens(ws, i + 1) =~= base + pieces_tokens(ps, ps.len() as int));
        } else {
            assert(words_tokens(ws, i + 1) =~= words_tokens(ws, i as int));
        }
        i = i + 1;
    }
    out
}

} // verus!

verus! {

pub open spec fn or_separator() -> Seq<char> {
    seq![' ', 'O', 'R', ' ']
}

pub open spec fn prefix_terms(ts: Seq<Seq<char>>) -> Seq<Seq<char>> {
    ts.map_values(|t: Seq<char>| t.push('*'))
}

/// The full-text query for a search: each token as a prefix term (`token*`), joined by ` OR `.
pub open spec fn spec_fts_query(q: Seq<char>) -> Seq<char> {
    join(prefix_terms(spec_tokenize(q)), or_separator())
}

/// The SQLite FTS5 query for a search: each token as a prefix term, joined by ` OR `.
pub fn fts_query(query: &str) -> (r: String)
    ensures
        r@ == spec_fts_query(query@),
{
    let tokens = tokenize(query);
    let mut terms: Vec<String> = Vec::new();
    let mut i: usize = 0;
    while i < tokens.len()
        invariant
            i <= tokens@.len(),
            string_views(terms@) == prefix_terms(string_views(tokens@).take(i as int)),
        decreases tokens@.len() - i,
    {
        let mut term = tokens[i].clone();
        push_char(&mut term, '*');
        let ghost before = terms@;
        terms.push(term);
        i = i + 1;
        assert(string_views(terms@) =~= string_views(before).push(tokens@[i - 1]@.push('*')));
        assert(prefix_terms(string_views(tokens@).take(i as int)) =~= prefix_terms(
            string_views(tokens@).take(i - 1),
        ).push(tokens@[i - 1]@.push('*')));
    }
    assert(string_views(tokens@).take(tokens@.len() as int) =~= string_views(tokens@));
    let sep = vec![' ', 'O', 'R', ' '];
    assert(sep@ == or_separator());
    join_strings(&terms, sep.as_slice())
}

} // verus!

verus! {

// ----- what a search result matched -----

/// How many of the tokens occur in the text.
pub open spec fn matching_tokens(tokens: Seq<Seq<char>>, text: Seq<char>) -> nat
    decreases tokens.len(),
{
    if tokens.len() == 0 {
        0
    } else {
        matching_tokens(tokens.drop_last(), text) + if crate::text::contains(text, tokens.last()) {
            1nat
        } else {
            0nat
        }
    }
}

/// The signals a search result is ranked by, beside its full-text rank.
#[derive(Debug, Clone, PartialEq, Eq)]
pub struct RankingSignals {
    /// How many query tokens occur in the lowercased path.
    pub path_matches: usize,
    /// How many query tokens occur in the lowercased content.
    pub content_matches: usize,
    /// What matched: `lexical` always, `path` and `graph` when they did.
    pub matched_by: Vec<String>,
    /// The explanation shown with the result.
    pub reason: String,
}

fn count_matching(tokens: &Vec<String>, text: &[char]) -> (r: usize)
    ensures
        r == matching_tokens(string_views(tokens@), text@),
{
    let ghost ts = string_views(tokens@);
    let mut n: usize = 0;
    let mut i: usize = 0;
    while i < tokens.len()
        invariant
            i <= tokens@.len(),
            ts == string_views(tokens@),
            n == matching_tokens(ts.take(i as int), text@),
            n <= i,
        decreases tokens@.len() - i,
    {
        proof {
            assert(ts.take(i + 1).drop_last() =~= ts.take(i as int));
            assert(ts.take(i + 1).last() == tokens@[i as int]@);
        }
        let t = chars_of(tokens[i].as_str());
        if crate::text::contains_exec(text, t.as_slice()) {
            n = n + 1;
        }
        i = i + 1;
    }
    assert(ts.take(tokens@.len() as int) =~= ts);
    n
}

/// The explanation of a result's rank.
pub open spec fn spec_reason(content_matches: nat, path_matches: nat, graph_degree: nat) -> Seq<char> {
    "FTS rank、"@ + crate::text::spec_decimal(content_matches) + " token、path近接"@ + crate::text::spec_decimal(
        path_matches,
    ) + "件、graph接続"@ + crate::text::spec_decimal(graph_degree) + "件を統合"@
}

/// What a result for `query` at `path` with `content` and `graph_degree` relationships
/// matched: the query's tokens are looked for in the ASCII-lowercased path and content.
pub fn ranking_signals(query: &str, path: &str, content: &str, graph_degree: usize) -> (r: RankingSignals)
    ensures
        r.path_matches == matching_tokens(spec_tokenize(query@), crate::text::lower(path@)),
        r.content_matches == matching_tokens(spec_tokenize(query@), crate::text::lower(content@)),
        string_views(r.matched_by@) == seq!["lexical"@] + (if r.path_matches > 0 { seq!["path"@] } else {
            Seq::empty()
        }) + (if graph_degree > 0 { seq!["graph"@] } else { Seq::empty() }),
        r.reason@ == spec_reason(r.content_matches as nat, r.path_matches as nat, graph_degree as nat),
{
    let tokens = tokenize(query);
    let lp = crate::text::lower_all(chars_of(path).as_slice());
    let lc = crate::text::lower_all(chars_of(content).as_slice());
    let path_matches = count_matching(&tokens, lp.as_slice());
    let content_matches = count_matching(&tokens, lc.as_slice());
    let mut matched_by: Vec<String> = Vec::new();
    matched_by.push("lexical".to_owned());
    if path_matches > 0 {
        matched_by.push("path".to_owned());
    }
    if graph_degree > 0 {
        matched_by.push("graph".to_owned());
    }
    let mut reason = "FTS rank、".to_owned();
    let a = crate::text::decimal(content_matches as u64);
    crate::text::append_chars(&mut reason, chars_of(a.as_str()).as_slice());
    crate::text::append_chars(&mut reason, chars_of(" token、path近接").as_slice());
    let b = crate::text::decimal(path_matches as u64);
    crate::text::append_chars(&mut reason, chars_of(b.as_str()).as_slice());
    crate::text::append_chars(&mut reason, chars_of("件、graph接続").as_slice());
    let c = crate::text::decimal(graph_degree as u64);
    crate::text::append_chars(&mut reason, chars_of(c.as_str()).as_slice());
    crate::text::append_chars(&mut reason, chars_of("件を統合").as_slice());
    proof {
        assert(string_views(matched_by@) =~= seq!["lexical"@] + (if path_matches > 0 { seq!["path"@] } else {
            Seq::empty()
        }) + (if graph_degree > 0 { seq!["graph"@] } else { Seq::empty() }));
    }
    RankingSignals { path_matches, content_matches, matched_by, reason }
}

} // verus!

verus! {

pub open spec fn all_long(ts: Seq<Seq<char>>) -> bool {
    forall|i: int| 0 <= i < ts.len() ==> long_enough(#[trigger] ts[i])
}

proof fn lemma_all_long_concat(a: Seq<Seq<char>>, b: Seq<Seq<char>>)
    requires
        all_long(a),
        all_long(b),
    ensures
        all_long(a + b),
{
    assert forall|i: int| 0 <= i < (a + b).len() implies long_enough(#[trigger] (a + b)[i]) by {
        if i < a.len() {
            assert((a + b)[i] == a[i]);
        } else {
            assert((a + b)[i] == b[i - a.len()]);
        }
    }
}

proof fn lemma_long_tokens(ts: Seq<Seq<char>>, n: int)
    requires
        n <= ts.len(),
    ensures
        all_long(long_tokens(ts, n)),
    decreases n,
{
    if n > 0 {
        lemma_long_tokens(ts, n - 1);
        let tail: Seq<Seq<char>> = if long_enough(ts[n - 1]) { seq![ts[n - 1]] } else { Seq::empty() };
        assert(all_long(tail));
        lemma_all_long_concat(long_tokens(ts, n - 1), tail);
    }
}

proof fn lemma_pieces_tokens(ps: Seq<Seq<char>>, n: int)
    requires
        n <= ps.len(),
    ensures
        all_long(pieces_tokens(ps, n)),
    decreases n,
{
    if n > 0 {
        lemma_pieces_tokens(ps, n - 1);
        let parts = split_ws(ps[n - 1]);
        lemma_long_tokens(parts, parts.len() as int);
        lemma_all_long_concat(pieces_tokens(ps, n - 1), long_tokens(parts, parts.len() as int));
    }
}

proof fn lemma_words_tokens(ws: Seq<Seq<char>>, n: int)
    requires
        n <= ws.len(),
    ensures
        all_long(words_tokens(ws, n)),
    decreases n,
{
    if n > 0 {
        lemma_words_tokens(ws, n - 1);
        let ps = camel_pieces(ws[n - 1]);
        lemma_pieces_tokens(ps, ps.len() as int);
        let tail = if ws[n - 1].len() == 0 { Seq::empty() } else { pieces_tokens(ps, ps.len() as int) };
        assert(all_long(tail));
        lemma_all_long_concat(words_tokens(ws, n - 1), tail);
    }
}

/// Every search token is longer than one byte: single ASCII letters and digits never become
/// tokens.
pub proof fn tokens_are_longer_than_one_byte(query: Seq<char>)
    ensures
        forall|i: int| 0 <= i < spec_tokenize(query).len() ==> long_enough(#[trigger] spec_tokenize(query)[i]),
{
    let ws = word_pieces(query);
    lemma_words_tokens(ws, ws.len() as int);
}

/// `t` holds no `_`.
pub open spec fn no_underscore(t: Seq<char>) -> bool {
    forall|i: int| 0 <= i < t.len() ==> t[i] != '_'
}

pub open spec fn all_without_underscore(ts: Seq<Seq<char>>) -> bool {
    forall|i: int| 0 <= i < ts.len() ==> no_underscore(#[trigger] ts[i])
}

proof fn lemma_all_without_underscore_concat(a: Seq<Seq<char>>, b: Seq<Seq<char>>)
    requires
        all_without_underscore(a),
        all_without_underscore(b),
    ensures
        all_without_underscore(a + b),
{
    assert forall|i: int| 0 <= i < (a + b).len() implies no_underscore(#[trigger] (a + b)[i]) by {
        if i < a.len() {
            assert((a + b)[i] == a[i]);
        } else {
            assert((a + b)[i] == b[i - a.len()]);
        }
    }
}

proof fn lemma_spaced_piece(cur: Seq<char>)
    ensures
        no_underscore(lower(underscores_to_spaces(cur))),
{
    let t = lower(underscores_to_spaces(cur));
    assert forall|i: int| 0 <= i < t.len() implies t[i] != '_' by {
        let c = underscores_to_spaces(cur)[i];
        assert(c != '_');
        if crate::text::is_ascii_upper(c) {
            assert(65 <= (c as u32) <= 90);
            assert(t[i] == ((c as u32) + 32) as char);
            assert((t[i] as u32) >= 97);
        }
    }
}

proof fn lemma_camel_acc_spaced(w: Seq<char>, n: int)
    ensures
        all_without_underscore(camel_acc(w, n).0),
    decreases n,
{
    if n > 0 {
        lemma_camel_acc_spaced(w, n - 1);
        let (done, cur) = camel_acc(w, n - 1);
        if camel_boundary(w, n - 1) {
            lemma_spaced_piece(cur);
            let next = done.push(lower(underscores_to_spaces(cur)));
            assert forall|i: int| 0 <= i < next.len() implies no_underscore(#[trigger] next[i]) by {
                if i < done.len() {
                    assert(next[i] == done[i]);
                }
            }
        }
    }
}

proof fn lemma_camel_pieces_spaced(w: Seq<char>)
    ensures
        all_without_underscore(camel_pieces(w)),
{
    lemma_camel_acc_spaced(w, w.len() as int);
    let (done, cur) = camel_acc(w, w.len() as int);
    lemma_spaced_piece(cur);
    let ps = done.push(lower(underscores_to_spaces(cur)));
    assert forall|i: int| 0 <= i < ps.len() implies no_underscore(#[trigger] ps[i]) by {
        if i < done.len() {
            assert(ps[i] == done[i]);
        }
    }
}

proof fn lemma_ws_acc_keeps(s: Seq<char>, n: int)
    requires
        no_underscore(s),
        n <= s.len(),
    ensures
        all_without_underscore(ws_acc(s, n).0),
        no_underscore(ws_acc(s, n).1),
    decreases n,
{
    if n > 0 {
        lemma_ws_acc_keeps(s, n - 1);
        let (done, cur) = ws_acc(s, n - 1);
        if whitespace(s[n - 1]) {
            if cur.len() > 0 {
                let next = done.push(cur);
                assert forall|i: int| 0 <= i < next.len() implies no_underscore(#[trigger] next[i]) by {
                    if i < done.len() {
                        assert(next[i] == done[i]);
                    }
                }
            }
        } else {
            let c2 = cur.push(s[n - 1]);
            assert forall|i: int| 0 <= i < c2.len() implies c2[i] != '_' by {
                if i < cur.len() {
                    assert(c2[i] == cur[i]);
                }
            }
        }
    }
}

proof fn lemma_split_ws_keeps(s: Seq<char>)
    requires
        no_underscore(s),
    ensures
        all_without_underscore(split_ws(s)),
{
    lemma_ws_acc_keeps(s, s.len() as int);
    let (done, cur) = ws_acc(s, s.len() as int);
    if cur.len() > 0 {
        let r = done.push(cur);
        assert forall|i: int| 0 <= i < r.len() implies no_underscore(#[trigger] r[i]) by {
            if i < done.len() {
                assert(r[i] == done[i]);
            }
        }
    }
}

proof fn lemma_long_tokens_keep(ts: Seq<Seq<char>>, n: int)
    requires
        n <= ts.len(),
        all_without_underscore(ts),
    ensures
        all_without_underscore(long_tokens(ts, n)),
    decreases n,
{
    if n > 0 {
        lemma_long_tokens_keep(ts, n - 1);
        let tail: Seq<Seq<char>> = if long_enough(ts[n - 1]) { seq![ts[n - 1]] } else { Seq::empty() };
        assert(all_without_underscore(tail));
        lemma_all_without_underscore_concat(long_tokens(ts, n - 1), tail);
    }
}

proof fn lemma_pieces_tokens_keep(ps: Seq<Seq<char>>, n: int)
    requires
        n <= ps.len(),
        all_without_underscore(ps),
    ensures
        all_without_underscore(pieces_tokens(ps, n)),
    decreases n,
{
    if n > 0 {
        lemma_pieces_tokens_keep(ps, n - 1);
        assert(no_underscore(ps[n - 1]));
        let parts = split_ws(ps[n - 1]);
        lemma_split_ws_keeps(ps[n - 1]);
        lemma_long_tokens_keep(parts, parts.len() as int);
        lemma_all_without_underscore_concat(pieces_tokens(ps, n - 1), long_tokens(parts, parts.len() as int));
    }
}

proof fn lemma_words_tokens_keep(ws: Seq<Seq<char>>, n: int)
    requires
        n <= ws.len(),
    ensures
        all_without_underscore(words_tokens(ws, n)),
    decreases n,
{
    if n > 0 {
        lemma_words_tokens_keep(ws, n - 1);
        let ps = camel_pieces(ws[n - 1]);
        lemma_camel_pieces_spaced(ws[n - 1]);
        lemma_pieces_tokens_keep(ps, ps.len() as int);
        let tail = if ws[n - 1].len() == 0 { Seq::empty() } else { pieces_tokens(ps, ps.len() as int) };
        assert(all_without_underscore(tail));
        lemma_all_without_underscore_concat(words_tokens(ws, n - 1), tail);
    }
}

/// `_` only separates: camelCase and snake_case parts are split alike, so no search token
/// holds an `_`.
pub proof fn tokens_hold_no_underscore(query: Seq<char>)
    ensures
        forall|i: int| 0 <= i < spec_tokenize(query).len() ==> no_underscore(#[trigger] spec_tokenize(query)[i]),
{
    let ws = word_pieces(query);
    lemma_words_tokens_keep(ws, ws.len() as int);
}

// ----- every token is made of letters and digits -----

pub open spec fn chars_all_word(t: Seq<char>) -> bool {
    forall|i: int| 0 <= i < t.len() ==> is_word_char(#[trigger] t[i])
}

pub open spec fn chars_all_spaced(t: Seq<char>) -> bool {
    forall|i: int| 0 <= i < t.len() ==> token_char(#[trigger] t[i]) || t[i] == ' '
}

/// A character a token may hold: a letter or a digit, and not an ASCII capital.
pub open spec fn token_char(c: char) -> bool {
    alphanumeric(c) && !crate::text::is_ascii_upper(c)
}

/// Every character of `t` is a letter or a digit, and none is an ASCII capital.
pub open spec fn chars_all_alphanumeric(t: Seq<char>) -> bool {
    forall|i: int| 0 <= i < t.len() ==> token_char(#[trigger] t[i])
}

pub open spec fn pieces_all_alphanumeric(ts: Seq<Seq<char>>) -> bool {
    forall|i: int| 0 <= i < ts.len() ==> chars_all_alphanumeric(#[trigger] ts[i])
}

proof fn lemma_alphanumeric_concat(a: Seq<Seq<char>>, b: Seq<Seq<char>>)
    requires
        pieces_all_alphanumeric(a),
        pieces_all_alphanumeric(b),
    ensures
        pieces_all_alphanumeric(a + b),
{
    assert forall|i: int| 0 <= i < (a + b).len() implies chars_all_alphanumeric(#[trigger] (a + b)[i]) by {
        if i < a.len() {
            assert((a + b)[i] == a[i]);
        } else {
            assert((a + b)[i] == b[i - a.len()]);
        }
    }
}

proof fn lemma_words_acc_word(s: Seq<char>, n: int)
    requires
        n <= s.len(),
    ensures
        forall|k: int| 0 <= k < words_acc(s, n).0.len() ==> chars_all_word(#[trigger] words_acc(s, n).0[k]),
        chars_all_word(words_acc(s, n).1),
    decreases n,
{
    if n > 0 {
        lemma_words_acc_word(s, n - 1);
        let (done, cur) = words_acc(s, n - 1);
        if !is_word_char(s[n - 1]) {
            let next = done.push(cur);
            assert forall|k: int| 0 <= k < next.len() implies chars_all_word(#[trigger] next[k]) by {
                if k < done.len() {
                    assert(next[k] == done[k]);
                }
            }
        } else {
            let c2 = cur.push(s[n - 1]);
            assert forall|i: int| 0 <= i < c2.len() implies is_word_char(#[trigger] c2[i]) by {
                if i < cur.len() {
                    assert(c2[i] == cur[i]);
                }
            }
        }
    }
}

proof fn lemma_word_pieces_word(s: Seq<char>)
    ensures
        forall|k: int| 0 <= k < word_pieces(s).len() ==> chars_all_word(#[trigger] word_pieces(s)[k]),
{
    lemma_words_acc_word(s, s.len() as int);
    let (done, cur) = words_acc(s, s.len() as int);
    let ps = done.push(cur);
    assert forall|k: int| 0 <= k < ps.len() implies chars_all_word(#[trigger] ps[k]) by {
        if k < done.len() {
            assert(ps[k] == done[k]);
        }
    }
}

proof fn lemma_spaced(cur: Seq<char>)
    requires
        chars_all_word(cur),
    ensures
        chars_all_spaced(lower(underscores_to_spaces(cur))),
{
    let t = lower(underscores_to_spaces(cur));
    assert forall|i: int| 0 <= i < t.len() implies token_char(#[trigger] t[i]) || t[i] == ' ' by {
        let c = cur[i];
        assert(is_word_char(c));
        let d = underscores_to_spaces(cur)[i];
        if crate::text::is_ascii_upper(d) {
            assert(65 <= (d as u32) <= 90);
            assert(t[i] == ((d as u32) + 32) as char);
            assert(97 <= (t[i] as u32) <= 122);
        }
    }
}

proof fn lemma_camel_acc_spaced_chars(w: Seq<char>, n: int)
    requires
        n <= w.len(),
        chars_all_word(w),
    ensures
        forall|k: int| 0 <= k < camel_acc(w, n).0.len() ==> chars_all_spaced(#[trigger] camel_acc(w, n).0[k]),
        chars_all_word(camel_acc(w, n).1),
    decreases n,
{
    if n > 0 {
        lemma_camel_acc_spaced_chars(w, n - 1);
        let (done, cur) = camel_acc(w, n - 1);
        assert(is_word_char(w[n - 1]));
        if camel_boundary(w, n - 1) {
            lemma_spaced(cur);
            let next = done.push(lower(underscores_to_spaces(cur)));
            assert forall|k: int| 0 <= k < next.len() implies chars_all_spaced(#[trigger] next[k]) by {
                if k < done.len() {
                    assert(next[k] == done[k]);
                }
            }
            let c2 = seq![w[n - 1]];
            assert forall|i: int| 0 <= i < c2.len() implies is_word_char(#[trigger] c2[i]) by {}
        } else {
            let c2 = cur.push(w[n - 1]);
            assert forall|i: int| 0 <= i < c2.len() implies is_word_char(#[trigger] c2[i]) by {
                if i < cur.len() {
                    assert(c2[i] == cur[i]);
                }
            }
        }
    }
}

proof fn lemma_camel_pieces_spaced_chars(w: Seq<char>)
    requires
        chars_all_word(w),
    ensures
        forall|k: int| 0 <= k < camel_pieces(w).len() ==> chars_all_spaced(#[trigger] camel_pieces(w)[k]),
{
    lemma_camel_acc_spaced_chars(w, w.len() as int);
    let (done, cur) = camel_acc(w, w.len() as int);
    lemma_spaced(cur);
    let ps = done.push(lower(underscores_to_spaces(cur)));
    assert forall|k: int| 0 <= k < ps.len() implies chars_all_spaced(#[trigger] ps[k]) by {
        if k < done.len() {
            assert(ps[k] == done[k]);
        }
    }
}

proof fn lemma_ws_acc_alphanumeric(s: Seq<char>, n: int)
    requires
        n <= s.len(),
        chars_all_spaced(s),
    ensures
        pieces_all_alphanumeric(ws_acc(s, n).0),
        chars_all_alphanumeric(ws_acc(s, n).1),
    decreases n,
{
    if n > 0 {
        lemma_ws_acc_alphanumeric(s, n - 1);
        let (done, cur) = ws_acc(s, n - 1);
        let c = s[n - 1];
        assert(token_char(c) || c == ' ');
        if whitespace(c) {
            if cur.len() > 0 {
                let next = done.push(cur);
                assert forall|k: int| 0 <= k < next.len() implies chars_all_alphanumeric(#[trigger] next[k]) by {
                    if k < done.len() {
                        assert(next[k] == done[k]);
                    }
                }
            }
        } else {
            assert(c != ' ');
            let c2 = cur.push(c);
            assert forall|i: int| 0 <= i < c2.len() implies token_char(#[trigger] c2[i]) by {
                if i < cur.len() {
                    assert(c2[i] == cur[i]);
                }
            }
        }
    }
}

proof fn lemma_split_ws_alphanumeric(s: Seq<char>)
    requires
        chars_all_spaced(s),
    ensures
        pieces_all_alphanumeric(split_ws(s)),
{
    lemma_ws_acc_alphanumeric(s, s.len() as int);
    let (done, cur) = ws_acc(s, s.len() as int);
    if cur.len() > 0 {
        let r = done.push(cur);
        assert forall|k: int| 0 <= k < r.len() implies chars_all_alphanumeric(#[trigger] r[k]) by {
            if k < done.len() {
                assert(r[k] == done[k]);
            }
        }
    }
}

proof fn lemma_long_tokens_alphanumeric(ts: Seq<Seq<char>>, n: int)
    requires
        n <= ts.len(),
        pieces_all_alphanumeric(ts),
    ensures
        pieces_all_alphanumeric(long_tokens(ts, n)),
    decreases n,
{
    if n > 0 {
        lemma_long_tokens_alphanumeric(ts, n - 1);
        let tail: Seq<Seq<char>> = if long_enough(ts[n - 1]) { seq![ts[n - 1]] } else { Seq::empty() };
        assert(chars_all_alphanumeric(ts[n - 1]));
        assert(pieces_all_alphanumeric(tail));
        lemma_alphanumeric_concat(long_tokens(ts, n - 1), tail);
    }
}

proof fn lemma_pieces_tokens_alphanumeric(ps: Seq<Seq<char>>, n: int)
    requires
        n <= ps.len(),
        forall|k: int| 0 <= k < ps.len() ==> chars_all_spaced(#[trigger] ps[k]),
    ensures
        pieces_all_alphanumeric(pieces_tokens(ps, n)),
    decreases n,
{
    if n > 0 {
        lemma_pieces_tokens_alphanumeric(ps, n - 1);
        assert(chars_all_spaced(ps[n - 1]));
        let parts = split_ws(ps[n - 1]);
        lemma_split_ws_alphanumeric(ps[n - 1]);
        lemma_long_tokens_alphanumeric(parts, parts.len() as int);
        lemma_alphanumeric_concat(pieces_tokens(ps, n - 1), long_tokens(parts, parts.len() as int));
    }
}

proof fn lemma_words_tokens_alphanumeric(ws: Seq<Seq<char>>, n: int)
    requires
        n <= ws.len(),
        forall|k: int| 0 <= k < ws.len() ==> chars_all_word(#[trigger] ws[k]),
    ensures
        pieces_all_alphanumeric(words_tokens(ws, n)),
    decreases n,
{
    if n > 0 {
        lemma_words_tokens_alphanumeric(ws, n - 1);
        assert(chars_all_word(ws[n - 1]));
        let ps = camel_pieces(ws[n - 1]);
        lemma_camel_pieces_spaced_chars(ws[n - 1]);
        lemma_pieces_tokens_alphanumeric(ps, ps.len() as int);
        let tail = if ws[n - 1].len() == 0 { Seq::empty() } else { pieces_tokens(ps, ps.len() as int) };
        assert(pieces_all_alphanumeric(tail));
        lemma_alphanumeric_concat(words_tokens(ws, n - 1), tail);
    }
}

/// Every search token is made of letters and digits only, with ASCII letters in lower
/// case: any character that is neither alphanumeric nor `_` (such as `.`, `-` or `/`)
/// separates tokens, `_` does too, and case is folded.
pub proof fn tokens_are_alphanumeric(query: Seq<char>)
    ensures
        forall|i: int, j: int|
            0 <= i < spec_tokenize(query).len() && 0 <= j < spec_tokenize(query)[i].len() ==> alphanumeric(
                #[trigger] spec_tokenize(query)[i][j],
            ) && !crate::text::is_ascii_upper(spec_tokenize(query)[i][j]),
{
    let ws = word_pieces(query);
    lemma_word_pieces_word(query);
    lemma_words_tokens_alphanumeric(ws, ws.len() as int);
    assert forall|i: int, j: int|
        0 <= i < spec_tokenize(query).len() && 0 <= j < spec_tokenize(query)[i].len() implies alphanumeric(
        #[trigger] spec_tokenize(query)[i][j],
    ) && !crate::text::is_ascii_upper(spec_tokenize(query)[i][j]) by {
        assert(chars_all_alphanumeric(spec_tokenize(query)[i]));
    }
}

} // verus!

verus! {

/// `c` is an ASCII lowercase letter or digit.
pub open spec fn lower_alnum(c: char) -> bool {
    ('a' <= c && c <= 'z') || ('0' <= c && c <= '9')
}

proof fn lemma_words_acc_whole(s: Seq<char>, n: int)
    requires
        0 <= n <= s.len(),
        forall|i: int| 0 <= i < s.len() ==> lower_alnum(#[trigger] s[i]),
    ensures
        words_acc(s, n).0.len() == 0,
        words_acc(s, n).1 == s.take(n),
    decreases n,
{
    if n > 0 {
        lemma_words_acc_whole(s, n - 1);
        assert(lower_alnum(s[n - 1]));
        assert(s.take(n - 1).push(s[n - 1]) =~= s.take(n));
    } else {
        assert(s.take(0) =~= Seq::<char>::empty());
    }
}

proof fn lemma_camel_acc_whole(w: Seq<char>, n: int)
    requires
        0 <= n <= w.len(),
        forall|i: int| 0 <= i < w.len() ==> lower_alnum(#[trigger] w[i]),
    ensures
        camel_acc(w, n).0.len() == 0,
        camel_acc(w, n).1 == w.take(n),
    decreases n,
{
    if n > 0 {
        lemma_camel_acc_whole(w, n - 1);
        assert(lower_alnum(w[n - 1]));
        assert(!camel_boundary(w, n - 1));
        assert(w.take(n - 1).push(w[n - 1]) =~= w.take(n));
    } else {
        assert(w.take(0) =~= Seq::<char>::empty());
    }
}

proof fn lemma_ws_acc_whole(s: Seq<char>, n: int)
    requires
        0 <= n <= s.len(),
        forall|i: int| 0 <= i < s.len() ==> lower_alnum(#[trigger] s[i]),
    ensures
        ws_acc(s, n).0.len() == 0,
        ws_acc(s, n).1 == s.take(n),
    decreases n,
{
    if n > 0 {
        lemma_ws_acc_whole(s, n - 1);
        assert(lower_alnum(s[n - 1]));
        assert(!whitespace(s[n - 1]));
        assert(s.take(n - 1).push(s[n - 1]) =~= s.take(n));
    } else {
        assert(s.take(0) =~= Seq::<char>::empty());
    }
}

/// A query that is one word of lowercase ASCII letters and digits, at least two long, is
/// its own single search token.
pub proof fn a_lowercase_word_is_its_own_token(w: Seq<char>)
    requires
        w.len() >= 2,
        forall|i: int| 0 <= i < w.len() ==> lower_alnum(#[trigger] w[i]),
    ensures
        spec_tokenize(w) == seq![w],
{
    lemma_words_acc_whole(w, w.len() as int);
    assert(w.take(w.len() as int) =~= w);
    let ws = word_pieces(w);
    assert(ws =~= seq![w]);
    lemma_camel_acc_whole(w, w.len() as int);
    assert(lower(underscores_to_spaces(w)) =~= w) by {
        assert forall|i: int| 0 <= i < w.len() implies lower(underscores_to_spaces(w))[i] == w[i] by {
            assert(lower_alnum(w[i]));
        }
    }
    let ps = camel_pieces(w);
    assert(ps =~= seq![w]);
    lemma_ws_acc_whole(w, w.len() as int);
    assert(split_ws(w) =~= seq![w]);
    assert(long_enough(w));
    assert(long_tokens(seq![w], 0) =~= Seq::<Seq<char>>::empty());
    assert(long_tokens(seq![w], 1) =~= seq![w]);
    assert(pieces_tokens(ps, 0) =~= Seq::<Seq<char>>::empty());
    assert(pieces_tokens(ps, 1) =~= seq![w]);
    assert(words_tokens(ws, 0) =~= Seq::<Seq<char>>::empty());
    assert(words_tokens(ws, 1) =~= seq![w]);
}

} // verus!
