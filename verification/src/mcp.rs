use vstd::prelude::*;

use crate::text::{chars_of, join, split_on, split_on_exec, string_of, string_views, take_prefix};

verus! {

/// The most results a tool returns.
pub const MAX_RESULTS: usize = 100;

/// The most lines `read_code` returns.
pub const MAX_READ_LINES: usize = 120;

/// The most bytes of text (in UTF-8) a tool returns.
pub const MAX_READ_BYTES: usize = 32000;

/// The input of a tool that acts on a repository.
#[derive(Debug, Clone, PartialEq, Eq)]
pub struct RepositoryInput {
    pub repository_root: String,
}

/// The input of a search.
#[derive(Debug, Clone, PartialEq, Eq)]
pub struct QueryInput {
    pub repository_root: String,
    pub query: String,
    pub limit: Option<usize>,
}

/// The input of a relationship search.
#[derive(Debug, Clone, PartialEq, Eq)]
pub struct SymbolInput {
    pub repository_root: String,
    pub symbol: String,
}

/// The input of `read_code`: a file and a range of its lines, counted from 1.
#[derive(Debug, Clone, PartialEq, Eq)]
pub struct ReadCodeInput {
    pub repository_root: String,
    pub path: String,
    pub start_line: usize,
    pub end_line: usize,
}

/// The input of `read_symbol`.
#[derive(Debug, Clone, PartialEq, Eq)]
pub struct ReadSymbolInput {
    pub repository_root: String,
    pub symbol_id: String,
}

/// The input of `refresh_index`.
#[derive(Debug, Clone, PartialEq, Eq)]
pub struct RefreshInput {
    pub repository_root: String,
    pub wait: Option<bool>,
}

/// How many results a tool returns: 20 unless asked, and between 1 and `MAX_RESULTS`.
pub fn bounded_limit(limit: Option<usize>) -> (r: usize)
    ensures
        r == ({
            let asked = match limit {
                Some(n) => n,
                None => 20,
            };
            if asked < 1 {
                1
            } else if asked > MAX_RESULTS {
                MAX_RESULTS
            } else {
                asked
            }
        }),
{
    let asked = match limit {
        Some(n) => n,
        None => 20,
    };
    if asked < 1 {
        1
    } else if asked > MAX_RESULTS {
        MAX_RESULTS
    } else {
        asked
    }
}

/// Whether a tool's results were cut: more were found than the `limit` it shows, or the
/// index holds more matches than a search fetches (`more_stored`).
pub fn results_truncated(found: usize, limit: usize, more_stored: bool) -> (r: bool)
    ensures
        r == (found > limit || more_stored),
{
    found > limit || more_stored
}

/// The number of bytes of the UTF-8 encoding of `s`.
pub open spec fn utf8_len(s: Seq<char>) -> nat {
    vstd::utf8::encode_utf8(s).len()
}

proof fn lemma_encode_concat(a: Seq<char>, b: Seq<char>)
    ensures
        vstd::utf8::encode_utf8(a + b) == vstd::utf8::encode_utf8(a) + vstd::utf8::encode_utf8(b),
    decreases a.len(),
{
    if a.len() == 0 {
        assert(a + b =~= b);
        assert(vstd::utf8::encode_utf8(a) =~= Seq::<u8>::empty());
        assert(Seq::<u8>::empty() + vstd::utf8::encode_utf8(b) =~= vstd::utf8::encode_utf8(b));
    } else {
        assert((a + b).drop_first() =~= a.drop_first() + b);
        assert((a + b)[0] == a[0]);
        lemma_encode_concat(a.drop_first(), b);
        assert(vstd::utf8::encode_utf8(a + b) =~= vstd::utf8::encode_scalar(a[0] as u32) + (
        vstd::utf8::encode_utf8(a.drop_first()) + vstd::utf8::encode_utf8(b)));
    }
}

/// Taking one character more adds the bytes of its encoding.
proof fn lemma_utf8_len_step(s: Seq<char>, k: int)
    requires
        0 <= k < s.len(),
    ensures
        utf8_len(s.take(k + 1)) == utf8_len(s.take(k)) + vstd::utf8::encode_scalar(s[k] as u32).len(),
        utf8_len(s.take(k + 1)) > utf8_len(s.take(k)),
{
    assert(s.take(k + 1) =~= s.take(k) + seq![s[k]]);
    lemma_encode_concat(s.take(k), seq![s[k]]);
    assert(seq![s[k]].drop_first() =~= Seq::<char>::empty());
    assert(vstd::utf8::encode_utf8(Seq::<char>::empty()) =~= Seq::<u8>::empty());
    assert(vstd::utf8::encode_utf8(seq![s[k]]) =~= vstd::utf8::encode_scalar(s[k] as u32));
}

/// A longer prefix never encodes to fewer bytes.
proof fn lemma_utf8_len_monotone(s: Seq<char>, j: int, k: int)
    requires
        0 <= j <= k <= s.len(),
    ensures
        utf8_len(s.take(j)) <= utf8_len(s.take(k)),
    decreases k - j,
{
    if j < k {
        lemma_utf8_len_monotone(s, j, k - 1);
        lemma_utf8_len_step(s, k - 1);
    }
}

/// The number of bytes `c` takes in UTF-8.
fn utf8_width(c: char) -> (r: usize)
    ensures
        r == vstd::utf8::encode_scalar(c as u32).len(),
        1 <= r <= 4,
{
    proof {
        vstd::utf8::char_is_scalar(c);
    }
    let v = c as u32;
    if v <= 0x7F {
        1
    } else if v <= 0x7FF {
        2
    } else if v <= 0xFFFF {
        3
    } else {
        4
    }
}

/// The text cut to its longest prefix, ending on a character boundary, whose UTF-8
/// encoding is at most `MAX_READ_BYTES` bytes; a text that fits comes back whole.
pub fn bounded_text(text: &str) -> (r: String)
    ensures
        r@.len() <= text@.len(),
        r@ == text@.take(r@.len() as int),
        utf8_len(r@) <= MAX_READ_BYTES,
        forall|k: int| r@.len() < k <= text@.len() ==> utf8_len(#[trigger] text@.take(k)) > MAX_READ_BYTES,
{
    let cs = chars_of(text);
    let mut i: usize = 0;
    let mut bytes: usize = 0;
    let mut full = false;
    assert(text@.take(0) =~= Seq::<char>::empty());
    assert(vstd::utf8::encode_utf8(Seq::<char>::empty()) =~= Seq::<u8>::empty());
    while i < cs.len() && !full
        invariant
            cs@ == text@,
            i <= cs@.len(),
            bytes == utf8_len(text@.take(i as int)),
            bytes <= MAX_READ_BYTES,
            full ==> i < cs@.len() && utf8_len(text@.take(i + 1)) > MAX_READ_BYTES,
        decreases cs@.len() - i + (if full { 0int } else { 1int }),
    {
        let w = utf8_width(cs[i]);
        proof {
            lemma_utf8_len_step(text@, i as int);
        }
        if bytes + w > MAX_READ_BYTES {
            full = true;
        } else {
            bytes = bytes + w;
            i = i + 1;
        }
    }
    proof {
        assert forall|k: int| i < k <= text@.len() implies utf8_len(#[trigger] text@.take(k)) > MAX_READ_BYTES by {
            lemma_utf8_len_monotone(text@, i + 1, k);
        }
    }
    let kept = take_prefix(cs.as_slice(), i);
    let r = string_of(kept.as_slice());
    assert(r@.len() == i);
    r
}

/// Why a line range is refused, if it is: lines count from 1, the range must not run
/// backwards, and it may hold at most `MAX_READ_LINES` lines.
pub fn check_line_range(start_line: usize, end_line: usize) -> (r: Result<(), String>)
    ensures
        start_line == 0 || end_line < start_line ==> (r matches Err(m) && m@ == "invalid line range"@),
        !(start_line == 0 || end_line < start_line) && end_line - start_line + 1 > MAX_READ_LINES ==> (r matches Err(m)
            && m@ == "line range exceeds 120 lines"@),
        !(start_line == 0 || end_line < start_line) && end_line - start_line + 1 <= MAX_READ_LINES ==> r is Ok,
{
    if start_line == 0 || end_line < start_line {
        return Err("invalid line range".to_owned());
    }
    if end_line - start_line >= MAX_READ_LINES {
        return Err("line range exceeds 120 lines".to_owned());
    }
    Ok(())
}

/// A line without the `\r` of a `\r\n` ending.
pub open spec fn strip_cr(line: Seq<char>) -> Seq<char> {
    if line.len() > 0 && line.last() == '\r' {
        line.drop_last()
    } else {
        line
    }
}

/// The lines of a text as `str::lines` gives them: split at `\n`, a `\r` before a `\n`
/// dropped, and no empty line after a final `\n`.
pub open spec fn spec_lines(s: Seq<char>) -> Seq<Seq<char>> {
    let parts = split_on(s, '\n');
    let n = parts.len() as int;
    let body = parts.take(n - 1).map_values(|p: Seq<char>| strip_cr(p));
    if parts[n - 1].len() > 0 {
        body.push(parts[n - 1])
    } else {
        body
    }
}

/// The lines `start_line` to `end_line` (from 1) of a text, joined by `\n`; lines past the
/// end are simply missing.
pub open spec fn spec_line_range(s: Seq<char>, start_line: nat, end_line: nat) -> Seq<char>
    recommends
        1 <= start_line <= end_line,
{
    let lines = spec_lines(s);
    let from = (start_line - 1) as int;
    let to = end_line as int;
    let picked = if from >= lines.len() {
        Seq::empty()
    } else if to >= lines.len() {
        lines.subrange(from, lines.len() as int)
    } else {
        lines.subrange(from, to)
    };
    join(picked, seq!['\n'])
}

/// The lines `start_line` to `end_line` (counted from 1) of `source`, joined by `\n`.
pub fn line_range(source: &str, start_line: usize, end_line: usize) -> (r: String)
    requires
        1 <= start_line <= end_line,
    ensures
        r@ == spec_line_range(source@, start_line as nat, end_line as nat),
{
    let cs = chars_of(source);
    let parts = split_on_exec(cs.as_slice(), '\n');
    let ghost ps = split_on(source@, '\n');
    let ghost lines = spec_lines(source@);
    let n = parts.len();
    let mut picked: Vec<String> = Vec::new();
    let mut i: usize = 0;
    let line_count: usize = if parts[n - 1].len() > 0 { n } else { n - 1 };
    assert(lines.len() == line_count);
    let from = start_line - 1;
    let to: usize = if end_line >= line_count { line_count } else { end_line };
    if from < to {
        let mut k: usize = from;
        assert(string_views(picked@) =~= lines.subrange(from as int, from as int));
        while k < to
            invariant
                from <= k <= to,
                to <= line_count,
                line_count <= n,
                n == parts@.len(),
                n == ps.len(),
                n >= 1,
                ps == split_on(source@, '\n'),
                lines == spec_lines(source@),
                lines.len() == line_count,
                line_count == (if ps[n - 1].len() > 0 { n } else { (n - 1) as usize }),
                forall|j: int| 0 <= j < n ==> (#[trigger] parts@[j])@ == ps[j],
                string_views(picked@) == lines.subrange(from as int, k as int),
            decreases to - k,
        {
            let p = &parts[k];
            assert(p@ == ps[k as int]);
            let line: Vec<char> = if k + 1 < n && p.len() > 0 && p[p.len() - 1] == '\r' {
                take_prefix(p.as_slice(), p.len() - 1)
            } else {
                take_prefix(p.as_slice(), p.len())
            };
            proof {
                if k + 1 < n {
                    assert(lines[k as int] == strip_cr(ps[k as int]));
                    if ps[k as int].len() > 0 && ps[k as int].last() == '\r' {
                        assert(line@ =~= ps[k as int].drop_last());
                    } else {
                        assert(line@ =~= ps[k as int]);
                    }
                } else {
                    assert(lines[k as int] == ps[k as int]);
                    assert(line@ =~= ps[k as int]);
                }
                assert(line@ == lines[k as int]);
            }
            let ghost before = string_views(picked@);
            let text = string_of(line.as_slice());
            picked.push(text);
            assert(string_views(picked@) =~= before.push(lines[k as int]));
            assert(lines.subrange(from as int, k + 1) =~= lines.subrange(from as int, k as int).push(
                lines[k as int],
            ));
            k = k + 1;
        }
    }
    proof {
        let f = from as int;
        if f >= lines.len() {
            assert(string_views(picked@) =~= Seq::<Seq<char>>::empty());
        } else if (end_line as int) >= lines.len() {
            assert(to == line_count);
            assert(string_views(picked@) == lines.subrange(f, lines.len() as int));
        } else {
            assert(string_views(picked@) == lines.subrange(f, end_line as int));
        }
    }
    let nl = vec!['\n'];
    assert(nl@ == seq!['\n']);
    crate::text::join_strings(&picked, nl.as_slice())
}

} // verus!
