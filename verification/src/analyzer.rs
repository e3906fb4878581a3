use vstd::prelude::*;

use crate::error::AstralError;

verus! {

/// A language analyzer turns one source file into the normalized model.
pub trait LanguageAnalyzer {
    /// Whether this analyzer handles the file at `path`.
    fn supports(&self, path: &str) -> bool;

    /// Analyzes `source`, the contents of the file at `path`.
    fn analyze(&self, path: &str, source: &str) -> Result<AnalysisResult, AstralError>;
}

/// Everything one analysis extracted from a file.
#[derive(Debug, Clone, PartialEq, Eq)]
pub struct AnalysisResult {
    pub path: String,
    pub analyzer: AnalyzerMetadata,
    pub symbols: Vec<Symbol>,
    pub references: Vec<Reference>,
    pub imports: Vec<Import>,
    pub exports: Vec<Export>,
    pub calls: Vec<Call>,
    pub diagnostics: Vec<Diagnostic>,
}

/// The analyzer that produced a result.
#[derive(Debug, Clone, PartialEq, Eq)]
pub struct AnalyzerMetadata {
    pub name: String,
    pub version: String,
}

/// A byte span and the lines it starts and ends on (lines count from 1).
#[derive(Debug, Clone, Copy, PartialEq, Eq)]
pub struct SourceRange {
    pub start_byte: usize,
    pub end_byte: usize,
    pub start_line: usize,
    pub end_line: usize,
}

/// A declared symbol.
#[derive(Debug, Clone, PartialEq, Eq)]
pub struct Symbol {
    pub name: String,
    pub qualified_name: Option<String>,
    pub kind: SymbolKind,
    pub range: SourceRange,
}

#[derive(Debug, Clone, Copy, PartialEq, Eq, Structural)]
pub enum SymbolKind {
    Function,
    Class,
    Interface,
    Type,
    Variable,
    Module,
    Unknown,
}

/// A use of a name.
#[derive(Debug, Clone, PartialEq, Eq)]
pub struct Reference {
    pub name: String,
    pub target: Option<String>,
    pub kind: ReferenceKind,
    pub range: SourceRange,
}

#[derive(Debug, Clone, Copy, PartialEq, Eq, Structural)]
pub enum ReferenceKind {
    Read,
    Write,
    Call,
    Import,
    Unknown,
}

/// One imported binding (or a bare side-effect import, with no names).
#[derive(Debug, Clone, PartialEq, Eq)]
pub struct Import {
    pub source: String,
    pub imported_name: Option<String>,
    pub local_name: Option<String>,
    pub resolved_path: Option<String>,
}

/// One exported name.
#[derive(Debug, Clone, PartialEq, Eq)]
pub struct Export {
    pub exported_name: String,
    pub local_name: Option<String>,
}

/// A call and the name of what it calls.
#[derive(Debug, Clone, PartialEq, Eq)]
pub struct Call {
    pub callee: String,
    pub range: SourceRange,
}

/// A problem the analyzer found.
#[derive(Debug, Clone, PartialEq, Eq)]
pub struct Diagnostic {
    pub message: String,
    pub severity: DiagnosticSeverity,
    pub range: Option<SourceRange>,
}

#[derive(Debug, Clone, Copy, PartialEq, Eq, Structural)]
pub enum DiagnosticSeverity {
    Error,
    Warning,
    Info,
}

} // verus!

verus! {

// ----- pieces of an analysis that do not depend on the parser -----

/// How many `\n` bytes the first `n` bytes hold.
pub open spec fn newlines_before(b: Seq<u8>, n: int) -> nat
    decreases n,
{
    if n <= 0 {
        0
    } else {
        newlines_before(b, n - 1) + if b[n - 1] == 10u8 {
            1nat
        } else {
            0nat
        }
    }
}

proof fn lemma_newlines_bound(b: Seq<u8>, n: int)
    requires
        0 <= n,
    ensures
        newlines_before(b, n) <= n,
    decreases n,
{
    if n > 0 {
        lemma_newlines_bound(b, n - 1);
    }
}

/// The line (from 1) of a byte offset: one more than the line breaks before it; an offset
/// past the end counts the whole source.
pub open spec fn spec_line_at(source: Seq<char>, byte: int) -> nat {
    let b = vstd::utf8::encode_utf8(source);
    newlines_before(b, if byte < b.len() { byte } else { b.len() as int }) + 1
}

/// The line (from 1) on which a byte offset lies. The offset, or the end of the source
/// when it is past it, falls on a character start.
pub fn line_at(source: &str, byte: usize) -> (r: usize)
    requires
        vstd::utf8::encode_utf8(source@).len() < usize::MAX,
        vstd::utf8::is_char_boundary(
            vstd::utf8::encode_utf8(source@),
            if byte < vstd::utf8::encode_utf8(source@).len() { byte as int } else { vstd::utf8::encode_utf8(source@).len() as int },
        ),
    ensures
        r == spec_line_at(source@, byte as int),
{
    let bytes = source.as_bytes();
    let ghost b = vstd::utf8::encode_utf8(source@);
    assert(bytes@ == b);
    let end = if byte < bytes.len() { byte } else { bytes.len() };
    let mut count: usize = 0;
    let mut i: usize = 0;
    while i < end
        invariant
            i <= end,
            end <= bytes@.len(),
            bytes@ == b,
            count == newlines_before(b, i as int),
        decreases end - i,
    {
        proof {
            lemma_newlines_bound(b, i as int);
        }
        if bytes[i] == 10u8 {
            count = count + 1;
        }
        i = i + 1;
    }
    proof {
        lemma_newlines_bound(b, end as int);
    }
    count + 1
}

/// The range of a span `start..end` of a source, with the lines it starts and ends on.
pub fn source_range(source: &str, start: usize, end: usize) -> (r: SourceRange)
    requires
        vstd::utf8::encode_utf8(source@).len() < usize::MAX,
        vstd::utf8::is_char_boundary(
            vstd::utf8::encode_utf8(source@),
            if start < vstd::utf8::encode_utf8(source@).len() { start as int } else { vstd::utf8::encode_utf8(source@).len() as int },
        ),
        vstd::utf8::is_char_boundary(
            vstd::utf8::encode_utf8(source@),
            if end < vstd::utf8::encode_utf8(source@).len() { end as int } else { vstd::utf8::encode_utf8(source@).len() as int },
        ),
    ensures
        r.start_byte == start,
        r.end_byte == end,
        r.start_line == spec_line_at(source@, start as int),
        r.end_line == spec_line_at(source@, end as int),
{
    SourceRange {
        start_byte: start,
        end_byte: end,
        start_line: line_at(source, start),
        end_line: line_at(source, end),
    }
}

/// Whether the span `start..end` lies inside one of the call spans `calls`.
pub open spec fn spec_inside_a_call(start: u32, end: u32, calls: Seq<(u32, u32)>) -> bool {
    exists|k: int| 0 <= k < calls.len() && calls[k].0 <= start && end <= calls[k].1
}

/// Whether an identifier at `start..end` stands inside a call: some call span begins at
/// or before it and ends at or after it.
pub fn inside_a_call(start: u32, end: u32, calls: &Vec<(u32, u32)>) -> (r: bool)
    ensures
        r == spec_inside_a_call(start, end, calls@),
{
    let mut k: usize = 0;
    while k < calls.len()
        invariant
            k <= calls@.len(),
            forall|j: int| 0 <= j < k ==> !(calls@[j].0 <= start && end <= calls@[j].1),
        decreases calls@.len() - k,
    {
        let (a, b) = calls[k];
        if a <= start && end <= b {
            assert(calls@[k as int].0 <= start && end <= calls@[k as int].1);
            return true;
        }
        k = k + 1;
    }
    false
}

/// How a resolved identifier is used: inside a call it is a call, else a write that does not
/// also read is a write, else a read, else unknown; an unresolved one is unknown.
pub fn reference_kind_for(resolved: bool, in_call: bool, is_write: bool, is_read: bool) -> (r: ReferenceKind)
    ensures
        r == (if !resolved {
            ReferenceKind::Unknown
        } else if in_call {
            ReferenceKind::Call
        } else if is_write && !is_read {
            ReferenceKind::Write
        } else if is_read {
            ReferenceKind::Read
        } else {
            ReferenceKind::Unknown
        }),
{
    if !resolved {
        ReferenceKind::Unknown
    } else if in_call {
        ReferenceKind::Call
    } else if is_write && !is_read {
        ReferenceKind::Write
    } else if is_read {
        ReferenceKind::Read
    } else {
        ReferenceKind::Unknown
    }
}

/// A symbol's name qualified by its scope: `name@scope`.
pub fn qualified_name(name: &str, scope_index: usize) -> (r: String)
    ensures
        r@ == name@ + seq!['@'] + crate::text::spec_decimal(scope_index as nat),
{
    let mut r = name.to_owned();
    crate::text::push_char(&mut r, '@');
    let d = crate::text::decimal(scope_index as u64);
    crate::text::append_chars(&mut r, crate::text::chars_of(d.as_str()).as_slice());
    r
}

/// A parser's message as a diagnostic: an error with no range.
pub fn diagnostic_to_model(message: String) -> (r: Diagnostic)
    ensures
        r.message == message,
        r.severity == DiagnosticSeverity::Error,
        r.range is None,
{
    Diagnostic { message, severity: DiagnosticSeverity::Error, range: None }
}

/// The result of a file the parser gave up on: nothing but its diagnostics.
pub fn empty_result(path: &str, analyzer: &str, version: &str, diagnostics: Vec<Diagnostic>) -> (r: AnalysisResult)
    ensures
        r.path@ == path@,
        r.analyzer.name@ == analyzer@,
        r.analyzer.version@ == version@,
        r.symbols@.len() == 0,
        r.references@.len() == 0,
        r.imports@.len() == 0,
        r.exports@.len() == 0,
        r.calls@.len() == 0,
        r.diagnostics == diagnostics,
{
    AnalysisResult {
        path: path.to_owned(),
        analyzer: AnalyzerMetadata { name: analyzer.to_owned(), version: version.to_owned() },
        symbols: Vec::new(),
        references: Vec::new(),
        imports: Vec::new(),
        exports: Vec::new(),
        calls: Vec::new(),
        diagnostics,
    }
}

} // verus!
