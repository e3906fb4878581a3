use vstd::prelude::*;

use crate::index::IndexStatus;
use crate::text::{all_digits, append_chars, chars_of, decimal, decimal_reads_back, digits_value, spec_decimal};

verus! {

/// A command of the command-line program, with its arguments.
#[derive(Debug, Clone, PartialEq, Eq)]
pub enum Command {
    Register { repository_name: String, repository_root: String, replace: bool },
    Unregister { repository_name: String },
    Status { repository_name: String },
    Index { repository_name: String },
    SearchCode { repository_name: String, query: String },
    FindSymbol { repository_name: String, query: String },
    ReadSymbol { repository_name: String, symbol_id: String },
    FindReferences { repository_name: String, symbol: String },
    FindCallers { repository_name: String, symbol: String },
    FindCallees { repository_name: String, symbol: String },
    FindRelatedTests { repository_name: String, symbol: String },
    Watch { repository_name: String },
    Serve,
    Evaluate { repository_name: String, dataset: Option<String> },
}

/// The name a command is logged under.
pub open spec fn spec_command_name(c: Command) -> Seq<char> {
    match c {
        Command::Register { .. } => "register"@,
        Command::Unregister { .. } => "unregister"@,
        Command::Status { .. } => "status"@,
        Command::Index { .. } => "index"@,
        Command::SearchCode { .. } => "search-code"@,
        Command::FindSymbol { .. } => "find-symbol"@,
        Command::ReadSymbol { .. } => "read-symbol"@,
        Command::FindReferences { .. } => "find-references"@,
        Command::FindCallers { .. } => "find-callers"@,
        Command::FindCallees { .. } => "find-callees"@,
        Command::FindRelatedTests { .. } => "find-related-tests"@,
        Command::Watch { .. } => "watch"@,
        Command::Serve => "serve"@,
        Command::Evaluate { .. } => "evaluate"@,
    }
}

/// The name a command is logged under.
pub fn command_name(command: &Command) -> (r: &'static str)
    ensures
        r@ == spec_command_name(*command),
{
    match command {
        Command::Register { .. } => "register",
        Command::Unregister { .. } => "unregister",
        Command::Status { .. } => "status",
        Command::Index { .. } => "index",
        Command::SearchCode { .. } => "search-code",
        Command::FindSymbol { .. } => "find-symbol",
        Command::ReadSymbol { .. } => "read-symbol",
        Command::FindReferences { .. } => "find-references",
        Command::FindCallers { .. } => "find-callers",
        Command::FindCallees { .. } => "find-callees",
        Command::FindRelatedTests { .. } => "find-related-tests",
        Command::Watch { .. } => "watch",
        Command::Serve => "serve",
        Command::Evaluate { .. } => "evaluate",
    }
}

/// The repository a command is logged under: its repository name, or `<registry>` for the
/// server, which serves them all.
pub open spec fn spec_command_repository(c: Command) -> Seq<char> {
    match c {
        Command::Register { repository_name, .. } => repository_name@,
        Command::Unregister { repository_name } => repository_name@,
        Command::Status { repository_name } => repository_name@,
        Command::Index { repository_name } => repository_name@,
        Command::SearchCode { repository_name, .. } => repository_name@,
        Command::FindSymbol { repository_name, .. } => repository_name@,
        Command::ReadSymbol { repository_name, .. } => repository_name@,
        Command::FindReferences { repository_name, .. } => repository_name@,
        Command::FindCallers { repository_name, .. } => repository_name@,
        Command::FindCallees { repository_name, .. } => repository_name@,
        Command::FindRelatedTests { repository_name, .. } => repository_name@,
        Command::Watch { repository_name } => repository_name@,
        Command::Serve => "<registry>"@,
        Command::Evaluate { repository_name, .. } => repository_name@,
    }
}

/// The repository a command is logged under.
pub fn command_repository(command: &Command) -> (r: String)
    ensures
        r@ == spec_command_repository(*command),
{
    match command {
        Command::Register { repository_name, .. } => repository_name.clone(),
        Command::Unregister { repository_name } => repository_name.clone(),
        Command::Status { repository_name } => repository_name.clone(),
        Command::Index { repository_name } => repository_name.clone(),
        Command::SearchCode { repository_name, .. } => repository_name.clone(),
        Command::FindSymbol { repository_name, .. } => repository_name.clone(),
        Command::ReadSymbol { repository_name, .. } => repository_name.clone(),
        Command::FindReferences { repository_name, .. } => repository_name.clone(),
        Command::FindCallers { repository_name, .. } => repository_name.clone(),
        Command::FindCallees { repository_name, .. } => repository_name.clone(),
        Command::FindRelatedTests { repository_name, .. } => repository_name.clone(),
        Command::Watch { repository_name } => repository_name.clone(),
        Command::Serve => "<registry>".to_owned(),
        Command::Evaluate { repository_name, .. } => repository_name.clone(),
    }
}

fn labelled(label: &str, value: &[char]) -> (r: String)
    ensures
        r@ == label@ + value@,
{
    let mut r = label.to_owned();
    append_chars(&mut r, value);
    r
}

fn labelled_count(label: &str, n: usize) -> (r: String)
    ensures
        r@ == label@ + spec_decimal(n as nat),
{
    let d = decimal(n as u64);
    labelled(label, chars_of(d.as_str()).as_slice())
}

/// The report of the `status` command for the repository `name` at `root`.
pub open spec fn spec_status_lines(name: Seq<char>, root: Seq<char>, s: IndexStatus) -> Seq<Seq<char>> {
    let head = seq!["Repository: "@ + name, "Repository root: "@ + root];
    if s.indexed {
        let counts = seq![
            "Index status: indexed"@,
            "Indexed files: "@ + spec_decimal(s.file_count as nat),
            "Indexed symbols: "@ + spec_decimal(s.symbol_count as nat),
            "Diagnostics: "@ + spec_decimal(s.diagnostic_count as nat),
            "Stale files: "@ + spec_decimal(s.stale_count as nat),
            "Missing files: "@ + spec_decimal(s.missing_count as nat),
        ];
        match s.snapshot_head {
            Some(h) => head + counts + seq![
                "Indexed HEAD: "@ + h@,
                "Working Tree: "@ + (if s.working_tree_dirty { "dirty"@ } else { "clean"@ }) + " ("@
                    + spec_decimal(s.dirty_file_count as nat) + " dirty files)"@,
            ],
            None => head + counts,
        }
    } else {
        head + seq!["Index status: not indexed"@]
    }
}

/// The lines the `status` command prints for the repository `name` at `root`.
pub fn status_lines(name: &str, root: &str, status: &IndexStatus) -> (r: Vec<String>)
    ensures
        crate::text::string_views(r@) == spec_status_lines(name@, root@, *status),
{
    let mut r: Vec<String> = Vec::new();
    r.push(labelled("Repository: ", chars_of(name).as_slice()));
    r.push(labelled("Repository root: ", chars_of(root).as_slice()));
    if status.indexed {
        r.push("Index status: indexed".to_owned());
        r.push(labelled_count("Indexed files: ", status.file_count));
        r.push(labelled_count("Indexed symbols: ", status.symbol_count));
        r.push(labelled_count("Diagnostics: ", status.diagnostic_count));
        r.push(labelled_count("Stale files: ", status.stale_count));
        r.push(labelled_count("Missing files: ", status.missing_count));
        match &status.snapshot_head {
            Some(h) => {
                r.push(labelled("Indexed HEAD: ", chars_of(h.as_str()).as_slice()));
                let mut w = if status.working_tree_dirty {
                    labelled("Working Tree: ", chars_of("dirty").as_slice())
                } else {
                    labelled("Working Tree: ", chars_of("clean").as_slice())
                };
                append_chars(&mut w, chars_of(" (").as_slice());
                let d = decimal(status.dirty_file_count as u64);
                append_chars(&mut w, chars_of(d.as_str()).as_slice());
                append_chars(&mut w, chars_of(" dirty files)").as_slice());
                r.push(w);
            },
            None => {},
        }
    } else {
        r.push("Index status: not indexed".to_owned());
    }
    proof {
        assert(crate::text::string_views(r@) =~= spec_status_lines(name@, root@, *status));
    }
    r
}

} // verus!

verus! {

/// `line` is `label` followed by the decimal digits of `n`.
pub open spec fn reads_as_count(line: Seq<char>, label: Seq<char>, n: int) -> bool {
    &&& label.len() <= line.len()
    &&& line.take(label.len() as int) == label
    &&& all_digits(line.skip(label.len() as int))
    &&& digits_value(line.skip(label.len() as int)) == n
}

proof fn lemma_labelled_reads(label: Seq<char>, n: nat)
    ensures
        reads_as_count(label + spec_decimal(n), label, n as int),
{
    decimal_reads_back(n);
    assert((label + spec_decimal(n)).take(label.len() as int) =~= label);
    assert((label + spec_decimal(n)).skip(label.len() as int) =~= spec_decimal(n));
}

/// What the status of an indexed repository reports: a line labelled `Stale files: `
/// followed by the digits of the number of stale files, and a line labelled
/// `Missing files: ` followed by the digits of the number of missing files; likewise for
/// the indexed files, symbols and diagnostics.
pub proof fn status_reports_each_count_under_its_label(name: Seq<char>, root: Seq<char>, s: IndexStatus)
    requires
        s.indexed,
    ensures
        exists|i: int|
            0 <= i < spec_status_lines(name, root, s).len() && reads_as_count(
                #[trigger] spec_status_lines(name, root, s)[i],
                "Stale files: "@,
                s.stale_count as int,
            ),
        exists|i: int|
            0 <= i < spec_status_lines(name, root, s).len() && reads_as_count(
                #[trigger] spec_status_lines(name, root, s)[i],
                "Missing files: "@,
                s.missing_count as int,
            ),
        exists|i: int|
            0 <= i < spec_status_lines(name, root, s).len() && reads_as_count(
                #[trigger] spec_status_lines(name, root, s)[i],
                "Indexed files: "@,
                s.file_count as int,
            ),
        exists|i: int|
            0 <= i < spec_status_lines(name, root, s).len() && reads_as_count(
                #[trigger] spec_status_lines(name, root, s)[i],
                "Indexed symbols: "@,
                s.symbol_count as int,
            ),
        exists|i: int|
            0 <= i < spec_status_lines(name, root, s).len() && reads_as_count(
                #[trigger] spec_status_lines(name, root, s)[i],
                "Diagnostics: "@,
                s.diagnostic_count as int,
            ),
{
    let lines = spec_status_lines(name, root, s);
    lemma_labelled_reads("Indexed files: "@, s.file_count as nat);
    lemma_labelled_reads("Indexed symbols: "@, s.symbol_count as nat);
    lemma_labelled_reads("Diagnostics: "@, s.diagnostic_count as nat);
    lemma_labelled_reads("Stale files: "@, s.stale_count as nat);
    lemma_labelled_reads("Missing files: "@, s.missing_count as nat);
    assert(lines[3] == "Indexed files: "@ + spec_decimal(s.file_count as nat));
    assert(lines[4] == "Indexed symbols: "@ + spec_decimal(s.symbol_count as nat));
    assert(lines[5] == "Diagnostics: "@ + spec_decimal(s.diagnostic_count as nat));
    assert(lines[6] == "Stale files: "@ + spec_decimal(s.stale_count as nat));
    assert(lines[7] == "Missing files: "@ + spec_decimal(s.missing_count as nat));
}

} // verus!
