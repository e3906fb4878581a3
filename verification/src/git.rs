use vstd::prelude::*;

use crate::text::{chars_of, lossy_utf8, sha256_hex, spec_trim, string_of, trim, utf8_lossy};

verus! {

/// What git says of a working tree when the index is built.
#[derive(Debug, Clone, PartialEq, Eq)]
pub struct GitSnapshot {
    pub available: bool,
    pub head: Option<String>,
    pub branch: Option<String>,
    pub dirty: bool,
    pub dirty_file_count: usize,
    pub worktree_hash: Option<String>,
}

/// The output of a git command as one value: the text, trimmed; nothing when the command
/// gave nothing or only whitespace.
pub open spec fn spec_git_output(bytes: Option<Seq<u8>>) -> Option<Seq<char>> {
    match bytes {
        Some(b) => if spec_trim(lossy_utf8(b)).len() > 0 {
            Some(spec_trim(lossy_utf8(b)))
        } else {
            None
        },
        None => None,
    }
}

/// Reads the output of a git command (`None` when the command could not tell) as one value:
/// its text with surrounding whitespace removed, or `None` when nothing is left.
pub fn git_output(bytes: Option<Vec<u8>>) -> (r: Option<String>)
    ensures
        match r {
            Some(s) => spec_git_output(
                match bytes {
                    Some(b) => Some(b@),
                    None => None,
                },
            ) == Some(s@),
            None => spec_git_output(
                match bytes {
                    Some(b) => Some(b@),
                    None => None,
                },
            ) is None,
        },
{
    match bytes {
        None => None,
        Some(b) => {
            let text = utf8_lossy(b.as_slice());
            let t = trim(chars_of(text.as_str()).as_slice());
            if t.len() == 0 {
                None
            } else {
                Some(string_of(t.as_slice()))
            }
        },
    }
}

/// How many entries `git status -z` output holds among its first `n` bytes: the number of
/// non-empty runs of bytes between NUL separators that start there.
pub open spec fn entry_starts(status: Seq<u8>, n: int) -> nat
    decreases n,
{
    if n <= 0 {
        0
    } else {
        entry_starts(status, n - 1) + if status[n - 1] != 0 && (n - 1 == 0 || status[n - 2] == 0) {
            1nat
        } else {
            0nat
        }
    }
}

proof fn lemma_entry_starts_bound(status: Seq<u8>, n: int)
    requires
        0 <= n,
    ensures
        entry_starts(status, n) <= n,
    decreases n,
{
    if n > 0 {
        lemma_entry_starts_bound(status, n - 1);
    }
}

/// The number of changed entries in `git status --porcelain=v1 -z` output: its non-empty
/// NUL-separated parts.
pub fn dirty_file_count(status: &[u8]) -> (r: usize)
    ensures
        r == entry_starts(status@, status@.len() as int),
{
    let mut count: usize = 0;
    let mut i: usize = 0;
    while i < status.len()
        invariant
            i <= status@.len(),
            count == entry_starts(status@, i as int),
        decreases status@.len() - i,
    {
        proof {
            lemma_entry_starts_bound(status@, i as int);
        }
        if status[i] != 0 && (i == 0 || status[i - 1] == 0) {
            count = count + 1;
        }
        i = i + 1;
    }
    count
}

/// The snapshot of a tree without git (or outside any repository).
pub fn unavailable() -> (r: GitSnapshot)
    ensures
        !r.available,
        r.head is None,
        r.branch is None,
        !r.dirty,
        r.dirty_file_count == 0,
        r.worktree_hash is None,
{
    GitSnapshot {
        available: false,
        head: None,
        branch: None,
        dirty: false,
        dirty_file_count: 0,
        worktree_hash: None,
    }
}

/// The snapshot made of what git reported: `head`, the commit `HEAD` names (none when git
/// could not tell, and then nothing else counts), `branch`, the branch checked out (none
/// when `HEAD` is detached), and `status`, the `git status --porcelain=v1 -z` output. The
/// tree is dirty when the status lists any entry; the status is hashed with SHA-256.
pub fn snapshot(head: Option<String>, branch: Option<String>, status: &[u8]) -> (r: GitSnapshot)
    ensures
        head is None ==> r == (GitSnapshot {
            available: false,
            head: None,
            branch: None,
            dirty: false,
            dirty_file_count: 0,
            worktree_hash: None,
        }),
        head is Some ==> {
            &&& r.available
            &&& r.head == head
            &&& r.branch == branch
            &&& r.dirty_file_count == entry_starts(status@, status@.len() as int)
            &&& r.dirty == (r.dirty_file_count > 0)
            &&& r.worktree_hash matches Some(h) && h@ == sha256_hex(status@)
        },
{
    if head.is_none() {
        return unavailable();
    }
    let count = dirty_file_count(status);
    let hash = crate::text::sha256_hex_of(status);
    GitSnapshot {
        available: true,
        head,
        branch,
        dirty: count > 0,
        dirty_file_count: count,
        worktree_hash: Some(hash),
    }
}

} // verus!
