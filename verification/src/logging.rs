use vstd::prelude::*;

use crate::text::{append_chars, chars_of, decimal, spec_decimal};

verus! {

/// The name of the log file in the data directory.
pub const LOG_FILE_NAME: &'static str = "astral.log";

/// The size past which the log file is rotated: 10 MiB.
pub const MAX_LOG_FILE_BYTES: u64 = 10485760;

/// How many rotated log files are kept.
pub const MAX_LOG_BACKUPS: usize = 5;

/// The log file in a data directory.
pub fn log_path(data_dir: &str) -> (r: String)
    ensures
        r@ == crate::paths::spec_join_path(data_dir@, "astral.log"@),
{
    crate::paths::join_path(data_dir, "astral.log")
}

/// The `index`-th backup of a log file: its path with `.<index>` appended.
pub open spec fn spec_backup_path(path: Seq<char>, index: nat) -> Seq<char> {
    path + seq!['.'] + spec_decimal(index)
}

/// The path of the `index`-th backup of the log file at `path`.
pub fn backup_path(path: &str, index: usize) -> (r: String)
    ensures
        r@ == spec_backup_path(path@, index as nat),
{
    let mut r = path.to_owned();
    crate::text::push_char(&mut r, '.');
    let n = decimal(index as u64);
    append_chars(&mut r, chars_of(n.as_str()).as_slice());
    r
}

/// Whether writing `incoming` more bytes to a log of `length` bytes would pass `max_bytes`
/// (the sum saturating at the largest `u64`).
pub fn needs_rotation(length: u64, incoming: u64, max_bytes: u64) -> (r: bool)
    ensures
        r == (if length + incoming > u64::MAX { u64::MAX > max_bytes } else { length + incoming > max_bytes }),
{
    length.saturating_add(incoming) > max_bytes
}

/// One file operation of a rotation, done only when its first path exists.
#[derive(Debug, Clone, PartialEq, Eq)]
pub enum RotationStep {
    Remove(String),
    Rename(String, String),
}

/// The view of a rotation step.
pub enum SpecStep {
    Remove(Seq<char>),
    Rename(Seq<char>, Seq<char>),
}

impl View for RotationStep {
    type V = SpecStep;

    open spec fn view(&self) -> SpecStep {
        match self {
            RotationStep::Remove(p) => SpecStep::Remove(p@),
            RotationStep::Rename(a, b) => SpecStep::Rename(a@, b@),
        }
    }
}

/// The steps that shift the backups `from`, `from - 1`, ..., `1` up by one: each target is
/// removed first, then the backup renamed onto it.
pub open spec fn shift_steps(path: Seq<char>, from: nat) -> Seq<SpecStep>
    decreases from,
{
    if from == 0 {
        Seq::empty()
    } else {
        seq![
            SpecStep::Remove(spec_backup_path(path, from + 1)),
            SpecStep::Rename(spec_backup_path(path, from), spec_backup_path(path, from + 1)),
        ] + shift_steps(path, (from - 1) as nat)
    }
}

/// A rotation of the log at `path` that keeps `max_backups` backups: the oldest backup is
/// removed, the others each move up by one, and the log itself becomes backup 1.
pub open spec fn spec_rotation_steps(path: Seq<char>, max_backups: nat) -> Seq<SpecStep> {
    seq![SpecStep::Remove(spec_backup_path(path, max_backups))] + shift_steps(
        path,
        if max_backups > 0 { (max_backups - 1) as nat } else { 0 },
    ) + seq![SpecStep::Remove(spec_backup_path(path, 1)), SpecStep::Rename(path, spec_backup_path(path, 1))]
}

/// The file operations of one rotation of the log at `path`, in order.
pub fn rotation_steps(path: &str, max_backups: usize) -> (r: Vec<RotationStep>)
    ensures
        r@.map_values(|s: RotationStep| s@) == spec_rotation_steps(path@, max_backups as nat),
{
    let mut r: Vec<RotationStep> = Vec::new();
    r.push(RotationStep::Remove(backup_path(path, max_backups)));
    let ghost head = r@.map_values(|s: RotationStep| s@);
    assert(head =~= seq![SpecStep::Remove(spec_backup_path(path@, max_backups as nat))]);
    let top: usize = if max_backups > 0 { max_backups - 1 } else { 0 };
    let mut index: usize = top;
    while index > 0
        invariant
            index <= top,
            top < usize::MAX,
            r@.map_values(|s: RotationStep| s@) + shift_steps(path@, index as nat) == head + shift_steps(
                path@,
                top as nat,
            ),
        decreases index,
    {
        let ghost before = r@.map_values(|s: RotationStep| s@);
        r.push(RotationStep::Remove(backup_path(path, index + 1)));
        r.push(RotationStep::Rename(backup_path(path, index), backup_path(path, index + 1)));
        proof {
            let pair = seq![
                SpecStep::Remove(spec_backup_path(path@, (index + 1) as nat)),
                SpecStep::Rename(spec_backup_path(path@, index as nat), spec_backup_path(path@, (index + 1) as nat)),
            ];
            assert(r@.map_values(|s: RotationStep| s@) =~= before + pair);
            assert(shift_steps(path@, index as nat) == pair + shift_steps(path@, (index - 1) as nat));
            assert(before + shift_steps(path@, index as nat) =~= (before + pair) + shift_steps(
                path@,
                (index - 1) as nat,
            ));
        }
        index = index - 1;
    }
    let ghost mid = r@.map_values(|s: RotationStep| s@);
    r.push(RotationStep::Remove(backup_path(path, 1)));
    r.push(RotationStep::Rename(path.to_owned(), backup_path(path, 1)));
    proof {
        assert(shift_steps(path@, 0) =~= Seq::<SpecStep>::empty());
        assert(mid =~= head + shift_steps(path@, top as nat));
        assert(r@.map_values(|s: RotationStep| s@) =~= spec_rotation_steps(path@, max_backups as nat));
    }
    r
}

} // verus!

verus! {

/// Whether a step writes the file `t` (renames something onto it).
pub open spec fn renames_onto(step: SpecStep, t: Seq<char>) -> bool {
    step matches SpecStep::Rename(_, target) && target == t
}

proof fn lemma_shift_targets(path: Seq<char>, from: nat)
    ensures
        forall|k: int|
            0 <= k < shift_steps(path, from).len() ==> (#[trigger] shift_steps(path, from)[k] matches SpecStep::Rename(_, t)
                ==> exists|j: nat| 2 <= j <= from + 1 && t == spec_backup_path(path, j)),
    decreases from,
{
    if from > 0 {
        lemma_shift_targets(path, (from - 1) as nat);
        let pair = seq![
            SpecStep::Remove(spec_backup_path(path, from + 1)),
            SpecStep::Rename(spec_backup_path(path, from), spec_backup_path(path, from + 1)),
        ];
        let rest = shift_steps(path, (from - 1) as nat);
        assert(shift_steps(path, from) == pair + rest);
        assert forall|k: int| 0 <= k < (pair + rest).len() implies (#[trigger] (pair + rest)[k] matches SpecStep::Rename(_, t)
            ==> exists|j: nat| 2 <= j <= from + 1 && t == spec_backup_path(path, j)) by {
            if k < 2 {
                if k == 1 {
                    assert((pair + rest)[k] == SpecStep::Rename(spec_backup_path(path, from), spec_backup_path(path, from + 1)));
                    assert(spec_backup_path(path, from + 1) == spec_backup_path(path, from + 1));
                }
            } else {
                assert((pair + rest)[k] == rest[k - 2]);
            }
        }
    }
}

/// A rotation that keeps `max_backups` backups renames files only onto the backups 1 to
/// `max_backups`: no later backup is ever written, and the oldest kept one is removed first.
pub proof fn rotation_keeps_at_most_max_backups(path: Seq<char>, max_backups: nat)
    requires
        max_backups >= 1,
    ensures
        spec_rotation_steps(path, max_backups)[0] == SpecStep::Remove(spec_backup_path(path, max_backups)),
        forall|k: int|
            0 <= k < spec_rotation_steps(path, max_backups).len() ==> (#[trigger] spec_rotation_steps(path, max_backups)[k] matches SpecStep::Rename(_, t)
                ==> exists|j: nat| 1 <= j <= max_backups && t == spec_backup_path(path, j)),
{
    let from = (max_backups - 1) as nat;
    lemma_shift_targets(path, from);
    let first = seq![SpecStep::Remove(spec_backup_path(path, max_backups))];
    let mid = shift_steps(path, from);
    let last = seq![SpecStep::Remove(spec_backup_path(path, 1)), SpecStep::Rename(path, spec_backup_path(path, 1))];
    let all = spec_rotation_steps(path, max_backups);
    assert(all == first + mid + last);
    assert forall|k: int| 0 <= k < all.len() implies (#[trigger] all[k] matches SpecStep::Rename(_, t)
        ==> exists|j: nat| 1 <= j <= max_backups && t == spec_backup_path(path, j)) by {
        if k == 0 {
        } else if k < 1 + mid.len() {
            assert(all[k] == mid[k - 1]);
            match mid[k - 1] {
                SpecStep::Rename(_, t) => {
                    let j = choose|j: nat| 2 <= j <= from + 1 && t == spec_backup_path(path, j);
                    assert(1 <= j <= max_backups && t == spec_backup_path(path, j));
                },
                _ => {},
            }
        } else {
            let m = k - 1 - mid.len();
            assert(all[k] == last[m]);
            if m == 1 {
                assert(spec_backup_path(path, 1) == spec_backup_path(path, 1));
            }
        }
    }
}

} // verus!
