//! Steps that change which files there are, and what a run of them leads to.
//!
//! Steps are worked out as values and carried out one after the other, stopping
//! at the first that fails. The model here says what files there are after any
//! number of them, which is what a crash in between leaves behind.

use vstd::prelude::*;

verus! {

/// One change to the files of a recording.
#[derive(Debug)]
pub enum Op {
    /// Renames a file, replacing what has the new name.
    Rename { from: String, to: String },
    /// Deletes a file, which has to be there.
    Remove { path: String },
    /// Deletes a file, if it is there.
    RemoveIfPresent { path: String },
}

/// What is known of a file system: the files there are, each with what it holds.
pub type Disk<F> = Map<Seq<char>, F>;

/// The step can be carried out on `disk`.
pub open spec fn possible<F>(disk: Disk<F>, op: Op) -> bool {
    match op {
        Op::Rename { from, .. } => disk.contains_key(from@),
        Op::Remove { path } => disk.contains_key(path@),
        Op::RemoveIfPresent { .. } => true,
    }
}

/// The files there are after the step.
pub open spec fn after<F>(disk: Disk<F>, op: Op) -> Disk<F> {
    match op {
        Op::Rename { from, to } => disk.remove(from@).insert(to@, disk[from@]),
        Op::Remove { path } => disk.remove(path@),
        Op::RemoveIfPresent { path } => disk.remove(path@),
    }
}

/// The files there are after the first `n` steps.
pub open spec fn after_steps<F>(disk: Disk<F>, ops: Seq<Op>, n: nat) -> Disk<F>
    decreases n,
{
    if n == 0 {
        disk
    } else {
        after(after_steps(disk, ops, (n - 1) as nat), ops[n - 1])
    }
}

/// Every step can be carried out once those before it have been.
pub open spec fn runs<F>(disk: Disk<F>, ops: Seq<Op>) -> bool {
    forall|n: nat| n < ops.len() ==> #[trigger] possible(after_steps(disk, ops, n), ops[n as int])
}

/// Renaming moves a file and replaces what had the new name; deleting takes away just
/// the file named, and has to find it unless that does not matter. No other file changes.
pub proof fn a_step_changes_only_the_files_it_names<F>(disk: Disk<F>, op: Op, path: Seq<char>)
    ensures
        op matches Op::Rename { from, to } ==> (possible(disk, op) <==> disk.contains_key(from@))
            && after(disk, op).contains_key(to@) && after(disk, op)[to@] == disk[from@] && (from@
            != to@ ==> !after(disk, op).contains_key(from@)),
        op matches Op::Rename { from, to } ==> path != from@ && path != to@ ==> (after(
            disk,
            op,
        ).contains_key(path) <==> disk.contains_key(path)) && (disk.contains_key(path) ==> after(
            disk,
            op,
        )[path] == disk[path]),
        op matches Op::Remove { path: gone } ==> (possible(disk, op) <==> disk.contains_key(gone@))
            && (after(disk, op).contains_key(path) <==> disk.contains_key(path) && path != gone@)
            && (after(disk, op).contains_key(path) ==> after(disk, op)[path] == disk[path]),
        op matches Op::RemoveIfPresent { path: gone } ==> possible(disk, op) && (after(
            disk,
            op,
        ).contains_key(path) <==> disk.contains_key(path) && path != gone@) && (after(
            disk,
            op,
        ).contains_key(path) ==> after(disk, op)[path] == disk[path]),
{
}

} // verus!
