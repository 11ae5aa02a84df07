//! Replacing a file by its repaired version without ever losing the original.

use crate::disk;
use crate::disk::{Disk, Op};
use crate::text;
use crate::timing::Analysis;
use vstd::prelude::*;

verus! {

/// The name of backup number `n` of `input`: `<input>.bak`, then `<input>.bak.1`,
/// `<input>.bak.2` and so on.
pub open spec fn backup_name(input: Seq<char>, n: nat) -> Seq<char> {
    if n == 0 {
        input + ".bak"@
    } else {
        input + ".bak."@ + text::decimal_text(n)
    }
}

fn backup_path(input: &str, n: u32) -> (path: String)
    ensures
        path@ == backup_name(input@, n as nat),
{
    if n == 0 {
        text::joined(input, ".bak")
    } else {
        let mut path = text::joined(input, ".bak.");
        path.append(text::decimal(n as u64).as_str());
        path
    }
}

/// `exists` was asked about backup number `n` of `input` and said `answer`.
pub open spec fn was_told<F: Fn(&str) -> bool>(
    exists_path: F,
    input: Seq<char>,
    n: nat,
    answer: bool,
) -> bool {
    exists|path: &str|
        #![trigger call_ensures(exists_path, (path,), answer)]
        path@ == backup_name(input, n) && call_ensures(exists_path, (path,), answer)
}

/// The first available backup path for `input`: `<input>.bak`, or
/// `<input>.bak.1`, `<input>.bak.2`, ... if `exists_path` says of the earlier ones
/// that they already exist. `None` if all numbers are taken.
pub fn next_backup_path<F: Fn(&str) -> bool>(input: &str, exists_path: F) -> (found: Option<String>)
    requires
        forall|path: &str| call_requires(exists_path, (path,)),
    ensures
        found matches Some(path) ==> exists|n: nat|
            n <= u32::MAX && path@ == #[trigger] backup_name(input@, n) && was_told(
                exists_path,
                input@,
                n,
                false,
            ) && forall|m: nat| m < n ==> #[trigger] was_told(exists_path, input@, m, true),
        found is None ==> forall|m: nat|
            m <= u32::MAX ==> #[trigger] was_told(exists_path, input@, m, true),
{
    let mut n: u32 = 0;
    loop
        invariant
            forall|path: &str| call_requires(exists_path, (path,)),
            forall|m: nat| m < n ==> #[trigger] was_told(exists_path, input@, m, true),
        decreases u32::MAX - n,
    {
        let candidate = backup_path(input, n);
        let path: &str = candidate.as_str();
        let taken: bool = exists_path(path);
        assert(was_told(exists_path, input@, n as nat, taken));
        if !taken {
            assert(candidate@ == backup_name(input@, n as nat));
            return Some(candidate);
        }
        if n == u32::MAX {
            return None;
        }
        n = n + 1;
    }
}

proof fn lemma_decimal_digits(n: nat)
    ensures
        text::decimal_text(n).len() > 0,
        n < 10 <==> text::decimal_text(n).len() == 1,
        text::decimal_text(n).last() == text::digit_char(n % 10),
        n >= 10 ==> text::decimal_text(n).drop_last() == text::decimal_text(n / 10),
    decreases n,
{
    if n >= 10 {
        lemma_decimal_digits(n / 10);
        assert(text::decimal_text(n).drop_last() =~= text::decimal_text(n / 10));
    }
}

proof fn lemma_decimal_injective(a: nat, b: nat)
    requires
        text::decimal_text(a) == text::decimal_text(b),
    ensures
        a == b,
    decreases a,
{
    lemma_decimal_digits(a);
    lemma_decimal_digits(b);
    if a >= 10 {
        lemma_decimal_injective(a / 10, b / 10);
    }
}

/// Backups never collide: differently numbered backups of a file have different
/// names, none of which is the file's own.
pub proof fn backups_have_names_of_their_own(input: Seq<char>, m: nat, n: nat)
    ensures
        backup_name(input, n) != input,
        m != n ==> backup_name(input, m) != backup_name(input, n),
{
    reveal_strlit(".bak");
    reveal_strlit(".bak.");
    lemma_decimal_digits(m);
    lemma_decimal_digits(n);
    assert(backup_name(input, n).len() > input.len());
    if m != n && m > 0 && n > 0 && backup_name(input, m) == backup_name(input, n) {
        let start = (input + ".bak."@).len() as int;
        assert(backup_name(input, m).skip(start) =~= text::decimal_text(m));
        assert(backup_name(input, n).skip(start) =~= text::decimal_text(n));
        lemma_decimal_injective(m, n);
    }
}

/// Where the repaired file is written before the original is moved aside.
pub open spec fn temporary_name(input: Seq<char>) -> Seq<char> {
    input + ".mp4-bframe-doctor.tmp"@
}

/// Where the repaired file is written before the original is moved aside.
pub fn temporary_path(input: &str) -> (path: String)
    ensures
        path@ == temporary_name(input@),
{
    text::joined(input, ".mp4-bframe-doctor.tmp")
}

/// Is `input` to be rewritten? Only if it is broken, or if that is asked for
/// anyway; otherwise this is the line that says so.
pub fn nothing_to_fix(input: &str, analysis: &Analysis, force: bool) -> (line: Option<String>)
    ensures
        line is None <==> analysis.broken() || force,
        line matches Some(l) ==> l@ == input@ + ": already OK, nothing to fix ("@
            + text::decimal_text(analysis.num_frames as nat)
            + " samples). Pass --force to rewrite anyway."@,
{
    if analysis.is_broken() || force {
        return None;
    }
    let mut line = text::joined(input, ": already OK, nothing to fix (");
    line.append(text::decimal(analysis.num_frames as u64).as_str());
    line.append(" samples). Pass --force to rewrite anyway.");
    Some(line)
}

/// The line for a file that was repaired.
pub fn fixed_line(input: &str, analysis: &Analysis, backup: &str) -> (line: String)
    ensures
        line@ == input@ + ": reassigned "@ + text::decimal_text(analysis.num_inversions as nat)
            + " of "@ + text::decimal_text(analysis.num_frames as nat)
            + " samples' capture times to POC order (original saved as \""@ + backup@ + "\")"@,
{
    let mut line = text::joined(input, ": reassigned ");
    line.append(text::decimal(analysis.num_inversions as u64).as_str());
    line.append(" of ");
    line.append(text::decimal(analysis.num_frames as u64).as_str());
    line.append(" samples' capture times to POC order (original saved as \"");
    line.append(backup);
    line.append("\")");
    line
}

/// A step in replacing a file, and what is said if it fails.
#[derive(Debug)]
pub struct SwapStep {
    pub op: Op,
    pub context: String,
}

/// The steps move the original aside, then the repaired file into its place.
pub open spec fn swaps(
    steps: Seq<SwapStep>,
    input: Seq<char>,
    temporary: Seq<char>,
    backup: Seq<char>,
) -> bool {
    &&& steps.len() == 2
    &&& steps[0].op matches Op::Rename { from, to } && from@ == input && to@ == backup
    &&& steps[0].context@ == "moving original \""@ + input + "\" aside to backup \""@ + backup
        + "\""@
    &&& steps[1].op matches Op::Rename { from, to } && from@ == temporary && to@ == input
    &&& steps[1].context@ == "moving repaired file into place at \""@ + input + "\""@
}

/// Replacing `input` by the repaired file at `temporary`: the original is only moved
/// aside once the repair has fully succeeded.
pub fn swap_in(input: &str, temporary: &str, backup: &str) -> (steps: Vec<SwapStep>)
    ensures
        swaps(steps@, input@, temporary@, backup@),
{
    let mut aside = text::joined("moving original \"", input);
    aside.append("\" aside to backup \"");
    aside.append(backup);
    aside.append("\"");
    let mut into = text::joined("moving repaired file into place at \"", input);
    into.append("\"");
    let mut steps: Vec<SwapStep> = Vec::new();
    steps.push(
        SwapStep {
            op: Op::Rename { from: input.to_owned(), to: backup.to_owned() },
            context: aside,
        },
    );
    steps.push(
        SwapStep {
            op: Op::Rename { from: temporary.to_owned(), to: input.to_owned() },
            context: into,
        },
    );
    steps
}

/// The contexts given when the repaired file cannot be created or written.
pub fn write_contexts(input: &str, temporary: &str) -> (contexts: (String, String))
    ensures
        contexts.0@ == "creating output file \""@ + temporary@ + "\""@,
        contexts.1@ == "writing repaired output for \""@ + input@ + "\""@,
{
    let mut creating = text::joined("creating output file \"", temporary);
    creating.append("\"");
    let mut writing = text::joined("writing repaired output for \"", input);
    writing.append("\"");
    (creating, writing)
}

/// The original is never lost: wherever replacing it is interrupted, its contents
/// are at its own name or at the backup's, nothing else has changed but the
/// repaired file's place, and in the end the repaired file has the original's name.
pub proof fn original_is_never_lost<F>(
    disk: Disk<F>,
    steps: Seq<SwapStep>,
    input: Seq<char>,
    temporary: Seq<char>,
    backup: Seq<char>,
    n: nat,
)
    requires
        swaps(steps, input, temporary, backup),
        disk.contains_key(input),
        disk.contains_key(temporary),
        !disk.contains_key(backup),
        input != temporary,
        n <= 2,
    ensures
        ({
            let ops = steps.map_values(|s: SwapStep| s.op);
            let now = disk::after_steps(disk, ops, n);
            &&& disk::runs(disk, ops)
            &&& n == 0 ==> now == disk
            &&& n > 0 ==> now.contains_key(backup) && now[backup] == disk[input]
            &&& n == 2 ==> now.contains_key(input) && now[input] == disk[temporary]
                && !now.contains_key(temporary)
            &&& forall|path: Seq<char>|
                path != input && path != temporary && path != backup ==> {
                    &&& disk.contains_key(path) <==> now.contains_key(path)
                    &&& disk.contains_key(path) ==> disk[path] == #[trigger] now[path]
                }
        }),
{
    let ops = steps.map_values(|s: SwapStep| s.op);
    assert(ops[0] == steps[0].op && ops[1] == steps[1].op);
    reveal_with_fuel(disk::after_steps, 3);
    assert forall|k: nat| k < ops.len() implies #[trigger] disk::possible(
        disk::after_steps(disk, ops, k),
        ops[k as int],
    ) by {
        assert(k == 0 || k == 1);
    }
    assert(n == 0 || n == 1 || n == 2);
}

/// The first backup of a file has `.bak` behind its name, and each further one a dot and
/// its number behind that.
pub proof fn backups_are_numbered(input: Seq<char>, n: nat) -> (number: Seq<char>)
    ensures
        backup_name(input, 0) == input + ".bak"@,
        n > 0 ==> backup_name(input, n) == input + ".bak."@ + number && text::number_read(number)
            == n,
        temporary_name(input) == input + ".mp4-bframe-doctor.tmp"@,
{
    text::written_number_reads_back(n);
    text::decimal_text(n)
}

/// Where moving a file fails, the message names the files moved.
pub proof fn failed_moves_name_the_files(
    steps: Seq<SwapStep>,
    input: Seq<char>,
    temporary: Seq<char>,
    backup: Seq<char>,
)
    requires
        swaps(steps, input, temporary, backup),
    ensures
        steps[0].context@ == "moving original \""@ + input + "\" aside to backup \""@ + backup
            + "\""@,
        steps[1].context@ == "moving repaired file into place at \""@ + input + "\""@,
{
}

} // verus!
