//! What is told of each recording when interrupted recordings are looked for or
//! repaired.

use crate::error::Error;
use crate::inspect::State;
use crate::repair::Repair;
use crate::report::Line;
use crate::rewrite::RewriteOutcome;
use crate::text;
use vstd::prelude::*;

verus! {

/// One-line description of what a recording needs.
pub open spec fn description(mp4: Seq<char>, state: State) -> Seq<char> {
    match state {
        State::NotInterrupted => "OK            "@ + mp4 + "  (nothing to repair)"@,
        State::NeedsRewrite => "NEEDS-REPAIR  "@ + mp4
            + "  (video is present, but its capture times are still only in the sidecar file)"@,
        State::StaleSidecars => "NEEDS-REPAIR  "@ + mp4
            + "  (recording is complete; only its leftover sidecar files need removing)"@,
        State::NothingRecorded => "NEEDS-REPAIR  "@ + mp4
            + "  (no video was ever written; only its leftover sidecar files need removing)"@,
    }
}

/// One-line description of what a recording needs.
pub fn describe(mp4: &str, state: State) -> (line: String)
    ensures
        line@ == description(mp4@, state),
{
    let start = match state {
        State::NotInterrupted => "OK            ",
        _ => "NEEDS-REPAIR  ",
    };
    let mut line = text::joined(start, mp4);
    match state {
        State::NotInterrupted => {
            line.append("  (nothing to repair)");
        },
        State::NeedsRewrite => {
            line.append(
                "  (video is present, but its capture times are still only in the sidecar file)",
            );
        },
        State::StaleSidecars => {
            line.append(
                "  (recording is complete; only its leftover sidecar files need removing)",
            );
        },
        State::NothingRecorded => {
            line.append(
                "  (no video was ever written; only its leftover sidecar files need removing)",
            );
        },
    }
    line
}

/// The line for a recording that was inspected. It is flagged if there is something
/// to do about it.
pub fn check_line(mp4: &str, inspected: &Result<State, Error>) -> (line: Line)
    ensures
        inspected matches Ok(state) ==> line.text@ == description(mp4@, *state) && line.flagged == (
        *state != State::NotInterrupted),
        inspected matches Err(e) ==> line.flagged && line.text@ == "UNKNOWN       "@ + mp4@
            + "  (could not examine: "@ + e.text() + ")"@,
{
    match inspected {
        Ok(state) => Line {
            text: describe(mp4, *state),
            flagged: *state != State::NotInterrupted,
        },
        Err(e) => {
            let mut line = text::joined("UNKNOWN       ", mp4);
            line.append("  (could not examine: ");
            line.append(e.message().as_str());
            line.append(")");
            Line { text: line, flagged: true }
        },
    }
}

/// The text for a recording that was repaired.
pub open spec fn repair_text(mp4: Seq<char>, done: Repair) -> Seq<char> {
    match done {
        Repair::NotInterrupted => "OK        "@ + mp4 + "  (nothing to repair)"@,
        Repair::Rewritten(outcome) => {
            let frames = text::decimal_text(outcome.frames_written as nat) + " of "@
                + text::decimal_text(outcome.total_frames as nat) + " frames"@;
            match outcome.truncated_reason {
                Some(reason) => "REPAIRED  "@ + mp4 + "  (kept "@ + frames + ": "@ + reason@ + ")"@,
                None => "REPAIRED  "@ + mp4 + "  ("@ + frames + ")"@,
            }
        },
        Repair::RemovedStaleSidecars => "CLEANED   "@ + mp4
            + "  (recording was already complete; removed its leftover sidecar files)"@,
        Repair::RemovedEmptyRecording => "CLEANED   "@ + mp4
            + "  (no video was ever written; removed its leftover sidecar files)"@,
    }
}

/// The line for a recording that was to be repaired. It is flagged if that failed.
pub fn fix_line(mp4: &str, repaired: &Result<Repair, Error>) -> (line: Line)
    ensures
        repaired matches Ok(done) ==> !line.flagged && line.text@ == repair_text(mp4@, *done),
        repaired matches Err(e) ==> line.flagged && line.text@ == "FAILED    "@ + mp4@ + "  ("@
            + e.text() + ")"@,
{
    match repaired {
        Ok(Repair::NotInterrupted) => {
            let mut line = text::joined("OK        ", mp4);
            line.append("  (nothing to repair)");
            Line { text: line, flagged: false }
        },
        Ok(Repair::Rewritten(outcome)) => {
            let mut frames = text::decimal(outcome.frames_written as u64);
            frames.append(" of ");
            frames.append(text::decimal(outcome.total_frames as u64).as_str());
            frames.append(" frames");
            let mut line = text::joined("REPAIRED  ", mp4);
            match &outcome.truncated_reason {
                Some(reason) => {
                    line.append("  (kept ");
                    line.append(frames.as_str());
                    line.append(": ");
                    line.append(reason.as_str());
                    line.append(")");
                },
                None => {
                    line.append("  (");
                    line.append(frames.as_str());
                    line.append(")");
                },
            }
            Line { text: line, flagged: false }
        },
        Ok(Repair::RemovedStaleSidecars) => {
            let mut line = text::joined("CLEANED   ", mp4);
            line.append("  (recording was already complete; removed its leftover sidecar files)");
            Line { text: line, flagged: false }
        },
        Ok(Repair::RemovedEmptyRecording) => {
            let mut line = text::joined("CLEANED   ", mp4);
            line.append("  (no video was ever written; removed its leftover sidecar files)");
            Line { text: line, flagged: false }
        },
        Err(e) => {
            let mut line = text::joined("FAILED    ", mp4);
            line.append("  (");
            line.append(e.message().as_str());
            line.append(")");
            Line { text: line, flagged: true }
        },
    }
}

/// Texts that start and end alike around different middles are different.
proof fn lemma_middles(head: Seq<char>, a: Seq<char>, b: Seq<char>, tail: Seq<char>)
    requires
        head + a + tail == head + b + tail,
    ensures
        a == b,
{
    let x = head + a + tail;
    let y = head + b + tail;
    assert(x.len() == y.len());
    assert(a =~= x.subrange(head.len() as int, x.len() - tail.len()));
    assert(b =~= y.subrange(head.len() as int, y.len() - tail.len()));
}

/// A line that says what a recording needs holds its whole name: lines for different
/// recordings differ.
pub proof fn needs_are_told_of_one_recording(a: Seq<char>, b: Seq<char>, state: State)
    requires
        description(a, state) == description(b, state),
    ensures
        a == b,
{
    match state {
        State::NotInterrupted => {
            lemma_middles("OK            "@, a, b, "  (nothing to repair)"@);
        },
        State::NeedsRewrite => {
            lemma_middles(
                "NEEDS-REPAIR  "@,
                a,
                b,
                "  (video is present, but its capture times are still only in the sidecar file)"@,
            );
        },
        State::StaleSidecars => {
            lemma_middles(
                "NEEDS-REPAIR  "@,
                a,
                b,
                "  (recording is complete; only its leftover sidecar files need removing)"@,
            );
        },
        State::NothingRecorded => {
            lemma_middles(
                "NEEDS-REPAIR  "@,
                a,
                b,
                "  (no video was ever written; only its leftover sidecar files need removing)"@,
            );
        },
    }
}

/// Only of a recording that needs nothing is it said that it is OK, at the start of the
/// line; of every other it is said there that it needs repair.
pub proof fn a_line_starts_with_the_verdict(mp4: Seq<char>, state: State)
    ensures
        description(mp4, state)[0] == 'O' <==> state == State::NotInterrupted,
        description(mp4, state)[0] == 'N' <==> state != State::NotInterrupted,
{
    reveal_strlit("OK            ");
    reveal_strlit("NEEDS-REPAIR  ");
}

/// The line for a rewritten recording holds its name, the number of frames kept, the
/// number there were, and the reason for a difference in full.
pub proof fn kept_frames_are_told(mp4: Seq<char>, outcome: RewriteOutcome) -> (numbers: (
    Seq<char>,
    Seq<char>,
))
    ensures
        text::number_read(numbers.0) == outcome.frames_written,
        text::number_read(numbers.1) == outcome.total_frames,
        outcome.truncated_reason matches Some(reason) ==> repair_text(
            mp4,
            Repair::Rewritten(outcome),
        ) == "REPAIRED  "@ + mp4 + "  (kept "@ + numbers.0 + " of "@ + numbers.1 + " frames"@
            + ": "@ + reason@ + ")"@,
        outcome.truncated_reason is None ==> repair_text(mp4, Repair::Rewritten(outcome))
            == "REPAIRED  "@ + mp4 + "  ("@ + numbers.0 + " of "@ + numbers.1 + " frames"@ + ")"@,
{
    text::written_number_reads_back(outcome.frames_written as nat);
    text::written_number_reads_back(outcome.total_frames as nat);
    let a = text::decimal_text(outcome.frames_written as nat);
    let b = text::decimal_text(outcome.total_frames as nat);
    let frames = a + " of "@ + b + " frames"@;
    if let Some(reason) = outcome.truncated_reason {
        assert("REPAIRED  "@ + mp4 + "  (kept "@ + frames + ": "@ + reason@ + ")"@
            =~= "REPAIRED  "@ + mp4 + "  (kept "@ + a + " of "@ + b + " frames"@ + ": "@ + reason@
            + ")"@);
    } else {
        assert("REPAIRED  "@ + mp4 + "  ("@ + frames + ")"@ =~= "REPAIRED  "@ + mp4 + "  ("@ + a
            + " of "@ + b + " frames"@ + ")"@);
    }
    (a, b)
}

/// A line that says what was done holds the whole name of the recording, and starts with
/// what was done: nothing, rewritten, or cleaned up.
pub proof fn repairs_are_told_of_one_recording(a: Seq<char>, b: Seq<char>, done: Repair)
    ensures
        !(done is Rewritten) && repair_text(a, done) == repair_text(b, done) ==> a == b,
        repair_text(a, done)[0] == 'O' <==> done is NotInterrupted,
        repair_text(a, done)[0] == 'R' <==> done is Rewritten,
        repair_text(a, done)[0] == 'C' <==> done is RemovedStaleSidecars || done
            is RemovedEmptyRecording,
{
    reveal_strlit("OK        ");
    reveal_strlit("REPAIRED  ");
    reveal_strlit("CLEANED   ");
    if repair_text(a, done) == repair_text(b, done) {
        match done {
            Repair::NotInterrupted => {
                lemma_middles("OK        "@, a, b, "  (nothing to repair)"@);
            },
            Repair::Rewritten(_) => {},
            Repair::RemovedStaleSidecars => {
                lemma_middles(
                    "CLEANED   "@,
                    a,
                    b,
                    "  (recording was already complete; removed its leftover sidecar files)"@,
                );
            },
            Repair::RemovedEmptyRecording => {
                lemma_middles(
                    "CLEANED   "@,
                    a,
                    b,
                    "  (no video was ever written; removed its leftover sidecar files)"@,
                );
            },
        }
    }
}

/// What a recording needs is said in these words, and in no others.
pub proof fn needs_are_told_in_these_words(mp4: Seq<char>)
    ensures
        description(mp4, State::NotInterrupted) == "OK            "@ + mp4
            + "  (nothing to repair)"@,
        description(mp4, State::NeedsRewrite) == "NEEDS-REPAIR  "@ + mp4
            + "  (video is present, but its capture times are still only in the sidecar file)"@,
        description(mp4, State::StaleSidecars) == "NEEDS-REPAIR  "@ + mp4
            + "  (recording is complete; only its leftover sidecar files need removing)"@,
        description(mp4, State::NothingRecorded) == "NEEDS-REPAIR  "@ + mp4
            + "  (no video was ever written; only its leftover sidecar files need removing)"@,
        repair_text(mp4, Repair::NotInterrupted) == "OK        "@ + mp4
            + "  (nothing to repair)"@,
        repair_text(mp4, Repair::RemovedStaleSidecars) == "CLEANED   "@ + mp4
            + "  (recording was already complete; removed its leftover sidecar files)"@,
        repair_text(mp4, Repair::RemovedEmptyRecording) == "CLEANED   "@ + mp4
            + "  (no video was ever written; removed its leftover sidecar files)"@,
{
}

} // verus!
