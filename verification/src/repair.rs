//! Finishing interrupted recordings, and closing them in the first place.

use crate::disk;
use crate::disk::{Disk, Op};
use crate::error::Error;
use crate::inspect;
use crate::inspect::{Content, Inspection, Seen, State};
use crate::rewrite;
use crate::rewrite::{FrameRead, FrameStep, RewriteOutcome, SourceInfo};
use crate::sidecars;
use crate::sidecars::Sidecars;
use vstd::prelude::*;

verus! {

/// What [`repair`] did.
#[derive(Debug)]
pub enum Repair {
    /// Nothing needed doing.
    NotInterrupted,
    /// The rewrite stage was run and its result is now in place.
    Rewritten(RewriteOutcome),
    /// The rewrite itself had completed before the crash; only the stale sidecar
    /// files were removed.
    RemovedStaleSidecars,
    /// The recording never got any video; only the stale sidecar files were
    /// removed.
    RemovedEmptyRecording,
}

impl Clone for Repair {
    fn clone(&self) -> (copy: Repair)
        ensures
            copy is NotInterrupted <==> self is NotInterrupted,
            copy is RemovedStaleSidecars <==> self is RemovedStaleSidecars,
            copy is RemovedEmptyRecording <==> self is RemovedEmptyRecording,
            self matches Repair::Rewritten(outcome) ==> {
                &&& copy matches Repair::Rewritten(same)
                &&& same.frames_written == outcome.frames_written
                &&& same.total_frames == outcome.total_frames
                &&& rewrite::text_view(same.truncated_reason) == rewrite::text_view(
                    outcome.truncated_reason,
                )
            },
    {
        match self {
            Repair::NotInterrupted => Repair::NotInterrupted,
            Repair::Rewritten(outcome) => Repair::Rewritten(outcome.clone()),
            Repair::RemovedStaleSidecars => Repair::RemovedStaleSidecars,
            Repair::RemovedEmptyRecording => Repair::RemovedEmptyRecording,
        }
    }
}

/// What [`repair`] goes on from.
#[derive(Debug)]
pub enum RepairEvent {
    /// The recording was inspected: it is in this state, or cannot be repaired.
    Inspected(Result<State, Error>),
    /// The rewrite stage was run; `had_metadata` tells whether there was a metadata
    /// sidecar to embed.
    Rewrote { had_metadata: bool, outcome: RewriteOutcome },
}

/// What [`repair`] asks for.
#[derive(Debug)]
pub enum RepairStep {
    /// Read the metadata sidecar and run the rewrite stage.
    Rewrite,
    /// Carry these steps out; with that, this has been done.
    Settle { ops: Vec<Op>, done: Repair },
}

/// A file that was to be read.
#[derive(Debug)]
pub enum FileRead {
    Text(String),
    NotFound,
    Failed(String),
}

/// The steps put the output of the rewrite stage in place: it is renamed over the
/// recording, then the sidecar files are deleted.
pub open spec fn commits(ops: Seq<Op>, files: Sidecars, remove_metadata_json: bool) -> bool {
    &&& ops.len() == if remove_metadata_json {
        3nat
    } else {
        2nat
    }
    &&& ops[0] matches Op::Rename { from, to } && from@ == files.rewritten@ && to@ == files.mp4@
    &&& ops[1] matches Op::Remove { path } && path@ == files.srt@
    &&& remove_metadata_json ==> (ops[2] matches Op::Remove { path } && path@
        == files.metadata_json@)
}

/// The steps delete the sidecar files and any leftover rewrite output.
pub open spec fn clears(ops: Seq<Op>, files: Sidecars) -> bool {
    &&& ops.len() == 3
    &&& ops[0] matches Op::RemoveIfPresent { path } && path@ == files.srt@
    &&& ops[1] matches Op::RemoveIfPresent { path } && path@ == files.metadata_json@
    &&& ops[2] matches Op::RemoveIfPresent { path } && path@ == files.rewritten@
}

/// Putting the output of the rewrite stage in place: rename it over the original
/// recording and delete the now-redundant sidecar files.
pub fn commit_rewritten(files: &Sidecars, remove_metadata_json: bool) -> (ops: Vec<Op>)
    ensures
        commits(ops@, *files, remove_metadata_json),
{
    let mut ops: Vec<Op> = Vec::new();
    ops.push(
        Op::Rename {
            from: files.rewritten.as_str().to_owned(),
            to: files.mp4.as_str().to_owned(),
        },
    );
    ops.push(Op::Remove { path: files.srt.as_str().to_owned() });
    if remove_metadata_json {
        ops.push(Op::Remove { path: files.metadata_json.as_str().to_owned() });
    }
    ops
}

/// The metadata saved when recording started, if there was any.
pub fn read_metadata_sidecar(read: FileRead) -> (metadata: Result<Option<String>, Error>)
    ensures
        read matches FileRead::Text(t) ==> metadata == Ok::<Option<String>, Error>(Some(t)),
        read is NotFound ==> metadata == Ok::<Option<String>, Error>(None),
        read matches FileRead::Failed(e) ==> metadata == Err::<Option<String>, Error>(Error::Io(e)),
{
    match read {
        FileRead::Text(buf) => Ok(Some(buf)),
        FileRead::NotFound => Ok(None),
        FileRead::Failed(e) => Err(Error::Io(e)),
    }
}

/// `step` is what repairing the recording with these files takes after `event`,
/// which is no failed inspection.
pub open spec fn repairs(step: RepairStep, files: Sidecars, event: RepairEvent) -> bool {
    match event {
        RepairEvent::Inspected(Ok(State::NeedsRewrite)) => step is Rewrite,
        RepairEvent::Inspected(Ok(state)) => {
            &&& step matches RepairStep::Settle { ops, done }
            &&& state is NotInterrupted ==> ops@.len() == 0 && done is NotInterrupted
            &&& state is StaleSidecars ==> clears(ops@, files) && done is RemovedStaleSidecars
            &&& state is NothingRecorded ==> clears(ops@, files) && done is RemovedEmptyRecording
        },
        RepairEvent::Rewrote { had_metadata, outcome } => {
            &&& step matches RepairStep::Settle { ops, done }
            &&& commits(ops@, files, had_metadata)
            &&& done == Repair::Rewritten(outcome)
        },
        RepairEvent::Inspected(Err(_)) => false,
    }
}

/// `answer` is what comes of repairing the recording with these files after `event`: a
/// recording that cannot be repaired is reported as inspection reported it.
pub open spec fn answers(
    answer: Result<RepairStep, Error>,
    files: Sidecars,
    event: RepairEvent,
) -> bool {
    match event {
        RepairEvent::Inspected(Err(e)) => answer == Err::<RepairStep, Error>(e),
        _ => answer matches Ok(step) && repairs(step, files, event),
    }
}

/// Finishes a recording that a crash interrupted, whichever stage it was in.
///
/// Embeds the capture times from the SRT sidecar (and the metadata from the JSON
/// sidecar) into the recording exactly as [`FfmpegReWriter::close`] would have,
/// then renames the result over `mp4_path` and removes the sidecar files. A
/// partial `-rewritten.mp4` left by a crash inside the rewrite stage is
/// discarded and the stage redone.
///
/// Doing nothing is a normal outcome: a recording with no sidecar files, or one
/// whose rewrite had already been put in place, needs no repair (see [`State`]).
/// Repairing a recording twice is therefore harmless. What cannot be repaired is
/// reported rather than touched.
pub fn repair(mp4_path: &str, event: RepairEvent) -> (answer: Result<RepairStep, Error>)
    ensures
        !sidecars::is_mp4_name(mp4_path@) ==> answer == Err::<RepairStep, Error>(
            Error::FilenameDoesNotEndWithMp4,
        ),
        sidecars::is_mp4_name(mp4_path@) ==> forall|files: Sidecars|
            files.belong_to(mp4_path@) ==> #[trigger] answers(answer, files, event),
{
    let files = match Sidecars::for_mp4(mp4_path) {
        Ok(files) => files,
        Err(e) => {
            return Err(e);
        },
    };
    match event {
        RepairEvent::Inspected(Err(e)) => Err(e),
        RepairEvent::Inspected(Ok(State::NotInterrupted)) => Ok(
            RepairStep::Settle { ops: Vec::new(), done: Repair::NotInterrupted },
        ),
        RepairEvent::Inspected(Ok(State::StaleSidecars)) => Ok(
            RepairStep::Settle { ops: files.remove(), done: Repair::RemovedStaleSidecars },
        ),
        RepairEvent::Inspected(Ok(State::NothingRecorded)) => Ok(
            RepairStep::Settle { ops: files.remove(), done: Repair::RemovedEmptyRecording },
        ),
        RepairEvent::Inspected(Ok(State::NeedsRewrite)) => Ok(RepairStep::Rewrite),
        RepairEvent::Rewrote { had_metadata, outcome } => {
            let ops = commit_rewritten(&files, had_metadata);
            Ok(RepairStep::Settle { ops, done: Repair::Rewritten(outcome) })
        },
    }
}

/// A recording being made: what has to be remembered until it is closed.
#[derive(Debug)]
pub struct FfmpegReWriter {
    sidecars: Sidecars,
    /// Whether the metadata was saved to its sidecar (only done when there is any).
    wrote_metadata_json: bool,
}

/// A step in starting a recording.
#[derive(Debug)]
pub enum StartStep {
    /// Start encoding into this file.
    StartEncoder { path: String },
    /// Create the file that capture times are written to.
    CreateSrt { path: String },
    /// Save the metadata here, in case of a crash before the recording is closed.
    SaveMetadata { path: String },
}

/// The steps start a recording: encoding starts, the file for capture times is
/// created, and only then is the metadata saved, if there is any, so that it never
/// stands without the SRT sidecar by which it is found.
pub open spec fn starts(steps: Seq<StartStep>, files: Sidecars, saves_metadata: bool) -> bool {
    &&& steps.len() == if saves_metadata {
        3nat
    } else {
        2nat
    }
    &&& steps[0] matches StartStep::StartEncoder { path } && path@ == files.mp4@
    &&& steps[1] matches StartStep::CreateSrt { path } && path@ == files.srt@
    &&& saves_metadata ==> (steps[2] matches StartStep::SaveMetadata { path } && path@
        == files.metadata_json@)
}

impl FfmpegReWriter {
    /// The files of the recording.
    pub closed spec fn files(self) -> Sidecars {
        self.sidecars
    }

    /// There is metadata, and it is saved to its sidecar.
    pub closed spec fn saves_metadata(self) -> bool {
        self.wrote_metadata_json
    }

    /// Starts a recording at `mp4_path`, with camera metadata or without.
    pub fn new(mp4_path: &str, has_metadata: bool) -> (recording: Result<FfmpegReWriter, Error>)
        ensures
            recording is Ok <==> sidecars::is_mp4_name(mp4_path@),
            recording matches Ok(r) ==> r.files().belong_to(mp4_path@) && r.saves_metadata()
                == has_metadata,
            recording matches Err(e) ==> e == Error::FilenameDoesNotEndWithMp4,
    {
        match Sidecars::for_mp4(mp4_path) {
            Ok(sidecars) => Ok(FfmpegReWriter { sidecars, wrote_metadata_json: has_metadata }),
            Err(e) => Err(e),
        }
    }

    /// What starting the recording takes, in order, before its first frame. Where a
    /// step fails, those after it are not taken.
    pub fn start(&self) -> (steps: Vec<StartStep>)
        ensures
            starts(steps@, self.files(), self.saves_metadata()),
    {
        let mut steps: Vec<StartStep> = Vec::new();
        steps.push(StartStep::StartEncoder { path: self.sidecars.mp4.as_str().to_owned() });
        steps.push(StartStep::CreateSrt { path: self.sidecars.srt.as_str().to_owned() });
        if self.wrote_metadata_json {
            steps.push(
                StartStep::SaveMetadata { path: self.sidecars.metadata_json.as_str().to_owned() },
            );
        }
        steps
    }

    /// The files of the recording, for its rewrite stage.
    pub fn recording_files(&self) -> (files: &Sidecars)
        ensures
            *files == self.files(),
    {
        &self.sidecars
    }

    /// Closes the recording, once its rewrite stage has come to `outcome`.
    ///
    /// The SRT sidecar having just been written, it covers every frame, so a
    /// truncated rewrite means something is wrong. That fails without committing:
    /// the original MP4 and its sidecars are left in place, so the recording stays
    /// repairable (see [`repair`]).
    pub fn close(self, outcome: RewriteOutcome) -> (ops: Result<Vec<Op>, Error>)
        ensures
            ops is Ok <==> outcome.truncated_reason is None,
            ops matches Ok(list) ==> commits(list@, self.files(), self.saves_metadata()),
            ops matches Err(e) ==> {
                &&& e matches Error::IncompleteRewrite {
                    mp4_filename,
                    frames_written,
                    total_frames,
                    reason,
                }
                &&& mp4_filename@ == self.files().mp4@
                &&& frames_written == outcome.frames_written
                &&& total_frames == outcome.total_frames
                &&& outcome.truncated_reason == Some(reason)
            },
    {
        match outcome.truncated_reason {
            Some(reason) => Err(
                Error::IncompleteRewrite {
                    mp4_filename: self.sidecars.mp4,
                    frames_written: outcome.frames_written,
                    total_frames: outcome.total_frames,
                    reason,
                },
            ),
            None => Ok(commit_rewritten(&self.sidecars, self.wrote_metadata_json)),
        }
    }
}

/// What the files hold that starting a recording creates.
pub ghost struct Fresh {
    /// The file for capture times, still without any.
    pub srt: Content,
    /// The metadata.
    pub metadata: Content,
}

/// The files there are after a step in starting a recording. The encoder only
/// creates its file with the first frame.
pub open spec fn after_start(disk: Disk<Content>, step: StartStep, fresh: Fresh) -> Disk<Content> {
    match step {
        StartStep::StartEncoder { .. } => disk,
        StartStep::CreateSrt { path } => disk.insert(path@, fresh.srt),
        StartStep::SaveMetadata { path } => disk.insert(path@, fresh.metadata),
    }
}

/// The files there are after the first `n` steps in starting a recording.
pub open spec fn after_starting(
    disk: Disk<Content>,
    steps: Seq<StartStep>,
    fresh: Fresh,
    n: nat,
) -> Disk<Content>
    decreases n,
{
    if n == 0 {
        disk
    } else {
        after_start(after_starting(disk, steps, fresh, (n - 1) as nat), steps[n - 1], fresh)
    }
}

/// The metadata sidecar is only ever written together with the SRT sidecar: however
/// far a start gets before it fails, the first is there only if the second is. Once
/// every step is taken the SRT sidecar is there, the metadata sidecar holds the
/// metadata if there is any, and without metadata none is written.
pub proof fn metadata_never_stands_alone(
    disk: Disk<Content>,
    files: Sidecars,
    steps: Seq<StartStep>,
    saves_metadata: bool,
    fresh: Fresh,
    n: nat,
)
    requires
        files.wf(),
        disk.contains_key(files.metadata_json@) ==> disk.contains_key(files.srt@),
        starts(steps, files, saves_metadata),
        n <= steps.len(),
    ensures
        ({
            let now = after_starting(disk, steps, fresh, n);
            &&& now.contains_key(files.metadata_json@) ==> now.contains_key(files.srt@)
            &&& n == steps.len() ==> now.contains_key(files.srt@) && now[files.srt@] == fresh.srt
            &&& n == steps.len() && saves_metadata ==> now.contains_key(files.metadata_json@)
                && now[files.metadata_json@] == fresh.metadata
            &&& !saves_metadata ==> (now.contains_key(files.metadata_json@) <==> disk.contains_key(
                files.metadata_json@,
            ))
        }),
{
    sidecars::files_are_distinct(files);
    reveal_with_fuel(after_starting, 4);
    assert(n == 0 || n == 1 || n == 2 || n == 3);
}

/// A crash before the first frame leaves nothing that repair could not clear away:
/// where any file is left, the recording counts as one without video.
pub proof fn crash_before_the_first_frame_leaves_nothing_recorded(
    disk: Disk<Content>,
    files: Sidecars,
    steps: Seq<StartStep>,
    saves_metadata: bool,
    fresh: Fresh,
    n: nat,
)
    requires
        files.wf(),
        !inspect::has_leftover(disk, files),
        !disk.contains_key(files.mp4@),
        starts(steps, files, saves_metadata),
        n <= steps.len(),
    ensures
        ({
            let now = after_starting(disk, steps, fresh, n);
            &&& inspect::has_leftover(now, files) ==> inspect::state_on(now, files) == Some(
                State::NothingRecorded,
            )
            &&& n == steps.len() ==> inspect::has_leftover(now, files)
        }),
{
    sidecars::files_are_distinct(files);
    reveal_with_fuel(after_starting, 4);
    assert(n == 0 || n == 1 || n == 2 || n == 3);
}

/// `made` is a finished output of the rewrite stage.
pub open spec fn is_rewrite_output(made: Content) -> bool {
    made.size > 0 && made.opened is Readable
}

/// Only the files of this recording differ between the two disks.
pub open spec fn others_untouched(
    before: Disk<Content>,
    after: Disk<Content>,
    files: Sidecars,
) -> bool {
    forall|path: Seq<char>|
        path != files.mp4@ && path != files.srt@ && path != files.metadata_json@ && path
            != files.rewritten@ ==> {
            &&& before.contains_key(path) <==> after.contains_key(path)
            &&& before.contains_key(path) ==> before[path] == #[trigger] after[path]
        }
}

/// A partial output of the rewrite stage changes nothing about what a recording
/// needs: the stage is redone.
pub proof fn partial_rewrite_is_redone(disk: Disk<Content>, files: Sidecars, partial: Content)
    requires
        files.wf(),
        inspect::state_on(disk, files) == Some(State::NeedsRewrite),
    ensures
        inspect::state_on(disk.insert(files.rewritten@, partial), files) == Some(
            State::NeedsRewrite,
        ),
{
    sidecars::files_are_distinct(files);
}

/// A crash while the output of the rewrite stage is put in place loses nothing. At
/// every point the recording is either untouched and still to be rewritten, or
/// replaced by the rewrite with at most stale sidecar files left, and after the
/// last step it counts as closed normally.
pub proof fn crash_while_committing_is_repairable(
    disk: Disk<Content>,
    files: Sidecars,
    made: Content,
    ops: Seq<Op>,
    n: nat,
)
    requires
        files.wf(),
        inspect::state_on(disk, files) == Some(State::NeedsRewrite),
        is_rewrite_output(made),
        commits(ops, files, disk.contains_key(files.metadata_json@)),
        n <= ops.len(),
    ensures
        ({
            let start = disk.insert(files.rewritten@, made);
            let now = disk::after_steps(start, ops, n);
            &&& disk::runs(start, ops)
            &&& n == 0 ==> now[files.mp4@] == disk[files.mp4@] && inspect::state_on(now, files)
                == Some(State::NeedsRewrite)
            &&& n > 0 ==> now[files.mp4@] == made && now.contains_key(files.mp4@)
            &&& 0 < n < ops.len() ==> inspect::state_on(now, files) == Some(State::StaleSidecars)
            &&& n == ops.len() ==> inspect::state_on(now, files) == Some(State::NotInterrupted)
            &&& others_untouched(disk, now, files)
        }),
{
    sidecars::files_are_distinct(files);
    reveal_with_fuel(disk::after_steps, 4);
    let start = disk.insert(files.rewritten@, made);
    assert forall|k: nat| k < ops.len() implies #[trigger] disk::possible(
        disk::after_steps(start, ops, k),
        ops[k as int],
    ) by {
        assert(k == 0 || k == 1 || k == 2);
    }
    assert(n == 0 || n == 1 || n == 2 || n == 3);
}

/// A crash while stale sidecar files are removed leaves the recording untouched
/// and still to be tidied up; after the last step it counts as closed normally.
pub proof fn crash_while_clearing_is_repairable(
    disk: Disk<Content>,
    files: Sidecars,
    ops: Seq<Op>,
    n: nat,
)
    requires
        files.wf(),
        inspect::state_on(disk, files) == Some(State::StaleSidecars),
        clears(ops, files),
        n <= 3,
    ensures
        ({
            let now = disk::after_steps(disk, ops, n);
            &&& disk::runs(disk, ops)
            &&& now.contains_key(files.mp4@)
            &&& now[files.mp4@] == disk[files.mp4@]
            &&& inspect::state_on(now, files) == Some(State::StaleSidecars)
                || inspect::state_on(now, files) == Some(State::NotInterrupted)
            &&& n == 3 ==> inspect::state_on(now, files) == Some(State::NotInterrupted)
            &&& others_untouched(disk, now, files)
        }),
{
    sidecars::files_are_distinct(files);
    reveal_with_fuel(disk::after_steps, 4);
    assert(n == 0 || n == 1 || n == 2 || n == 3);
}

/// Clearing the sidecar files of a recording that never got any video leaves none
/// of them; what there is of the MP4, if anything, stays.
pub proof fn clearing_an_empty_recording(disk: Disk<Content>, files: Sidecars, ops: Seq<Op>)
    requires
        files.wf(),
        inspect::state_on(disk, files) == Some(State::NothingRecorded),
        clears(ops, files),
    ensures
        ({
            let now = disk::after_steps(disk, ops, 3);
            &&& disk::runs(disk, ops)
            &&& !inspect::has_leftover(now, files)
            &&& now.contains_key(files.mp4@) <==> disk.contains_key(files.mp4@)
            &&& now.contains_key(files.mp4@) ==> now[files.mp4@] == disk[files.mp4@]
                && inspect::state_on(now, files) == Some(State::NotInterrupted)
            &&& others_untouched(disk, now, files)
        }),
{
    sidecars::files_are_distinct(files);
    reveal_with_fuel(disk::after_steps, 4);
}

/// The steps that repair takes, on this disk, once it has all it needs: the
/// recording was inspected there and, if need be, rewritten.
pub open spec fn settles(
    disk: Disk<Content>,
    files: Sidecars,
    event: RepairEvent,
    made: Content,
) -> bool {
    match event {
        RepairEvent::Inspected(Ok(state)) => state != State::NeedsRewrite && inspect::state_on(
            disk,
            files,
        ) == Some(state),
        RepairEvent::Inspected(Err(_)) => false,
        RepairEvent::Rewrote { had_metadata, .. } => {
            &&& inspect::state_on(disk, files) == Some(State::NeedsRewrite)
            &&& had_metadata == disk.contains_key(files.metadata_json@)
            &&& is_rewrite_output(made)
        },
    }
}

/// The disk on which the steps of a repair are carried out: with the output of the
/// rewrite stage, if it was run.
pub open spec fn prepared(
    disk: Disk<Content>,
    files: Sidecars,
    event: RepairEvent,
    made: Content,
) -> Disk<Content> {
    if event is Rewrote {
        disk.insert(files.rewritten@, made)
    } else {
        disk
    }
}

/// Repairing twice is harmless: once a repair has been carried out, the recording
/// counts as not interrupted, and a second repair has nothing to do. (Where there
/// never was an MP4, only the sidecar files of a recording without video, nothing
/// is left to find.)
pub proof fn repairing_twice_is_harmless(
    disk: Disk<Content>,
    files: Sidecars,
    event: RepairEvent,
    made: Content,
    step: RepairStep,
    again: RepairStep,
)
    requires
        files.wf(),
        disk.contains_key(files.mp4@),
        settles(disk, files, event, made),
        repairs(step, files, event),
        repairs(again, files, RepairEvent::Inspected(Ok(State::NotInterrupted))),
    ensures
        ({
            let ops = step->ops@;
            let fixed = disk::after_steps(prepared(disk, files, event, made), ops, ops.len());
            &&& step is Settle
            &&& disk::runs(prepared(disk, files, event, made), ops)
            &&& inspect::state_on(fixed, files) == Some(State::NotInterrupted)
            &&& !inspect::has_leftover(fixed, files)
        }),
        again matches RepairStep::Settle { ops: none, done: nothing } && none@.len() == 0
            && nothing is NotInterrupted,
{
    let ops = step->ops@;
    sidecars::files_are_distinct(files);
    match event {
        RepairEvent::Inspected(Ok(State::StaleSidecars)) => {
            crash_while_clearing_is_repairable(disk, files, ops, 3);
        },
        RepairEvent::Inspected(Ok(State::NothingRecorded)) => {
            clearing_an_empty_recording(disk, files, ops);
        },
        RepairEvent::Inspected(_) => {},
        RepairEvent::Rewrote { .. } => {
            crash_while_committing_is_repairable(disk, files, made, ops, ops.len());
            reveal_with_fuel(disk::after_steps, 4);
        },
    }
}

/// What cannot be repaired is reported rather than touched: where a recording is in no
/// state that repair can settle, inspection fails, repair gives the very same error and
/// asks for no step, and nothing else it could be told would settle the recording.
pub proof fn unrepairable_is_reported_untouched(
    inspected: Result<Inspection, Error>,
    disk: Disk<Content>,
    files: Sidecars,
    seen: Seen,
    answer: Result<RepairStep, Error>,
    event: RepairEvent,
    made: Content,
)
    requires
        files.wf(),
        inspect::is_seen_on(seen, disk, files),
        inspect::classifies(inspected, files.mp4@, seen, Some(disk[files.mp4@].opened)),
        inspect::state_on(disk, files) is None,
        inspected matches Err(e) ==> answers(
            answer,
            files,
            RepairEvent::Inspected(Err::<State, Error>(e)),
        ),
    ensures
        inspected is Err,
        answer == Err::<RepairStep, Error>(inspected->Err_0),
        !settles(disk, files, event, made),
{
    inspect::inspection_finds_the_state(inspected, disk, files, seen);
}

/// Closing leaves the finished recording: once its steps are carried out, the MP4 is
/// the output of the rewrite stage, none of the other files are left, and the
/// recording counts as not interrupted.
pub proof fn closing_leaves_the_finished_recording(
    disk: Disk<Content>,
    files: Sidecars,
    saves_metadata: bool,
    made: Content,
    ops: Seq<Op>,
)
    requires
        files.wf(),
        disk.contains_key(files.srt@),
        disk.contains_key(files.metadata_json@) <==> saves_metadata,
        commits(ops, files, saves_metadata),
    ensures
        ({
            let start = disk.insert(files.rewritten@, made);
            let closed = disk::after_steps(start, ops, ops.len());
            &&& disk::runs(start, ops)
            &&& closed.contains_key(files.mp4@)
            &&& closed[files.mp4@] == made
            &&& !inspect::has_leftover(closed, files)
            &&& inspect::state_on(closed, files) == Some(State::NotInterrupted)
            &&& others_untouched(disk, closed, files)
        }),
{
    sidecars::files_are_distinct(files);
    reveal_with_fuel(disk::after_steps, 4);
    let start = disk.insert(files.rewritten@, made);
    assert forall|k: nat| k < ops.len() implies #[trigger] disk::possible(
        disk::after_steps(start, ops, k),
        ops[k as int],
    ) by {
        assert(k == 0 || k == 1 || k == 2);
    }
}

/// A recording that was repaired is the recording that closing it would have left.
/// Both rewrite the same frames of the same source, so they are told to write the
/// same samples; whatever file is made of those and the metadata that was saved
/// (`mux` stands for that), the steps that follow lead to the same disk.
pub proof fn repaired_is_as_if_closed(
    disk: Disk<Content>,
    files: Sidecars,
    source: SourceInfo,
    frames: Seq<FrameRead>,
    written_by_close: Seq<FrameStep>,
    written_by_repair: Seq<FrameStep>,
    metadata: Option<Seq<char>>,
    mux: spec_fn(Seq<FrameStep>, Option<Seq<char>>) -> Content,
    by_close: Seq<Op>,
    by_repair: Seq<Op>,
)
    requires
        files.wf(),
        rewrite::copies(rewrite::started(files.srt@, source), frames, written_by_close),
        rewrite::copies(rewrite::started(files.srt@, source), frames, written_by_repair),
        commits(by_close, files, disk.contains_key(files.metadata_json@)),
        commits(by_repair, files, disk.contains_key(files.metadata_json@)),
    ensures
        written_by_repair == written_by_close,
        disk::after_steps(
            disk.insert(files.rewritten@, mux(written_by_repair, metadata)),
            by_repair,
            by_repair.len(),
        ) == disk::after_steps(
            disk.insert(files.rewritten@, mux(written_by_close, metadata)),
            by_close,
            by_close.len(),
        ),
{
    rewrite::same_source_same_samples(
        rewrite::started(files.srt@, source),
        frames,
        written_by_close,
        written_by_repair,
    );
    reveal_with_fuel(disk::after_steps, 4);
}

/// Repair says what it did, and does only what the state calls for: nothing, removing
/// what was left behind, or the rewrite stage and then putting its output in place.
pub proof fn repair_does_what_the_state_calls_for(
    step: RepairStep,
    files: Sidecars,
    event: RepairEvent,
)
    requires
        repairs(step, files, event),
    ensures
        event matches RepairEvent::Inspected(Ok(State::NotInterrupted)) ==> (step matches
            RepairStep::Settle { ops, done: Repair::NotInterrupted } && ops@.len() == 0),
        event matches RepairEvent::Inspected(Ok(State::StaleSidecars)) ==> step matches
            RepairStep::Settle { done: Repair::RemovedStaleSidecars, .. },
        event matches RepairEvent::Inspected(Ok(State::NothingRecorded)) ==> step matches
            RepairStep::Settle { done: Repair::RemovedEmptyRecording, .. },
        event matches RepairEvent::Inspected(Ok(State::NeedsRewrite)) ==> step is Rewrite,
        event matches RepairEvent::Rewrote { outcome, .. } ==> (step matches RepairStep::Settle {
            done: Repair::Rewritten(told),
            ..
        } && told == outcome),
{
}

/// Removing what was left behind takes away the three files next to the MP4, there or
/// not, and leaves the MP4 and every other file as it was.
pub proof fn clearing_removes_just_the_three_files(
    disk: Disk<Content>,
    files: Sidecars,
    ops: Seq<Op>,
    path: Seq<char>,
)
    requires
        files.wf(),
        clears(ops, files),
    ensures
        ({
            let now = disk::after_steps(disk, ops, ops.len());
            &&& disk::runs(disk, ops)
            &&& now.contains_key(path) <==> disk.contains_key(path) && path != files.srt@ && path
                != files.metadata_json@ && path != files.rewritten@
            &&& now.contains_key(path) ==> now[path] == disk[path]
        }),
{
    sidecars::files_are_distinct(files);
    reveal_with_fuel(disk::after_steps, 4);
}

/// Putting the rewrite output in place makes it the MP4 and takes away the SRT sidecar,
/// and the metadata sidecar where that is asked for; every other file stays as it was.
pub proof fn committing_changes_just_the_recording(
    disk: Disk<Content>,
    files: Sidecars,
    remove_metadata_json: bool,
    ops: Seq<Op>,
    path: Seq<char>,
)
    requires
        files.wf(),
        commits(ops, files, remove_metadata_json),
        disk.contains_key(files.rewritten@),
        disk.contains_key(files.srt@),
        remove_metadata_json ==> disk.contains_key(files.metadata_json@),
    ensures
        ({
            let now = disk::after_steps(disk, ops, ops.len());
            &&& disk::runs(disk, ops)
            &&& now.contains_key(files.mp4@)
            &&& now[files.mp4@] == disk[files.rewritten@]
            &&& path != files.mp4@ ==> (now.contains_key(path) <==> disk.contains_key(path) && path
                != files.srt@ && path != files.rewritten@ && !(remove_metadata_json && path
                == files.metadata_json@))
            &&& path != files.mp4@ && now.contains_key(path) ==> now[path] == disk[path]
        }),
{
    sidecars::files_are_distinct(files);
    reveal_with_fuel(disk::after_steps, 4);
    assert forall|k: nat| k < ops.len() implies #[trigger] disk::possible(
        disk::after_steps(disk, ops, k),
        ops[k as int],
    ) by {
        assert(k == 0 || k == 1 || k == 2);
    }
}

/// Starting a recording starts the encoder on the MP4 and creates the file for capture
/// times, and saves metadata to its own file exactly if there is any.
pub proof fn starting_uses_each_file_for_its_purpose(
    steps: Seq<StartStep>,
    files: Sidecars,
    saves_metadata: bool,
)
    requires
        starts(steps, files, saves_metadata),
    ensures
        exists|i: int|
            0 <= i < steps.len() && (#[trigger] steps[i] matches StartStep::StartEncoder { path }
                && path@ == files.mp4@),
        exists|i: int|
            0 <= i < steps.len() && (#[trigger] steps[i] matches StartStep::CreateSrt { path }
                && path@ == files.srt@),
        saves_metadata <==> exists|i: int|
            0 <= i < steps.len() && (#[trigger] steps[i] matches StartStep::SaveMetadata { path }
                && path@ == files.metadata_json@),
{
    assert(steps[0] is StartEncoder);
    assert(steps[1] is CreateSrt);
    if saves_metadata {
        assert(steps[2] is SaveMetadata);
    }
}

} // verus!
