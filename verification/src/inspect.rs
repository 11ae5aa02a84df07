//! Classifying a recording by the files found next to it.

use crate::disk::Disk;
use crate::error::Error;
use crate::sidecars;
use crate::sidecars::Sidecars;
use crate::text;
use vstd::prelude::*;

verus! {

/// The state [`inspect`] found a recording in.
#[derive(Debug, Clone, Copy, PartialEq, Eq, Structural)]
pub enum State {
    /// The recording was closed normally: none of the sidecar files are present.
    NotInterrupted,
    /// The recording holds video, but its capture times are still only in the
    /// SRT sidecar. Repair embeds them.
    NeedsRewrite,
    /// The crash came after the rewrite was already in place, leaving only the
    /// sidecar files behind. Repair removes them.
    StaleSidecars,
    /// Sidecar files are present but no video was ever written, so there is
    /// nothing to recover. Repair removes the sidecar files.
    NothingRecorded,
}

/// Which files of a recording there are.
#[derive(Debug)]
pub struct Seen {
    pub has_srt: bool,
    pub has_metadata_json: bool,
    pub has_rewritten: bool,
    /// Size of the MP4, `None` if there is none, or why that could not be told.
    pub mp4_size: Result<Option<u64>, String>,
}

/// What came of opening an MP4 for its precision timestamps.
#[derive(Debug)]
pub enum Opened {
    /// It has precision timestamps.
    Readable,
    /// It is readable H264-in-MP4, but has no precision timestamps.
    NoTimestamps,
    /// It cannot be read.
    Unreadable {
        /// Why it cannot be read.
        error: String,
        /// Whether it has a `moov` box, or why that could not be told.
        finalized: Result<bool, String>,
    },
}

/// Where [`inspect`] stands.
#[derive(Debug, Clone, Copy, PartialEq, Eq, Structural)]
pub enum Inspection {
    /// The recording is in this state.
    Done(State),
    /// The MP4 has to be opened to tell.
    OpenRecording,
}

impl Seen {
    /// None of the files an interrupted recording leaves behind are there.
    pub open spec fn nothing_left_behind(self) -> bool {
        !self.has_srt && !self.has_metadata_json && !self.has_rewritten
    }
}

/// `answer` tells whether the MP4 `name`, which opened as `opened`, carries
/// precision timestamps.
pub open spec fn tells_timestamps(
    answer: Result<bool, Error>,
    name: Seq<char>,
    opened: Opened,
) -> bool {
    match opened {
        Opened::Readable => answer == Ok::<bool, Error>(true),
        Opened::NoTimestamps => answer == Ok::<bool, Error>(false),
        Opened::Unreadable { error, finalized } => match finalized {
            Err(m) => answer matches Err(Error::Io(e)) && e@ == m@,
            Ok(false) => answer matches Err(Error::Mp4NotFinalized { mp4_filename })
                && mp4_filename@ == name,
            Ok(true) => answer matches Err(Error::FrameSourceError(e)) && e@ == error@,
        },
    }
}

/// Does this MP4 already carry the per-frame precision timestamps that the
/// rewrite stage embeds? True only of a file that stage has already produced;
/// the plain output of the capture stage never has them.
///
/// A missing `moov` box is by far the most likely reason a recording cannot be
/// read at all, and it means something quite specific, so it is told apart from
/// a low-level parse error.
pub fn has_precision_timestamps(mp4_filename: &str, opened: &Opened) -> (answer: Result<
    bool,
    Error,
>)
    ensures
        tells_timestamps(answer, mp4_filename@, *opened),
{
    match opened {
        Opened::Readable => Ok(true),
        Opened::NoTimestamps => Ok(false),
        Opened::Unreadable { error, finalized } => match finalized {
            Err(m) => Err(Error::Io(m.as_str().to_owned())),
            Ok(finalized) => if *finalized {
                Err(Error::FrameSourceError(error.as_str().to_owned()))
            } else {
                Err(Error::Mp4NotFinalized { mp4_filename: mp4_filename.to_owned() })
            },
        },
    }
}

/// `result` classifies the recording `name` from the files seen and, where that
/// is not enough, from what opening its MP4 led to.
pub open spec fn classifies(
    result: Result<Inspection, Error>,
    name: Seq<char>,
    seen: Seen,
    opened: Option<Opened>,
) -> bool {
    match seen.mp4_size {
        Err(m) => result matches Err(Error::Io(e)) && e@ == m@,
        Ok(size) => if seen.nothing_left_behind() {
            if size is Some {
                result == Ok::<Inspection, Error>(Inspection::Done(State::NotInterrupted))
            } else {
                result matches Err(Error::NoSuchRecording { mp4_filename }) && mp4_filename@ == name
            }
        } else if size is None || size == Some(0u64) {
            if seen.has_rewritten {
                result matches Err(Error::OriginalMissing { mp4_filename, rewritten })
                    && mp4_filename@ == name && rewritten@ == name + sidecars::REWRITTEN_SUFFIX@
            } else {
                result == Ok::<Inspection, Error>(Inspection::Done(State::NothingRecorded))
            }
        } else {
            match opened {
                None => result == Ok::<Inspection, Error>(Inspection::OpenRecording),
                Some(Opened::Readable) => result == Ok::<Inspection, Error>(
                    Inspection::Done(State::StaleSidecars),
                ),
                Some(Opened::NoTimestamps) => if seen.has_srt {
                    result == Ok::<Inspection, Error>(Inspection::Done(State::NeedsRewrite))
                } else {
                    result matches Err(Error::MissingSrtSidecar { mp4_filename, srt })
                        && mp4_filename@ == name && srt@ == sidecars::stem(name)
                        + sidecars::SRT_SIDECAR_SUFFIX@
                },
                Some(o) => result matches Err(e) && tells_timestamps(Err(e), name, o),
            }
        },
    }
}

/// Classifies the recording `mp4_path` from the files seen. Call it with `None`
/// first; where the answer is [`Inspection::OpenRecording`], open the MP4 and call
/// it again with what came of that.
///
/// Returns an error when a recording that needs repair cannot be repaired, e.g.
/// because its MP4 was never finalized. Note that this is also what happens for
/// a recording still in progress: an MP4 that was not closed yet has no `moov`
/// box, so a live recording is reported as [`Error::Mp4NotFinalized`] rather
/// than being mistaken for a crashed one.
pub fn inspect(mp4_path: &str, seen: &Seen, opened: Option<&Opened>) -> (result: Result<
    Inspection,
    Error,
>)
    ensures
        !sidecars::is_mp4_name(mp4_path@) ==> result == Err::<Inspection, Error>(
            Error::FilenameDoesNotEndWithMp4,
        ),
        sidecars::is_mp4_name(mp4_path@) ==> classifies(
            result,
            mp4_path@,
            *seen,
            match opened {
                Some(o) => Some(*o),
                None => None,
            },
        ),
{
    let files = match Sidecars::for_mp4(mp4_path) {
        Ok(files) => files,
        Err(e) => {
            return Err(e);
        },
    };
    let mp4_size: Option<u64> = match &seen.mp4_size {
        Ok(size) => *size,
        Err(m) => {
            return Err(Error::Io(m.as_str().to_owned()));
        },
    };
    if !seen.has_srt && !seen.has_metadata_json && !seen.has_rewritten {
        // With nothing left behind there is nothing to repair, but say so rather
        // than reporting a mistyped path as a healthy recording.
        return match mp4_size {
            Some(_) => Ok(Inspection::Done(State::NotInterrupted)),
            None => Err(Error::NoSuchRecording { mp4_filename: files.mp4 }),
        };
    }
    let size: u64 = match mp4_size {
        Some(size) => size,
        None => 0,
    };
    if size == 0 {
        if seen.has_rewritten {
            // The rewrite output is only ever renamed *onto* the recording, so
            // this combination cannot arise from a crash. Rather than guess, say
            // what was found.
            return Err(
                Error::OriginalMissing { mp4_filename: files.mp4, rewritten: files.rewritten },
            );
        }
        return Ok(Inspection::Done(State::NothingRecorded));
    }
    match opened {
        None => Ok(Inspection::OpenRecording),
        Some(opened) => match has_precision_timestamps(files.mp4.as_str(), opened) {
            Err(e) => Err(e),
            Ok(true) => Ok(Inspection::Done(State::StaleSidecars)),
            Ok(false) => if seen.has_srt {
                Ok(Inspection::Done(State::NeedsRewrite))
            } else {
                Err(Error::MissingSrtSidecar { mp4_filename: files.mp4, srt: files.srt })
            },
        },
    }
}

/// What is known of a file that may be a recording.
pub ghost struct Content {
    /// Its size.
    pub size: u64,
    /// What comes of opening it for its precision timestamps.
    pub opened: Opened,
}

/// `seen` is what there is on `disk` of the recording with these files.
pub open spec fn is_seen_on(seen: Seen, disk: Disk<Content>, files: Sidecars) -> bool {
    &&& seen.has_srt == disk.contains_key(files.srt@)
    &&& seen.has_metadata_json == disk.contains_key(files.metadata_json@)
    &&& seen.has_rewritten == disk.contains_key(files.rewritten@)
    &&& seen.mp4_size == Ok::<Option<u64>, String>(
        if disk.contains_key(files.mp4@) {
            Some(disk[files.mp4@].size)
        } else {
            None
        },
    )
}

/// A leftover of the recording is on `disk`.
pub open spec fn has_leftover(disk: Disk<Content>, files: Sidecars) -> bool {
    ||| disk.contains_key(files.srt@)
    ||| disk.contains_key(files.metadata_json@)
    ||| disk.contains_key(files.rewritten@)
}

/// The recording has video on `disk`.
pub open spec fn has_video(disk: Disk<Content>, files: Sidecars) -> bool {
    disk.contains_key(files.mp4@) && disk[files.mp4@].size > 0
}

/// The state a recording on `disk` is in; `None` if it cannot be repaired.
pub open spec fn state_on(disk: Disk<Content>, files: Sidecars) -> Option<State> {
    if !has_leftover(disk, files) {
        if disk.contains_key(files.mp4@) {
            Some(State::NotInterrupted)
        } else {
            None
        }
    } else if !has_video(disk, files) {
        if disk.contains_key(files.rewritten@) {
            None
        } else {
            Some(State::NothingRecorded)
        }
    } else {
        match disk[files.mp4@].opened {
            Opened::Readable => Some(State::StaleSidecars),
            Opened::NoTimestamps => if disk.contains_key(files.srt@) {
                Some(State::NeedsRewrite)
            } else {
                None
            },
            Opened::Unreadable { .. } => None,
        }
    }
}

/// Inspecting a recording finds the state it is in on disk, and an error exactly
/// where it cannot be repaired.
pub proof fn inspection_finds_the_state(
    result: Result<Inspection, Error>,
    disk: Disk<Content>,
    files: Sidecars,
    seen: Seen,
)
    requires
        files.wf(),
        is_seen_on(seen, disk, files),
        classifies(result, files.mp4@, seen, Some(disk[files.mp4@].opened)),
    ensures
        state_on(disk, files) matches Some(state) ==> result == Ok::<Inspection, Error>(
            Inspection::Done(state),
        ),
        state_on(disk, files) is None ==> result is Err,
{
}

/// The MP4 is only opened where its size and the files next to it leave the state
/// open.
pub proof fn opening_is_asked_for_only_when_needed(
    result: Result<Inspection, Error>,
    disk: Disk<Content>,
    files: Sidecars,
    seen: Seen,
)
    requires
        files.wf(),
        is_seen_on(seen, disk, files),
        classifies(result, files.mp4@, seen, None),
    ensures
        result == Ok::<Inspection, Error>(Inspection::OpenRecording) <==> has_leftover(disk, files)
            && has_video(disk, files),
        result matches Ok(Inspection::Done(state)) ==> state_on(disk, files) == Some(state),
{
}

/// A recording still being written, whose MP4 has no `moov` box yet, is in no
/// state that repair would touch: with a sidecar next to it, inspection fails and
/// says that it was never finalized.
pub proof fn live_recording_is_reported(
    result: Result<Inspection, Error>,
    disk: Disk<Content>,
    files: Sidecars,
    seen: Seen,
)
    requires
        files.wf(),
        is_seen_on(seen, disk, files),
        classifies(result, files.mp4@, seen, Some(disk[files.mp4@].opened)),
        has_leftover(disk, files),
        has_video(disk, files),
        disk[files.mp4@].opened matches Opened::Unreadable { finalized, .. } && finalized == Ok::<
            bool,
            String,
        >(false),
    ensures
        state_on(disk, files) is None,
        result matches Err(Error::Mp4NotFinalized { mp4_filename }) && mp4_filename@ == files.mp4@,
{
}

/// What inspection answers of a recording with video: with the MP4 readable but without
/// precision timestamps, it needs its rewrite whenever the SRT sidecar is there,
/// whichever of the other files are, and the SRT sidecar is only called missing if it
/// is; with precision timestamps, only the files left behind are stale.
pub proof fn a_recording_with_video_is_judged_by_it(
    result: Result<Inspection, Error>,
    name: Seq<char>,
    seen: Seen,
    opened: Opened,
    size: u64,
)
    requires
        classifies(result, name, seen, Some(opened)),
        seen.mp4_size == Ok::<Option<u64>, String>(Some(size)),
        size > 0,
        seen.has_srt || seen.has_metadata_json || seen.has_rewritten,
    ensures
        opened is NoTimestamps && seen.has_srt ==> result == Ok::<Inspection, Error>(
            Inspection::Done(State::NeedsRewrite),
        ),
        opened is NoTimestamps && !seen.has_srt ==> result matches Err(
            Error::MissingSrtSidecar { .. },
        ),
        opened is Readable ==> result == Ok::<Inspection, Error>(
            Inspection::Done(State::StaleSidecars),
        ),
        opened matches Opened::Unreadable { finalized: Ok(false), .. } ==> result matches Err(
            Error::Mp4NotFinalized { .. },
        ),
        opened matches Opened::Unreadable { finalized: Ok(true), .. } ==> result matches Err(
            Error::FrameSourceError(_),
        ),
        opened matches Opened::Unreadable { finalized: Err(_), .. } ==> result matches Err(
            Error::Io(_),
        ),
{
}

/// Each answer means what it says of the files: every state and every error that
/// inspection gives comes from just these files.
pub proof fn every_answer_has_its_reason(
    result: Result<Inspection, Error>,
    name: Seq<char>,
    seen: Seen,
    opened: Option<Opened>,
    size: Option<u64>,
)
    requires
        classifies(result, name, seen, opened),
        seen.mp4_size == Ok::<Option<u64>, String>(size),
    ensures
        result == Ok::<Inspection, Error>(Inspection::Done(State::NotInterrupted)) <==> size is Some
            && !seen.has_srt && !seen.has_metadata_json && !seen.has_rewritten,
        result matches Err(Error::NoSuchRecording { .. }) <==> size is None && !seen.has_srt
            && !seen.has_metadata_json && !seen.has_rewritten,
        result matches Err(Error::OriginalMissing { .. }) <==> (size is None || size == Some(0u64))
            && seen.has_rewritten,
        result == Ok::<Inspection, Error>(Inspection::Done(State::NothingRecorded)) <==> (size
            is None || size == Some(0u64)) && (seen.has_srt || seen.has_metadata_json)
            && !seen.has_rewritten,
        result == Ok::<Inspection, Error>(Inspection::OpenRecording) <==> size is Some && size
            != Some(0u64) && opened is None && (seen.has_srt || seen.has_metadata_json
            || seen.has_rewritten),
        result == Ok::<Inspection, Error>(Inspection::Done(State::NeedsRewrite)) ==> seen.has_srt
            && opened matches Some(Opened::NoTimestamps),
        result == Ok::<Inspection, Error>(Inspection::Done(State::StaleSidecars)) ==> opened matches
            Some(Opened::Readable),
        result matches Err(Error::MissingSrtSidecar { .. }) ==> !seen.has_srt && opened matches Some(
            Opened::NoTimestamps,
        ),
        result matches Err(Error::Mp4NotFinalized { .. }) ==> opened matches Some(
            Opened::Unreadable { finalized: Ok(false), .. },
        ),
{
}

/// Errors name the recording and the files they are about.
pub proof fn errors_name_the_files(
    result: Result<Inspection, Error>,
    stem: Seq<char>,
    seen: Seen,
    opened: Option<Opened>,
)
    requires
        classifies(result, stem + ".mp4"@, seen, opened),
    ensures
        result matches Err(Error::NoSuchRecording { mp4_filename }) ==> mp4_filename@ == stem
            + ".mp4"@,
        result matches Err(Error::OriginalMissing { mp4_filename, rewritten }) ==> mp4_filename@
            == stem + ".mp4"@ && rewritten@ == stem + ".mp4"@ + "-rewritten.mp4"@,
        result matches Err(Error::MissingSrtSidecar { mp4_filename, srt }) ==> mp4_filename@ == stem
            + ".mp4"@ && srt@ == stem + "-ffmpeg-rewriter.srt"@,
        result matches Err(Error::Mp4NotFinalized { mp4_filename }) ==> mp4_filename@ == stem
            + ".mp4"@,
{
    text::suffix_comes_off_whole(stem, stem, ".mp4"@);
}

/// The state of a recording follows from which of its files there are, whether its MP4
/// holds anything, and what opening that leads to.
pub proof fn state_follows_from_the_files(disk: Disk<Content>, files: Sidecars)
    ensures
        ({
            let srt = disk.contains_key(files.srt@);
            let json = disk.contains_key(files.metadata_json@);
            let rewritten = disk.contains_key(files.rewritten@);
            let mp4 = disk.contains_key(files.mp4@);
            let video = mp4 && disk[files.mp4@].size != 0;
            let state = state_on(disk, files);
            &&& state == Some(State::NotInterrupted) <==> mp4 && !srt && !json && !rewritten
            &&& state == Some(State::NothingRecorded) <==> !video && (srt || json) && !rewritten
            &&& state == Some(State::NeedsRewrite) <==> video && srt && disk[files.mp4@].opened
                is NoTimestamps
            &&& state == Some(State::StaleSidecars) <==> video && (srt || json || rewritten)
                && disk[files.mp4@].opened is Readable
        }),
{
}

/// What was reported is passed on: why the size could not be told, why the `moov` box
/// could not be looked for, and, where there is one, why the file cannot be read. An
/// MP4 carries precision timestamps exactly if it opened with them.
pub proof fn reports_are_passed_on(
    result: Result<Inspection, Error>,
    name: Seq<char>,
    seen: Seen,
    opened: Opened,
    answer: Result<bool, Error>,
)
    requires
        classifies(result, name, seen, Some(opened)),
        tells_timestamps(answer, name, opened),
    ensures
        seen.mp4_size matches Err(m) ==> result is Err && result->Err_0 is Io && (
        result->Err_0->Io_0)@ == m@,
        answer == Ok::<bool, Error>(true) <==> opened is Readable,
        answer == Ok::<bool, Error>(false) <==> opened is NoTimestamps,
        opened matches Opened::Unreadable { error, finalized: Err(m) } ==> answer is Err
            && answer->Err_0 is Io && (answer->Err_0->Io_0)@ == m@,
        opened matches Opened::Unreadable { error, finalized: Ok(true) } ==> answer is Err
            && answer->Err_0 is FrameSourceError && (answer->Err_0->FrameSourceError_0)@ == error@,
        opened matches Opened::Unreadable { error, finalized: Ok(false) } ==> answer is Err
            && answer->Err_0 is Mp4NotFinalized && (answer->Err_0->Mp4NotFinalized_mp4_filename)@
            == name,
        result matches Err(Error::Io(e)) ==> opened is Unreadable && seen.mp4_size is Ok ==> answer
            is Err && answer->Err_0 is Io && e@ == (answer->Err_0->Io_0)@,
        result matches Err(Error::FrameSourceError(e)) ==> opened is Unreadable ==> answer is Err
            && answer->Err_0 is FrameSourceError && e@ == (answer->Err_0->FrameSourceError_0)@,
{
}

} // verus!
