//! What can go wrong with a recording, and how it is told.

use crate::text;
use vstd::prelude::*;

verus! {

/// Why a recording could not be made, examined or repaired.
///
/// The variants that carry a bare message pass on what the operating system or
/// another component reported.
#[derive(Debug)]
pub enum Error {
    Io(String),
    FfmpegWriter(String),
    CannotReencode,
    FilenameDoesNotEndWithMp4,
    FilenameNotUnicode,
    SourceIsNotH264,
    Mp4WriterError(String),
    FrameSourceError(String),
    SerdeJsonError(String),
    GlobPatternError(String),
    GlobError(String),
    IncompleteRewrite {
        mp4_filename: String,
        frames_written: usize,
        total_frames: usize,
        reason: String,
    },
    NoFramesRewritten { mp4_filename: String, reason: String },
    Mp4NotFinalized { mp4_filename: String },
    OriginalMissing { mp4_filename: String, rewritten: String },
    MissingSrtSidecar { mp4_filename: String, srt: String },
    NoSuchRecording { mp4_filename: String },
}

impl Error {
    /// The text shown for this error.
    pub open spec fn text(self) -> Seq<char> {
        match self {
            Error::Io(e) => "IO error: "@ + e@,
            Error::FfmpegWriter(e) => "ffmpeg_writer "@ + e@,
            Error::CannotReencode => "cannot reencode"@,
            Error::FilenameDoesNotEndWithMp4 => "filename does not end with '.mp4'"@,
            Error::FilenameNotUnicode => "filename not unicode"@,
            Error::SourceIsNotH264 => "source does not contain H264 video"@,
            Error::Mp4WriterError(e) => "MP4 writer error: "@ + e@,
            Error::FrameSourceError(e) => "frame source error: "@ + e@,
            Error::SerdeJsonError(e) => "serde json error: "@ + e@,
            Error::GlobPatternError(e) => "glob pattern error: "@ + e@,
            Error::GlobError(e) => "glob error: "@ + e@,
            Error::IncompleteRewrite { mp4_filename, frames_written, total_frames, reason } =>
                "the rewrite of \""@ + mp4_filename@ + "\" could cover only "@
                + text::decimal_text(frames_written as nat) + " of "@ + text::decimal_text(
                total_frames as nat,
            ) + " frames: "@ + reason@,
            Error::NoFramesRewritten { mp4_filename, reason } => "\""@ + mp4_filename@
                + "\": no frame could be rewritten: "@ + reason@,
            Error::Mp4NotFinalized { mp4_filename } => "\""@ + mp4_filename@
                + "\" was never finalized (it has no `moov` box), so its frames cannot be read. Either ffmpeg is still writing it, or ffmpeg itself was killed before it could write the index; in the latter case a tool such as `untrunc` may be able to rebuild it."@,
            Error::OriginalMissing { mp4_filename, rewritten } => "\""@ + mp4_filename@
                + "\" is missing or empty, but the leftover \""@ + rewritten@
                + "\" of an interrupted rewrite is present. Inspect \""@ + rewritten@
                + "\" by hand: if it is complete, rename it to \""@ + mp4_filename@ + "\"."@,
            Error::MissingSrtSidecar { mp4_filename, srt } => "\""@ + mp4_filename@
                + "\" still needs its timestamps embedded, but the timestamp sidecar \""@ + srt@
                + "\" is gone, so they are lost."@,
            Error::NoSuchRecording { mp4_filename } => "\""@ + mp4_filename@
                + "\": no such recording, and none of the files an interrupted one leaves behind are there either."@,
        }
    }

    /// The text shown for this error.
    pub fn message(&self) -> (message: String)
        ensures
            message@ == self.text(),
    {
        match self {
            Error::Io(e) => text::joined("IO error: ", e.as_str()),
            Error::FfmpegWriter(e) => text::joined("ffmpeg_writer ", e.as_str()),
            Error::CannotReencode => "cannot reencode".to_owned(),
            Error::FilenameDoesNotEndWithMp4 => "filename does not end with '.mp4'".to_owned(),
            Error::FilenameNotUnicode => "filename not unicode".to_owned(),
            Error::SourceIsNotH264 => "source does not contain H264 video".to_owned(),
            Error::Mp4WriterError(e) => text::joined("MP4 writer error: ", e.as_str()),
            Error::FrameSourceError(e) => text::joined("frame source error: ", e.as_str()),
            Error::SerdeJsonError(e) => text::joined("serde json error: ", e.as_str()),
            Error::GlobPatternError(e) => text::joined("glob pattern error: ", e.as_str()),
            Error::GlobError(e) => text::joined("glob error: ", e.as_str()),
            Error::IncompleteRewrite { mp4_filename, frames_written, total_frames, reason } => {
                let mut m = "the rewrite of \"".to_owned();
                m.append(mp4_filename.as_str());
                m.append("\" could cover only ");
                m.append(text::decimal(*frames_written as u64).as_str());
                m.append(" of ");
                m.append(text::decimal(*total_frames as u64).as_str());
                m.append(" frames: ");
                m.append(reason.as_str());
                m
            },
            Error::NoFramesRewritten { mp4_filename, reason } => {
                let mut m = text::joined("\"", mp4_filename.as_str());
                m.append("\": no frame could be rewritten: ");
                m.append(reason.as_str());
                m
            },
            Error::Mp4NotFinalized { mp4_filename } => {
                let mut m = text::joined("\"", mp4_filename.as_str());
                m.append(
                    "\" was never finalized (it has no `moov` box), so its frames cannot be read. Either ffmpeg is still writing it, or ffmpeg itself was killed before it could write the index; in the latter case a tool such as `untrunc` may be able to rebuild it.",
                );
                m
            },
            Error::OriginalMissing { mp4_filename, rewritten } => {
                let mut m = text::joined("\"", mp4_filename.as_str());
                m.append("\" is missing or empty, but the leftover \"");
                m.append(rewritten.as_str());
                m.append("\" of an interrupted rewrite is present. Inspect \"");
                m.append(rewritten.as_str());
                m.append("\" by hand: if it is complete, rename it to \"");
                m.append(mp4_filename.as_str());
                m.append("\".");
                m
            },
            Error::MissingSrtSidecar { mp4_filename, srt } => {
                let mut m = text::joined("\"", mp4_filename.as_str());
                m.append("\" still needs its timestamps embedded, but the timestamp sidecar \"");
                m.append(srt.as_str());
                m.append("\" is gone, so they are lost.");
                m
            },
            Error::NoSuchRecording { mp4_filename } => {
                let mut m = text::joined("\"", mp4_filename.as_str());
                m.append(
                    "\": no such recording, and none of the files an interrupted one leaves behind are there either.",
                );
                m
            },
        }
    }
}

/// An error names the recording in full: the same error about different recordings
/// reads differently.
pub proof fn errors_tell_recordings_apart(a: String, b: String)
    ensures
        (Error::NoSuchRecording { mp4_filename: a }).text() == (Error::NoSuchRecording {
            mp4_filename: b,
        }).text() ==> a@ == b@,
        (Error::Mp4NotFinalized { mp4_filename: a }).text() == (Error::Mp4NotFinalized {
            mp4_filename: b,
        }).text() ==> a@ == b@,
{
    let x = (Error::NoSuchRecording { mp4_filename: a }).text();
    let y = (Error::NoSuchRecording { mp4_filename: b }).text();
    let tail =
        "\": no such recording, and none of the files an interrupted one leaves behind are there either."@;
    if x == y {
        assert(x.len() == y.len());
        assert(a@ =~= x.subrange("\""@.len() as int, x.len() - tail.len()));
        assert(b@ =~= y.subrange("\""@.len() as int, y.len() - tail.len()));
    }
    let x = (Error::Mp4NotFinalized { mp4_filename: a }).text();
    let y = (Error::Mp4NotFinalized { mp4_filename: b }).text();
    let tail =
        "\" was never finalized (it has no `moov` box), so its frames cannot be read. Either ffmpeg is still writing it, or ffmpeg itself was killed before it could write the index; in the latter case a tool such as `untrunc` may be able to rebuild it."@;
    if x == y {
        assert(x.len() == y.len());
        assert(a@ =~= x.subrange("\""@.len() as int, x.len() - tail.len()));
        assert(b@ =~= y.subrange("\""@.len() as int, y.len() - tail.len()));
    }
}

/// What another component reported is passed on whole, behind the name of where it came
/// from; a rewrite that fell short is told in numbers that read back, with its reason.
pub proof fn errors_pass_reports_on(
    e: String,
    mp4_filename: String,
    frames_written: usize,
    total_frames: usize,
) -> (numbers: (Seq<char>, Seq<char>))
    ensures
        Error::Io(e).text() == "IO error: "@ + e@,
        Error::FfmpegWriter(e).text() == "ffmpeg_writer "@ + e@,
        Error::Mp4WriterError(e).text() == "MP4 writer error: "@ + e@,
        Error::FrameSourceError(e).text() == "frame source error: "@ + e@,
        Error::SerdeJsonError(e).text() == "serde json error: "@ + e@,
        Error::GlobPatternError(e).text() == "glob pattern error: "@ + e@,
        Error::GlobError(e).text() == "glob error: "@ + e@,
        (Error::NoFramesRewritten { mp4_filename, reason: e }).text() == "\""@ + mp4_filename@
            + "\": no frame could be rewritten: "@ + e@,
        text::number_read(numbers.0) == frames_written,
        text::number_read(numbers.1) == total_frames,
        (Error::IncompleteRewrite { mp4_filename, frames_written, total_frames, reason: e }).text()
            == "the rewrite of \""@ + mp4_filename@ + "\" could cover only "@ + numbers.0 + " of "@
            + numbers.1 + " frames: "@ + e@,
{
    text::written_number_reads_back(frames_written as nat);
    text::written_number_reads_back(total_frames as nat);
    (text::decimal_text(frames_written as nat), text::decimal_text(total_frames as nat))
}

/// Errors that say what to do name every file concerned, and the rest say what is wrong.
pub proof fn errors_say_what_is_wrong(mp4_filename: String, rewritten: String, srt: String)
    ensures
        (Error::OriginalMissing { mp4_filename, rewritten }).text() == "\""@ + mp4_filename@
            + "\" is missing or empty, but the leftover \""@ + rewritten@
            + "\" of an interrupted rewrite is present. Inspect \""@ + rewritten@
            + "\" by hand: if it is complete, rename it to \""@ + mp4_filename@ + "\"."@,
        (Error::MissingSrtSidecar { mp4_filename, srt }).text() == "\""@ + mp4_filename@
            + "\" still needs its timestamps embedded, but the timestamp sidecar \""@ + srt@
            + "\" is gone, so they are lost."@,
        (Error::NoSuchRecording { mp4_filename }).text() == "\""@ + mp4_filename@
            + "\": no such recording, and none of the files an interrupted one leaves behind are there either."@,
        (Error::Mp4NotFinalized { mp4_filename }).text() == "\""@ + mp4_filename@
            + "\" was never finalized (it has no `moov` box), so its frames cannot be read. Either ffmpeg is still writing it, or ffmpeg itself was killed before it could write the index; in the latter case a tool such as `untrunc` may be able to rebuild it."@,
        Error::CannotReencode.text() == "cannot reencode"@,
        Error::FilenameDoesNotEndWithMp4.text() == "filename does not end with '.mp4'"@,
        Error::FilenameNotUnicode.text() == "filename not unicode"@,
        Error::SourceIsNotH264.text() == "source does not contain H264 video"@,
{
}

} // verus!
