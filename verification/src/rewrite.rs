//! The rewrite stage: copying a recording frame by frame, with each frame's
//! capture time, and telling how far that got.
//!
//! Reading and writing frames happens outside; what to write next, when to stop
//! and what to report is decided here.

use crate::clock;
use crate::clock::CaptureTime;
use crate::disk::Op;
use crate::error::Error;
use crate::sidecars::Sidecars;
use crate::text;
use vstd::prelude::*;

verus! {

/// How the capture times of a source fell short of its frames.
#[derive(Debug, Clone, Copy, PartialEq, Eq, Structural)]
pub struct SrtTruncation {
    /// Entries of the sidecar that could be used.
    pub usable_stanzas: usize,
    /// Frames the source has.
    pub total_frames: usize,
    /// Frames kept: whole groups of pictures only.
    pub kept_frames: usize,
    /// Line at which the sidecar stops making sense, if it does.
    pub malformed_at_line: Option<usize>,
}

/// Container timing of one sample: its decode duration, and the offset from
/// decoding it to showing it.
#[derive(Debug, Clone, Copy, PartialEq, Eq, Structural)]
pub struct SampleTiming {
    pub decode_secs: u64,
    pub decode_nanos: u32,
    pub offset_secs: i64,
    pub offset_nanos: i32,
}

/// What the source says of itself before its frames are read.
#[derive(Debug)]
pub struct SourceInfo {
    /// Capture time of the first frame.
    pub frame0_time: CaptureTime,
    /// Set when the sidecar has no capture time for some of the frames.
    pub srt_truncation: Option<SrtTruncation>,
    /// Container timing of each sample, where the source is an MP4.
    pub sample_timing: Option<Vec<SampleTiming>>,
}

/// A frame that was read.
#[derive(Debug, Clone, Copy, PartialEq, Eq, Structural)]
pub struct FrameRead {
    /// Its number in the source.
    pub idx: usize,
    /// Time since the first frame.
    pub since_secs: u64,
    /// Nanoseconds to be added to that.
    pub since_nanos: u32,
    /// It is H264 data.
    pub is_h264: bool,
}

/// What to do with a frame.
#[derive(Debug, Clone, Copy, PartialEq, Eq, Structural)]
pub enum FrameStep {
    /// Write it, stamped with this capture time: with this container timing, or,
    /// without one, timed by the capture time itself.
    Write { timestamp: CaptureTime, timing: Option<SampleTiming> },
    /// Stop copying; keep what has been written.
    Stop,
    /// Give up: the source does not hold H264 video. Nothing has been written.
    NotH264,
}

/// Result of the rewrite stage.
#[derive(Debug)]
pub struct RewriteOutcome {
    /// Number of frames written to the rewritten MP4.
    pub frames_written: usize,
    /// Number of frames the source MP4 contains.
    pub total_frames: usize,
    /// Set when `frames_written < total_frames`, explaining why. After a crash
    /// this is expected: the SRT sidecar is written one frame behind, so the
    /// frames of the group of pictures in progress at the time of the crash have
    /// no capture time and cannot be kept.
    pub truncated_reason: Option<String>,
}

impl Clone for RewriteOutcome {
    fn clone(&self) -> (copy: RewriteOutcome)
        ensures
            copy.frames_written == self.frames_written,
            copy.total_frames == self.total_frames,
            text_view(copy.truncated_reason) == text_view(self.truncated_reason),
    {
        RewriteOutcome {
            frames_written: self.frames_written,
            total_frames: self.total_frames,
            truncated_reason: match &self.truncated_reason {
                Some(reason) => Some(reason.as_str().to_owned()),
                None => None,
            },
        }
    }
}

/// How to end the rewrite stage.
#[derive(Debug)]
pub enum RewriteEnd {
    /// Finish the new MP4; this is what it holds.
    Finish(RewriteOutcome),
    /// Abandon the new MP4, delete it, and report this.
    Abandon { discard: Op, error: Error },
}

/// A rewrite in progress.
#[derive(Debug)]
pub struct Rewrite {
    frame0_time: CaptureTime,
    srt_reason: Option<String>,
    total_frames: Option<usize>,
    sample_timing: Option<Vec<SampleTiming>>,
    count: usize,
    loop_error: Option<String>,
    not_h264: bool,
}

/// What a rewrite in progress has come to.
pub ghost struct Progress {
    /// Capture time of the first frame.
    pub frame0_time: CaptureTime,
    /// Why the source was cut short before its frames were read.
    pub srt_reason: Option<Seq<char>>,
    /// How many frames the source has, where that is known beforehand.
    pub total_frames: Option<nat>,
    /// Container timing of each sample, where there is one.
    pub sample_timing: Option<Seq<SampleTiming>>,
    /// Frames written.
    pub count: nat,
    /// Why copying stopped early.
    pub loop_error: Option<Seq<char>>,
    /// Copying was given up because the source does not hold H264 video.
    pub not_h264: bool,
}

/// The view of an optional text.
pub open spec fn text_view(text: Option<String>) -> Option<Seq<char>> {
    match text {
        Some(t) => Some(t@),
        None => None,
    }
}

/// Why capture times are missing, told of the sidecar `srt`.
pub open spec fn truncation_text(srt: Seq<char>, t: SrtTruncation) -> Seq<char> {
    let kept = text::decimal_text(t.kept_frames as nat) + " (whole groups of pictures only)"@;
    match t.malformed_at_line {
        Some(line) => "the timestamp sidecar \""@ + srt + "\" is incomplete from line "@
            + text::decimal_text(line as nat) + " on (an interrupted write); "@
            + text::decimal_text(t.usable_stanzas as nat) + " of "@ + text::decimal_text(
            t.total_frames as nat,
        ) + " frames have a capture time, kept "@ + kept,
        None => "the timestamp sidecar \""@ + srt + "\" has capture times for only "@
            + text::decimal_text(t.usable_stanzas as nat) + " of "@ + text::decimal_text(
            t.total_frames as nat,
        ) + " frames, kept "@ + kept,
    }
}

fn truncation_reason(srt: &str, t: &SrtTruncation) -> (reason: String)
    ensures
        reason@ == truncation_text(srt@, *t),
{
    let mut kept = text::decimal(t.kept_frames as u64);
    kept.append(" (whole groups of pictures only)");
    let mut reason = "the timestamp sidecar \"".to_owned();
    reason.append(srt);
    match t.malformed_at_line {
        Some(line) => {
            reason.append("\" is incomplete from line ");
            reason.append(text::decimal(line as u64).as_str());
            reason.append(" on (an interrupted write); ");
            reason.append(text::decimal(t.usable_stanzas as u64).as_str());
            reason.append(" of ");
            reason.append(text::decimal(t.total_frames as u64).as_str());
            reason.append(" frames have a capture time, kept ");
            reason.append(kept.as_str());
        },
        None => {
            reason.append("\" has capture times for only ");
            reason.append(text::decimal(t.usable_stanzas as u64).as_str());
            reason.append(" of ");
            reason.append(text::decimal(t.total_frames as u64).as_str());
            reason.append(" frames, kept ");
            reason.append(kept.as_str());
        },
    }
    reason
}

/// Where a rewrite from this source, with capture times from the sidecar `srt`,
/// starts.
pub open spec fn started(srt: Seq<char>, source: SourceInfo) -> Progress {
    Progress {
        frame0_time: source.frame0_time,
        srt_reason: match source.srt_truncation {
            Some(t) => Some(truncation_text(srt, t)),
            None => None,
        },
        total_frames: match (source.srt_truncation, source.sample_timing) {
            (Some(t), _) => Some(t.total_frames as nat),
            (None, Some(list)) => Some(list@.len()),
            (None, None) => None,
        },
        sample_timing: match source.sample_timing {
            Some(list) => Some(list@),
            None => None,
        },
        count: 0,
        loop_error: None,
        not_h264: false,
    }
}

/// The capture time of a frame, in nanoseconds since the epoch.
pub open spec fn frame_time(p: Progress, frame: FrameRead) -> int {
    p.frame0_time.ns() + frame.since_secs * 1_000_000_000 + frame.since_nanos
}

/// The container timing of frame `idx`, where the source has one.
pub open spec fn timing_of(p: Progress, idx: int) -> Option<SampleTiming> {
    match p.sample_timing {
        Some(list) => if 0 <= idx < list.len() {
            Some(list[idx])
        } else {
            None
        },
        None => None,
    }
}

/// Copying has ended.
pub open spec fn has_stopped(p: Progress) -> bool {
    p.loop_error is Some || p.not_h264
}

/// The progress once reading the next frame has failed.
pub open spec fn after_unread(p: Progress, error: Seq<char>) -> Progress {
    Progress {
        loop_error: Some(
            "frame "@ + text::decimal_text(p.count) + " could not be read: "@ + error,
        ),
        ..p
    }
}

/// The progress once frame `idx` was found not to be H264 video: given up if nothing
/// has been written, and otherwise ended, like by any other frame that cannot be
/// written.
pub open spec fn after_other_video(p: Progress, idx: nat) -> Progress {
    if p.count == 0 {
        Progress { not_h264: true, ..p }
    } else {
        after_write(p, idx, Err("source does not contain H264 video"@))
    }
}

/// `step` is what to do with the next frame, or with the reason why it could not be
/// read, and `after` the progress then.
pub open spec fn frame_taken(
    before: Progress,
    frame: Result<FrameRead, Seq<char>>,
    step: FrameStep,
    after: Progress,
) -> bool {
    match frame {
        Err(error) => step == FrameStep::Stop && after == after_unread(before, error),
        Ok(f) => if f.is_h264 {
            &&& step matches FrameStep::Write { timestamp, timing }
            &&& timestamp.wf()
            &&& timestamp.ns() == frame_time(before, f)
            &&& timing == timing_of(before, f.idx as int)
            &&& after == before
        } else {
            after == after_other_video(before, f.idx as nat) && step == if before.count == 0 {
                FrameStep::NotH264
            } else {
                FrameStep::Stop
            }
        },
    }
}

/// The progress once frame `idx` has been written, or could not be.
pub open spec fn after_write(p: Progress, idx: nat, written: Result<(), Seq<char>>) -> Progress {
    match written {
        Ok(_) => Progress { count: p.count + 1, ..p },
        Err(error) => Progress {
            loop_error: Some(
                "frame "@ + text::decimal_text(idx) + " could not be written: "@ + error,
            ),
            ..p
        },
    }
}

/// Why the rewritten file falls short, if it does.
pub open spec fn shortfall(p: Progress) -> Option<Seq<char>> {
    match (p.srt_reason, p.loop_error) {
        (Some(srt), Some(copying)) => Some(srt + "; "@ + copying),
        (Some(reason), None) => Some(reason),
        (None, Some(reason)) => Some(reason),
        (None, None) => None,
    }
}

/// Why not a single frame was written.
pub open spec fn why_nothing(p: Progress) -> Seq<char> {
    match (p.loop_error, p.srt_reason) {
        (Some(reason), _) => reason,
        (None, Some(reason)) => reason,
        (None, None) => "the source has no frames"@,
    }
}

/// The rewrite holds this.
pub open spec fn is_outcome(outcome: RewriteOutcome, p: Progress) -> bool {
    &&& outcome.frames_written == p.count
    &&& outcome.total_frames == match p.total_frames {
        Some(n) => n,
        None => p.count,
    }
    &&& text_view(outcome.truncated_reason) == shortfall(p)
}

impl Rewrite {
    /// What the rewrite has come to.
    pub closed spec fn progress(self) -> Progress {
        Progress {
            frame0_time: self.frame0_time,
            srt_reason: text_view(self.srt_reason),
            total_frames: match self.total_frames {
                Some(n) => Some(n as nat),
                None => None,
            },
            sample_timing: match self.sample_timing {
                Some(list) => Some(list@),
                None => None,
            },
            count: self.count as nat,
            loop_error: text_view(self.loop_error),
            not_h264: self.not_h264,
        }
    }

    /// Starts a rewrite from `source`.
    ///
    /// The source is cut to the whole groups of pictures that have capture times,
    /// so a shortfall of the sidecar is known up front rather than discovered while
    /// copying. How many frames there are is only known up front for a source with
    /// container timing; otherwise it is however many get written.
    pub fn begin(files: &Sidecars, source: SourceInfo) -> (rewrite: Rewrite)
        ensures
            rewrite.progress() == started(files.srt@, source),
    {
        let srt_reason = match &source.srt_truncation {
            Some(t) => Some(truncation_reason(files.srt.as_str(), t)),
            None => None,
        };
        let total_frames: Option<usize> = match (&source.srt_truncation, &source.sample_timing) {
            (Some(t), _) => Some(t.total_frames),
            (None, Some(list)) => Some(list.len()),
            (None, None) => None,
        };
        Rewrite {
            frame0_time: source.frame0_time,
            srt_reason,
            total_frames,
            sample_timing: source.sample_timing,
            count: 0,
            loop_error: None,
            not_h264: false,
        }
    }

    /// Takes the next frame, or the reason why it could not be read, and says what
    /// to do with it.
    ///
    /// A frame that cannot be read, or that is not H264 video, ends the copy rather
    /// than discarding the frames already written. Container timing is passed on as it is: that keeps reordered
    /// streams correct, while the precise capture time is carried by the frame.
    pub fn take_frame(&mut self, frame: Result<FrameRead, String>) -> (step: FrameStep)
        requires
            frame matches Ok(f) ==> old(self).progress().frame0_time.wf() && f.since_nanos
                < clock::NS_PER_SEC && clock::in_calendar(frame_time(old(self).progress(), f)),
        ensures
            frame_taken(
                old(self).progress(),
                match frame {
                    Ok(f) => Ok::<FrameRead, Seq<char>>(f),
                    Err(e) => Err::<FrameRead, Seq<char>>(e@),
                },
                step,
                final(self).progress(),
            ),
    {
        match frame {
            Err(e) => {
                let mut reason = "frame ".to_owned();
                reason.append(text::decimal(self.count as u64).as_str());
                reason.append(" could not be read: ");
                reason.append(e.as_str());
                self.loop_error = Some(reason);
                FrameStep::Stop
            },
            Ok(f) => {
                if !f.is_h264 {
                    if self.count == 0 {
                        self.not_h264 = true;
                        return FrameStep::NotH264;
                    }
                    self.stop_unwritten(f.idx, "source does not contain H264 video");
                    return FrameStep::Stop;
                }
                let timing: Option<SampleTiming> = match &self.sample_timing {
                    Some(list) => if f.idx < list.len() {
                        Some(list[f.idx])
                    } else {
                        None
                    },
                    None => None,
                };
                match self.frame0_time.after_duration(f.since_secs, f.since_nanos) {
                    Some(timestamp) => FrameStep::Write { timestamp, timing },
                    None => FrameStep::Stop,
                }
            },
        }
    }

    /// Takes note of whether frame `idx` was written. Copying goes on only if it
    /// was.
    pub fn take_written(&mut self, idx: usize, written: Result<(), String>) -> (goes_on: bool)
        requires
            old(self).progress().count < usize::MAX,
        ensures
            goes_on == (written is Ok),
            final(self).progress() == after_write(
                old(self).progress(),
                idx as nat,
                match written {
                    Ok(_) => Ok::<(), Seq<char>>(()),
                    Err(e) => Err::<(), Seq<char>>(e@),
                },
            ),
    {
        match written {
            Ok(_) => {
                self.count = self.count + 1;
                true
            },
            Err(e) => {
                self.stop_unwritten(idx, e.as_str());
                false
            },
        }
    }

    /// Ends copying at frame `idx`, which could not be written.
    fn stop_unwritten(&mut self, idx: usize, error: &str)
        ensures
            final(self).progress() == after_write(
                old(self).progress(),
                idx as nat,
                Err(error@),
            ),
    {
        let mut reason = "frame ".to_owned();
        reason.append(text::decimal(idx as u64).as_str());
        reason.append(" could not be written: ");
        reason.append(error);
        self.loop_error = Some(reason);
    }

    /// Ends the rewrite. Only failing before any frame could be written is an error,
    /// and then no output is left behind.
    pub fn end(self, files: &Sidecars) -> (end: RewriteEnd)
        ensures
            self.progress().count > 0 ==> (end matches RewriteEnd::Finish(outcome) && is_outcome(
                outcome,
                self.progress(),
            )),
            self.progress().count == 0 ==> {
                &&& end matches RewriteEnd::Abandon { discard, error }
                &&& discard matches Op::RemoveIfPresent { path }
                &&& path@ == files.rewritten@
                &&& if self.progress().not_h264 {
                    error == Error::SourceIsNotH264
                } else {
                    error matches Error::NoFramesRewritten { mp4_filename, reason }
                        && mp4_filename@ == files.mp4@ && reason@ == why_nothing(self.progress())
                }
            },
    {
        let discard = Op::RemoveIfPresent { path: files.rewritten.as_str().to_owned() };
        if self.count == 0 && self.not_h264 {
            return RewriteEnd::Abandon { discard, error: Error::SourceIsNotH264 };
        }
        if self.count == 0 {
            let reason = match (self.loop_error, self.srt_reason) {
                (Some(reason), _) => reason,
                (None, Some(reason)) => reason,
                (None, None) => "the source has no frames".to_owned(),
            };
            let mp4_filename = files.mp4.as_str().to_owned();
            return RewriteEnd::Abandon {
                discard,
                error: Error::NoFramesRewritten { mp4_filename, reason },
            };
        }
        let truncated_reason = match (self.srt_reason, self.loop_error) {
            (Some(srt), Some(copying)) => {
                let mut reason = srt;
                reason.append("; ");
                reason.append(copying.as_str());
                Some(reason)
            },
            (Some(reason), None) => Some(reason),
            (None, Some(reason)) => Some(reason),
            (None, None) => None,
        };
        let total_frames: usize = match self.total_frames {
            Some(n) => n,
            None => self.count,
        };
        RewriteEnd::Finish(
            RewriteOutcome { frames_written: self.count, total_frames, truncated_reason },
        )
    }
}

/// What came of one frame of the source.
pub ghost enum Attempt {
    /// It was read and written.
    Written { idx: nat },
    /// It could not be read.
    Unread { error: Seq<char> },
    /// It was read but could not be written.
    Unwritten { idx: nat, error: Seq<char> },
    /// It was read and was not H264 data.
    NotH264 { idx: nat },
}

/// The progress after one more frame. Nothing changes once copying has ended.
pub open spec fn after_attempt(p: Progress, attempt: Attempt) -> Progress {
    if has_stopped(p) {
        p
    } else {
        match attempt {
            Attempt::Written { idx } => after_write(p, idx, Ok(())),
            Attempt::Unread { error } => after_unread(p, error),
            Attempt::Unwritten { idx, error } => after_write(p, idx, Err(error)),
            Attempt::NotH264 { idx } => after_other_video(p, idx),
        }
    }
}

/// The progress after a run of frames.
pub open spec fn after_attempts(p: Progress, attempts: Seq<Attempt>) -> Progress
    decreases attempts.len(),
{
    if attempts.len() == 0 {
        p
    } else {
        after_attempt(after_attempts(p, attempts.drop_last()), attempts.last())
    }
}

/// The first `n` frames were all written.
pub open spec fn all_written(attempts: Seq<Attempt>, n: int) -> bool {
    forall|i: int| 0 <= i < n ==> (#[trigger] attempts[i]) is Written
}

/// The frames written are those before the first that failed: copying keeps them
/// and stops there.
pub proof fn written_up_to_the_first_failure(p: Progress, attempts: Seq<Attempt>)
    requires
        !has_stopped(p),
    ensures
        ({
            let n = after_attempts(p, attempts).count - p.count;
            &&& 0 <= n <= attempts.len()
            &&& all_written(attempts, n)
            &&& n < attempts.len() ==> attempts[n] !is Written
            &&& has_stopped(after_attempts(p, attempts)) <==> n < attempts.len()
        }),
        after_attempts(p, attempts).srt_reason == p.srt_reason,
        after_attempts(p, attempts).total_frames == p.total_frames,
        after_attempts(p, attempts).sample_timing == p.sample_timing,
        after_attempts(p, attempts).frame0_time == p.frame0_time,
        after_attempts(p, attempts).not_h264 ==> after_attempts(p, attempts).count == 0,
    decreases attempts.len(),
{
    if attempts.len() > 0 {
        let earlier = attempts.drop_last();
        written_up_to_the_first_failure(p, earlier);
        let k = after_attempts(p, earlier).count - p.count;
        assert forall|i: int| 0 <= i < k implies (#[trigger] attempts[i]) is Written by {
            assert(earlier[i] == attempts[i]);
        }
        if k < earlier.len() {
            assert(earlier[k] == attempts[k]);
        }
    }
}

/// A rewrite without a shortfall to report has written every frame, and one that
/// has written every frame of a source with a capture time for each reports none.
pub proof fn complete_rewrite_reports_no_shortfall(
    srt: Seq<char>,
    source: SourceInfo,
    attempts: Seq<Attempt>,
    outcome: RewriteOutcome,
)
    requires
        is_outcome(outcome, after_attempts(started(srt, source), attempts)),
        outcome.frames_written > 0,
    ensures
        outcome.truncated_reason is None <==> source.srt_truncation is None && all_written(
            attempts,
            attempts.len() as int,
        ),
        outcome.truncated_reason is None ==> outcome.frames_written == attempts.len(),
{
    let p = started(srt, source);
    written_up_to_the_first_failure(p, attempts);
}

/// Frames are never lost silently: where fewer frames were written than the source
/// has, a reason is reported. (The source hands out every frame it lists, unless
/// copying stops before.)
pub proof fn lost_frames_are_explained(
    srt: Seq<char>,
    source: SourceInfo,
    attempts: Seq<Attempt>,
    outcome: RewriteOutcome,
)
    requires
        is_outcome(outcome, after_attempts(started(srt, source), attempts)),
        outcome.frames_written > 0,
        source.sample_timing matches Some(list) ==> source.srt_truncation is None
            && after_attempts(started(srt, source), attempts).loop_error is None ==> attempts.len()
            >= list@.len(),
    ensures
        outcome.frames_written < outcome.total_frames ==> outcome.truncated_reason is Some,
{
    let p = started(srt, source);
    written_up_to_the_first_failure(p, attempts);
}

/// What is done with a frame depends on the progress and the frame alone: two
/// rewrites that have come equally far, given the same frame, take the same step
/// and come equally far again.
pub proof fn same_frame_same_step(
    before: Progress,
    frame: Result<FrameRead, Seq<char>>,
    step_a: FrameStep,
    after_a: Progress,
    step_b: FrameStep,
    after_b: Progress,
)
    requires
        frame_taken(before, frame, step_a, after_a),
        frame_taken(before, frame, step_b, after_b),
    ensures
        step_a == step_b,
        after_a == after_b,
{
}

/// The progress once `n` more frames have been written.
pub open spec fn after_written(p: Progress, n: nat) -> Progress {
    Progress { count: p.count + n, ..p }
}

/// The rewrite that started as `p` took `frames` one after the other, was told to do
/// `steps` with them, and wrote every one.
pub open spec fn copies(p: Progress, frames: Seq<FrameRead>, steps: Seq<FrameStep>) -> bool {
    &&& steps.len() == frames.len()
    &&& forall|i: int|
        0 <= i < frames.len() ==> frames[i].is_h264 && frame_taken(
            after_written(p, i as nat),
            Ok(#[trigger] frames[i]),
            #[trigger] steps[i],
            after_written(p, i as nat),
        )
}

/// Writing frame after frame leads where [`after_written`] says.
pub proof fn written_frames_are_counted(p: Progress, attempts: Seq<Attempt>)
    requires
        !has_stopped(p),
        all_written(attempts, attempts.len() as int),
    ensures
        after_attempts(p, attempts) == after_written(p, attempts.len()),
    decreases attempts.len(),
{
    if attempts.len() > 0 {
        let earlier = attempts.drop_last();
        assert forall|i: int| 0 <= i < earlier.len() implies (#[trigger] earlier[i]) is Written by {
            assert(earlier[i] == attempts[i]);
        }
        written_frames_are_counted(p, earlier);
        assert(attempts[attempts.len() - 1] is Written);
    }
}

/// Two rewrites of the same frames from the same start write the same samples: each
/// with the same capture time and the same container timing.
pub proof fn same_source_same_samples(
    p: Progress,
    frames: Seq<FrameRead>,
    steps_a: Seq<FrameStep>,
    steps_b: Seq<FrameStep>,
)
    requires
        copies(p, frames, steps_a),
        copies(p, frames, steps_b),
    ensures
        steps_a == steps_b,
{
    assert forall|i: int| 0 <= i < frames.len() implies steps_a[i] == steps_b[i] by {
        let now = after_written(p, i as nat);
        let frame: Result<FrameRead, Seq<char>> = Ok(frames[i]);
        assert(frame_taken(now, frame, steps_a[i], now));
        assert(frame_taken(now, frame, steps_b[i], now));
        same_frame_same_step(now, frame, steps_a[i], now, steps_b[i], now);
    }
    assert(steps_a =~= steps_b);
}

impl SampleTiming {
    /// How long the sample takes to decode, nanoseconds.
    pub open spec fn decode_ns(self) -> int {
        self.decode_secs * 1_000_000_000 + self.decode_nanos
    }

    /// How long after it is decoded the sample is shown, nanoseconds.
    pub open spec fn offset_ns(self) -> int {
        self.offset_secs * 1_000_000_000 + self.offset_nanos
    }
}

/// When sample `i` is decoded: after all those before it.
pub open spec fn decoded_at(list: Seq<SampleTiming>, i: int) -> int
    decreases i,
{
    if i <= 0 {
        0
    } else {
        decoded_at(list, i - 1) + list[i - 1].decode_ns()
    }
}

/// When sample `i` is shown.
pub open spec fn shown_at(list: Seq<SampleTiming>, i: int) -> int {
    decoded_at(list, i) + list[i].offset_ns()
}

/// The container timing that the samples are written with.
pub open spec fn written_timing(steps: Seq<FrameStep>) -> Seq<SampleTiming> {
    steps.map_values(|s: FrameStep| s->timing->0)
}

/// The capture time that sample `i` is written with, nanoseconds since the epoch.
pub open spec fn written_time(steps: Seq<FrameStep>, i: int) -> int {
    (steps[i]->timestamp).ns()
}

/// Time between the capture of the first frame and of this one, nanoseconds.
pub open spec fn since_first(frame: FrameRead) -> int {
    frame.since_secs * 1_000_000_000 + frame.since_nanos
}

proof fn lemma_decoded_alike(a: Seq<SampleTiming>, b: Seq<SampleTiming>, i: int)
    requires
        0 <= i <= a.len(),
        a.len() <= b.len(),
        forall|j: int| 0 <= j < a.len() ==> a[j] == b[j],
    ensures
        decoded_at(a, i) == decoded_at(b, i),
    decreases i,
{
    if i > 0 {
        lemma_decoded_alike(a, b, i - 1);
    }
}

/// A rewrite keeps when every sample is shown, and gives every sample the capture
/// time of its own frame.
pub proof fn rewrite_keeps_timing_and_capture_times(
    srt: Seq<char>,
    source: SourceInfo,
    frames: Seq<FrameRead>,
    steps: Seq<FrameStep>,
    i: int,
)
    requires
        source.sample_timing matches Some(list) && frames.len() <= list@.len(),
        forall|j: int| 0 <= j < frames.len() ==> (#[trigger] frames[j]).idx == j,
        copies(started(srt, source), frames, steps),
        0 <= i < frames.len(),
    ensures
        written_timing(steps)[i] == source.sample_timing->0@[i],
        shown_at(written_timing(steps), i) == shown_at(source.sample_timing->0@, i),
        written_time(steps, i) == source.frame0_time.ns() + since_first(frames[i]),
{
    let list = source.sample_timing->0@;
    assert forall|j: int| 0 <= j < steps.len() implies written_timing(steps)[j] == list[j] by {
        let frame = frames[j];
        assert(frame_taken(
            after_written(started(srt, source), j as nat),
            Ok(frame),
            steps[j],
            after_written(started(srt, source), j as nat),
        ));
        assert(frame.idx == j);
    }
    lemma_decoded_alike(written_timing(steps), list, i);
    assert(frame_taken(
        after_written(started(srt, source), i as nat),
        Ok(frames[i]),
        steps[i],
        after_written(started(srt, source), i as nat),
    ));
}

/// Where the source is shown in the order it was captured, so is the rewrite, samples
/// decoded out of that order included.
pub proof fn shown_in_capture_order(
    srt: Seq<char>,
    source: SourceInfo,
    frames: Seq<FrameRead>,
    steps: Seq<FrameStep>,
    i: int,
    j: int,
)
    requires
        source.sample_timing matches Some(list) && frames.len() <= list@.len(),
        forall|k: int| 0 <= k < frames.len() ==> (#[trigger] frames[k]).idx == k,
        copies(started(srt, source), frames, steps),
        0 <= i < frames.len(),
        0 <= j < frames.len(),
        shown_at(source.sample_timing->0@, i) < shown_at(source.sample_timing->0@, j)
            <==> since_first(frames[i]) < since_first(frames[j]),
    ensures
        shown_at(written_timing(steps), i) < shown_at(written_timing(steps), j) <==> written_time(
            steps,
            i,
        ) < written_time(steps, j),
{
    rewrite_keeps_timing_and_capture_times(srt, source, frames, steps, i);
    rewrite_keeps_timing_and_capture_times(srt, source, frames, steps, j);
}

/// A recording that was shown in capture order stays one that is: `shown` lists its
/// samples as they are shown, and `captured` the time of each since the first. Rewritten,
/// the samples are shown in that very order, each with the time it was captured at.
pub proof fn shown_with_the_recorded_times(
    srt: Seq<char>,
    source: SourceInfo,
    frames: Seq<FrameRead>,
    steps: Seq<FrameStep>,
    shown: Seq<int>,
    captured: Seq<int>,
)
    requires
        source.sample_timing matches Some(list) && frames.len() <= list@.len(),
        forall|k: int| 0 <= k < frames.len() ==> (#[trigger] frames[k]).idx == k,
        copies(started(srt, source), frames, steps),
        shown.len() == captured.len(),
        forall|k: int| 0 <= k < shown.len() ==> 0 <= #[trigger] shown[k] < frames.len(),
        forall|k: int|
            0 <= k < shown.len() ==> since_first(frames[#[trigger] shown[k]]) == captured[k],
        forall|k: int, m: int|
            0 <= k < m < shown.len() ==> shown_at(source.sample_timing->0@, #[trigger] shown[k])
                < shown_at(source.sample_timing->0@, #[trigger] shown[m]),
    ensures
        forall|k: int|
            0 <= k < shown.len() ==> written_time(steps, #[trigger] shown[k])
                == source.frame0_time.ns() + captured[k],
        forall|k: int, m: int|
            0 <= k < m < shown.len() ==> shown_at(written_timing(steps), #[trigger] shown[k])
                < shown_at(written_timing(steps), #[trigger] shown[m]),
{
    assert forall|i: int| 0 <= i < frames.len() implies {
        &&& #[trigger] shown_at(written_timing(steps), i) == shown_at(
            source.sample_timing->0@,
            i,
        )
        &&& written_time(steps, i) == source.frame0_time.ns() + since_first(frames[i])
    } by {
        rewrite_keeps_timing_and_capture_times(srt, source, frames, steps, i);
    }
    assert forall|k: int| 0 <= k < shown.len() implies written_time(steps, #[trigger] shown[k])
        == source.frame0_time.ns() + captured[k] by {
        assert(shown_at(written_timing(steps), shown[k]) == shown_at(
            source.sample_timing->0@,
            shown[k],
        ));
    }
}

/// A rewrite starts with nothing written and nothing gone wrong. The number of frames is
/// what the shortfall of the sidecar says, or else the number of samples with container
/// timing, or else unknown.
pub proof fn a_rewrite_starts_with_what_the_source_says(srt: Seq<char>, source: SourceInfo)
    ensures
        ({
            let p = started(srt, source);
            &&& p.count == 0
            &&& p.loop_error is None
            &&& !p.not_h264
            &&& p.frame0_time == source.frame0_time
            &&& p.srt_reason is Some <==> source.srt_truncation is Some
            &&& source.srt_truncation matches Some(t) ==> p.total_frames == Some(
                t.total_frames as nat,
            )
            &&& source.srt_truncation is None ==> (source.sample_timing matches Some(list)
                ==> p.total_frames == Some(list@.len()))
            &&& source.srt_truncation is None && source.sample_timing is None ==> p.total_frames
                is None
            &&& source.sample_timing matches Some(list) ==> p.sample_timing == Some(list@)
            &&& source.sample_timing is None ==> p.sample_timing is None
        }),
{
}

/// A shortfall of the sidecar is told with its name and three numbers, each of which
/// reads back: the entries that can be used, the frames there are and the frames kept;
/// and with the line from which on the sidecar makes no sense, if it does not.
pub proof fn shortfall_is_told_in_numbers(srt: Seq<char>, t: SrtTruncation) -> (numbers: (
    Seq<char>,
    Seq<char>,
    Seq<char>,
    Seq<char>,
))
    ensures
        text::number_read(numbers.0) == t.usable_stanzas,
        text::number_read(numbers.1) == t.total_frames,
        text::number_read(numbers.2) == t.kept_frames,
        t.malformed_at_line is None ==> truncation_text(srt, t) == "the timestamp sidecar \""@ + srt
            + "\" has capture times for only "@ + numbers.0 + " of "@ + numbers.1
            + " frames, kept "@ + numbers.2 + " (whole groups of pictures only)"@,
        t.malformed_at_line matches Some(line) ==> text::number_read(numbers.3) == line
            && truncation_text(srt, t) == "the timestamp sidecar \""@ + srt
            + "\" is incomplete from line "@ + numbers.3 + " on (an interrupted write); "@
            + numbers.0 + " of "@ + numbers.1 + " frames have a capture time, kept "@ + numbers.2
            + " (whole groups of pictures only)"@,
{
    text::written_number_reads_back(t.usable_stanzas as nat);
    text::written_number_reads_back(t.total_frames as nat);
    text::written_number_reads_back(t.kept_frames as nat);
    let a = text::decimal_text(t.usable_stanzas as nat);
    let b = text::decimal_text(t.total_frames as nat);
    let c = text::decimal_text(t.kept_frames as nat);
    let d = match t.malformed_at_line {
        Some(line) => text::decimal_text(line as nat),
        None => seq![],
    };
    if let Some(line) = t.malformed_at_line {
        text::written_number_reads_back(line as nat);
        assert(truncation_text(srt, t) =~= "the timestamp sidecar \""@ + srt
            + "\" is incomplete from line "@ + d + " on (an interrupted write); "@ + a + " of "@ + b
            + " frames have a capture time, kept "@ + c + " (whole groups of pictures only)"@);
    } else {
        assert(truncation_text(srt, t) =~= "the timestamp sidecar \""@ + srt
            + "\" has capture times for only "@ + a + " of "@ + b + " frames, kept "@ + c
            + " (whole groups of pictures only)"@);
    }
    (a, b, c, d)
}

/// Every H264 frame is written with its own capture time, that of the first frame plus
/// the time since, to the nanosecond, and with the container timing that the source has
/// under its number, if it has any. Nothing else of the rewrite changes.
pub proof fn a_frame_is_written_with_its_own_time_and_timing(
    before: Progress,
    frame: FrameRead,
    step: FrameStep,
    after: Progress,
)
    requires
        frame_taken(before, Ok(frame), step, after),
        frame.is_h264,
    ensures
        step is Write,
        step->timestamp.secs * 1_000_000_000 + step->timestamp.subsec_ns
            == before.frame0_time.secs * 1_000_000_000 + before.frame0_time.subsec_ns
            + frame.since_secs * 1_000_000_000 + frame.since_nanos,
        step->timestamp.subsec_ns < 1_000_000_000,
        before.sample_timing matches Some(list) ==> frame.idx < list.len() ==> step->timing == Some(
            list[frame.idx as int],
        ),
        before.sample_timing matches Some(list) ==> frame.idx >= list.len() ==> step->timing
            is None,
        before.sample_timing is None ==> step->timing is None,
        after == before,
{
}

/// What cannot be copied ends the copy and is told: a frame that could not be read with
/// the number of frames written so far, one that is not H264 video with its own number.
/// Only as the very first does such a frame make the rewrite give up.
pub proof fn what_cannot_be_copied_ends_the_copy(
    before: Progress,
    frame: Result<FrameRead, Seq<char>>,
    step: FrameStep,
    after: Progress,
) -> (number: Seq<char>)
    requires
        frame_taken(before, frame, step, after),
        frame matches Ok(f) ==> !f.is_h264,
    ensures
        after.count == before.count,
        after.srt_reason == before.srt_reason,
        after.total_frames == before.total_frames,
        frame matches Err(error) ==> step == FrameStep::Stop && text::number_read(number)
            == before.count && after.loop_error == Some(
            "frame "@ + number + " could not be read: "@ + error,
        ),
        frame matches Ok(f) ==> before.count > 0 ==> step == FrameStep::Stop && text::number_read(
            number,
        ) == f.idx && after.loop_error == Some(
            "frame "@ + number + " could not be written: source does not contain H264 video"@,
        ),
        frame is Ok && before.count == 0 ==> step == FrameStep::NotH264 && after.not_h264,
{
    match frame {
        Err(error) => {
            text::written_number_reads_back(before.count);
            text::decimal_text(before.count)
        },
        Ok(f) => {
            text::written_number_reads_back(f.idx as nat);
            let number = text::decimal_text(f.idx as nat);
            reveal_strlit(" could not be written: ");
            reveal_strlit("source does not contain H264 video");
            reveal_strlit(" could not be written: source does not contain H264 video");
            assert(" could not be written: "@ + "source does not contain H264 video"@
                =~= " could not be written: source does not contain H264 video"@);
            assert("frame "@ + number + " could not be written: "@
                + "source does not contain H264 video"@ =~= "frame "@ + number
                + (" could not be written: "@ + "source does not contain H264 video"@));
            number
        },
    }
}

/// A written frame counts as one more; one that could not be written ends the copy, is
/// told with its number, and takes nothing back.
pub proof fn a_write_counts_or_ends_the_copy(
    p: Progress,
    idx: nat,
    written: Result<(), Seq<char>>,
) -> (number: Seq<char>)
    ensures
        written is Ok ==> after_write(p, idx, written).count == p.count + 1 && after_write(
            p,
            idx,
            written,
        ).loop_error == p.loop_error,
        written matches Err(error) ==> after_write(p, idx, written).count == p.count
            && text::number_read(number) == idx && after_write(p, idx, written).loop_error == Some(
            "frame "@ + number + " could not be written: "@ + error,
        ),
        after_write(p, idx, written).srt_reason == p.srt_reason,
        after_write(p, idx, written).total_frames == p.total_frames,
        after_write(p, idx, written).sample_timing == p.sample_timing,
        after_write(p, idx, written).frame0_time == p.frame0_time,
{
    text::written_number_reads_back(idx);
    text::decimal_text(idx)
}

/// The outcome says how many frames were written and how many there were, and tells
/// every reason there was to write fewer, the sidecar's first.
pub proof fn the_outcome_tells_every_reason(outcome: RewriteOutcome, p: Progress)
    requires
        is_outcome(outcome, p),
    ensures
        outcome.frames_written == p.count,
        p.total_frames matches Some(n) ==> outcome.total_frames == n,
        p.total_frames is None ==> outcome.total_frames == p.count,
        outcome.truncated_reason is None <==> p.srt_reason is None && p.loop_error is None,
        p.srt_reason is Some && p.loop_error is Some ==> (outcome.truncated_reason->0)@
            == p.srt_reason->0 + "; "@ + p.loop_error->0,
        p.srt_reason is Some && p.loop_error is None ==> (outcome.truncated_reason->0)@
            == p.srt_reason->0,
        p.srt_reason is None && p.loop_error is Some ==> (outcome.truncated_reason->0)@
            == p.loop_error->0,
{
}

/// Where nothing was written, the reason is why copying ended, or else what the sidecar
/// lacks, or else that there was nothing.
pub proof fn nothing_written_has_one_reason(p: Progress)
    ensures
        p.loop_error matches Some(b) ==> why_nothing(p) == b,
        p.loop_error is None ==> (p.srt_reason matches Some(a) ==> why_nothing(p) == a),
        p.loop_error is None && p.srt_reason is None ==> why_nothing(p)
            == "the source has no frames"@,
{
}

} // verus!
