use media_utils::clock::CaptureTime;
use media_utils::disk::Op;
use media_utils::doctor::{check_line, describe, fix_line};
use media_utils::error::Error;
use media_utils::inspect::{has_precision_timestamps, inspect, Inspection, Opened, Seen, State};
use media_utils::boxes::is_mp4_finalized;
use media_utils::paths::{find_interrupted, PathStyle};
use media_utils::repair::{
    read_metadata_sidecar, repair, FfmpegReWriter, FileRead, Repair, RepairEvent, RepairStep,
    StartStep,
};
use media_utils::rewrite::{
    FrameRead, FrameStep, Rewrite, RewriteEnd, RewriteOutcome, SampleTiming, SourceInfo,
    SrtTruncation,
};
use media_utils::sidecars::Sidecars;
use std::collections::BTreeMap;

const CRASH_TEST_FRAMES: usize = 24;
const CRASH_TEST_GOP: usize = 4;

fn crash_test_mp4() -> String {
    "/rec/crashed.mp4".to_string()
}

/// What a file of the simulated disk holds.
#[derive(Clone, PartialEq, Debug)]
enum Data {
    /// Bytes of no further interest.
    Bytes(&'static str),
    /// A finalized MP4 with the capture times written into its frames, if any.
    Video { frames: usize, times: Option<Vec<CaptureTime>> },
    /// An MP4 as bytes.
    Mp4(Vec<u8>),
}

type Files = BTreeMap<String, Data>;

fn perform(files: &mut Files, ops: Vec<Op>) {
    for op in ops {
        match op {
            Op::Rename { from, to } => {
                let data = files.remove(&from).expect("renamed file exists");
                files.insert(to, data);
            }
            Op::Remove { path } => {
                files.remove(&path).expect("removed file exists");
            }
            Op::RemoveIfPresent { path } => {
                files.remove(&path);
            }
        }
    }
}

fn open_recording(data: &Data) -> Opened {
    match data {
        Data::Video { times: Some(_), .. } => Opened::Readable,
        Data::Video { times: None, .. } => Opened::NoTimestamps,
        Data::Mp4(bytes) => Opened::Unreadable {
            error: "cannot parse".to_string(),
            finalized: is_mp4_finalized(bytes).map_err(|e| e.message()),
        },
        Data::Bytes(_) => Opened::Unreadable {
            error: "not an MP4".to_string(),
            finalized: Ok(true),
        },
    }
}

fn look_at(files: &Files, mp4: &str) -> Result<State, Error> {
    let names = Sidecars::for_mp4(mp4)?;
    let seen = Seen {
        has_srt: files.contains_key(&names.srt),
        has_metadata_json: files.contains_key(&names.metadata_json),
        has_rewritten: files.contains_key(&names.rewritten),
        mp4_size: Ok(files.get(mp4).map(|data| match data {
            Data::Bytes(text) => text.len() as u64,
            Data::Video { frames, .. } => 100 * *frames as u64,
            Data::Mp4(bytes) => bytes.len() as u64,
        })),
    };
    match inspect(mp4, &seen, None)? {
        Inspection::Done(state) => Ok(state),
        Inspection::OpenRecording => {
            let opened = open_recording(&files[mp4]);
            match inspect(mp4, &seen, Some(&opened))? {
                Inspection::Done(state) => Ok(state),
                Inspection::OpenRecording => panic!("the recording was opened"),
            }
        }
    }
}

/// How the source of a rewrite behaves.
struct Source {
    usable_stanzas: usize,
    malformed_at_line: Option<usize>,
}

fn start_time() -> CaptureTime {
    CaptureTime { secs: 1_662_921_288, subsec_ns: 0 }
}

fn capture_times(n: usize) -> Vec<CaptureTime> {
    (0..n)
        .map(|i| start_time().after_ns(i as i64 * 40_000_000).unwrap())
        .collect()
}

fn timing(i: usize) -> SampleTiming {
    SampleTiming {
        decode_secs: 0,
        decode_nanos: 40_000_000,
        offset_secs: 0,
        offset_nanos: (i % 3) as i32 * 40_000_000,
    }
}

fn run_rewrite(files: &mut Files, names: &Sidecars, source: &Source) -> Result<RewriteOutcome, Error> {
    let total = match &files[&names.mp4] {
        Data::Video { frames, .. } => *frames,
        other => panic!("{other:?}"),
    };
    let kept = source.usable_stanzas - source.usable_stanzas % CRASH_TEST_GOP;
    let kept = if source.usable_stanzas == total { total } else { kept };
    let srt_truncation = if kept == total {
        None
    } else {
        Some(SrtTruncation {
            usable_stanzas: source.usable_stanzas,
            total_frames: total,
            kept_frames: kept,
            malformed_at_line: source.malformed_at_line,
        })
    };
    let info = SourceInfo {
        frame0_time: start_time(),
        srt_truncation,
        sample_timing: Some((0..kept).map(timing).collect()),
    };
    let mut rewrite = Rewrite::begin(names, info);
    let mut written = vec![];
    files.insert(names.rewritten.clone(), Data::Bytes("partial"));
    for idx in 0..kept {
        let frame = FrameRead {
            idx,
            since_secs: (idx / 25) as u64,
            since_nanos: (idx % 25) as u32 * 40_000_000,
            is_h264: true,
        };
        match rewrite.take_frame(Ok(frame)) {
            FrameStep::Write { timestamp, timing: given } => {
                assert_eq!(given, Some(timing(idx)));
                written.push(timestamp);
            }
            other => panic!("{other:?}"),
        }
        assert!(rewrite.take_written(idx, Ok(())));
    }
    match rewrite.end(names) {
        RewriteEnd::Finish(outcome) => {
            files.insert(
                names.rewritten.clone(),
                Data::Video { frames: written.len(), times: Some(written) },
            );
            Ok(outcome)
        }
        RewriteEnd::Abandon { discard, error } => {
            perform(files, vec![discard]);
            Err(error)
        }
    }
}

fn run_repair(files: &mut Files, mp4: &str, source: &Source) -> Result<Repair, Error> {
    let names = Sidecars::for_mp4(mp4)?;
    let mut step = repair(mp4, RepairEvent::Inspected(look_at(files, mp4)))?;
    if let RepairStep::Rewrite = step {
        let read = match files.get(&names.metadata_json) {
            Some(_) => FileRead::Text("{}".to_string()),
            None => FileRead::NotFound,
        };
        let had_metadata = read_metadata_sidecar(read)?.is_some();
        let outcome = run_rewrite(files, &names, source)?;
        step = repair(mp4, RepairEvent::Rewrote { had_metadata, outcome })?;
    }
    match step {
        RepairStep::Settle { ops, done } => {
            perform(files, ops);
            Ok(done)
        }
        RepairStep::Rewrite => panic!("the rewrite stage was run"),
    }
}

/// The files left by a writer that was killed while recording.
fn crashed_while_recording() -> Files {
    let names = Sidecars::for_mp4(&crash_test_mp4()).unwrap();
    let mut files = Files::new();
    files.insert(names.mp4, Data::Video { frames: CRASH_TEST_FRAMES, times: None });
    files.insert(names.srt, Data::Bytes("capture times"));
    files.insert(names.metadata_json, Data::Bytes("{}"));
    files
}

fn leftovers(files: &Files) -> Vec<String> {
    files
        .keys()
        .filter(|p| p.ends_with("-ffmpeg-rewriter.srt") || p.ends_with("-rewritten.mp4"))
        .cloned()
        .collect()
}

fn assert_repaired(files: &mut Files, mp4: &str, expected_frames: usize) {
    let names = Sidecars::for_mp4(mp4).unwrap();
    for leftover in [&names.srt, &names.metadata_json, &names.rewritten] {
        assert!(!files.contains_key(leftover), "\"{leftover}\" should have been cleaned up");
    }
    assert_eq!(
        files[mp4],
        Data::Video {
            frames: expected_frames,
            times: Some(capture_times(expected_frames))
        }
    );
    // Repairing a repaired recording is a no-op.
    let source = Source { usable_stanzas: 0, malformed_at_line: None };
    let before = files.clone();
    assert!(matches!(run_repair(files, mp4, &source), Ok(Repair::NotInterrupted)));
    assert_eq!(*files, before);
}

#[test]
fn test_repair_after_crash_while_recording() {
    let mp4 = crash_test_mp4();
    let mut files = crashed_while_recording();
    let names = Sidecars::for_mp4(&mp4).unwrap();
    assert!(files.contains_key(&names.srt));
    assert!(files.contains_key(&names.metadata_json));
    assert!(!files.contains_key(&names.rewritten));
    assert_eq!(look_at(&files, &mp4).unwrap(), State::NeedsRewrite);
    assert_eq!(
        find_interrupted(&leftovers(&files), PathStyle::Unix),
        vec![mp4.clone()],
        "the interrupted recording must be discoverable from its sidecar files"
    );

    let source = Source { usable_stanzas: CRASH_TEST_FRAMES - 1, malformed_at_line: None };
    let outcome = match run_repair(&mut files, &mp4, &source) {
        Ok(Repair::Rewritten(outcome)) => outcome,
        _ => panic!("an interrupted recording must be rewritten"),
    };

    let reason = outcome
        .truncated_reason
        .as_ref()
        .expect("the frames left without a capture time must be reported");
    assert!(reason.contains("capture times for only"), "reason: {reason}");
    assert_eq!(outcome.total_frames, CRASH_TEST_FRAMES);
    assert_eq!(
        outcome.frames_written % CRASH_TEST_GOP,
        0,
        "only whole groups of pictures can be kept, got {}",
        outcome.frames_written
    );
    assert!(
        outcome.frames_written >= CRASH_TEST_FRAMES - 2 * CRASH_TEST_GOP
            && outcome.frames_written < CRASH_TEST_FRAMES,
        "expected all but the last group of pictures, got {} of {CRASH_TEST_FRAMES}",
        outcome.frames_written
    );
    assert_repaired(&mut files, &mp4, outcome.frames_written);
}

#[test]
fn test_repair_after_crash_during_rewrite() {
    let mp4 = crash_test_mp4();
    let mut files = crashed_while_recording();
    let names = Sidecars::for_mp4(&mp4).unwrap();
    files.insert(names.rewritten.clone(), Data::Bytes("partial"));
    assert!(
        files.contains_key(&names.rewritten),
        "the crash should have left a partial \"{}\" behind",
        names.rewritten
    );
    assert!(files.contains_key(&names.srt));
    assert_eq!(look_at(&files, &mp4).unwrap(), State::NeedsRewrite);
    assert_eq!(
        find_interrupted(&leftovers(&files), PathStyle::Unix),
        vec![mp4.clone()]
    );

    let source = Source { usable_stanzas: CRASH_TEST_FRAMES, malformed_at_line: None };
    let outcome = match run_repair(&mut files, &mp4, &source) {
        Ok(Repair::Rewritten(outcome)) => outcome,
        _ => panic!("an interrupted recording must be rewritten"),
    };
    assert_eq!(outcome.truncated_reason, None);
    assert_eq!(outcome.frames_written, CRASH_TEST_FRAMES);
    assert_eq!(outcome.total_frames, CRASH_TEST_FRAMES);
    assert_repaired(&mut files, &mp4, CRASH_TEST_FRAMES);
}

#[test]
fn test_repair_with_srt_cut_mid_stanza() {
    const USABLE_STANZAS: usize = 10;
    let mp4 = crash_test_mp4();
    let mut files = crashed_while_recording();
    // Stanzas are 3 lines plus a blank separator, so the half-written one starts at
    // line 41.
    let source = Source {
        usable_stanzas: USABLE_STANZAS,
        malformed_at_line: Some(4 * USABLE_STANZAS + 1),
    };
    let outcome = match run_repair(&mut files, &mp4, &source) {
        Ok(Repair::Rewritten(outcome)) => outcome,
        _ => panic!("an interrupted recording must be rewritten"),
    };
    let reason = outcome.truncated_reason.as_ref().unwrap();
    assert!(reason.contains("incomplete from line 41"), "reason: {reason}");
    let expected_frames = USABLE_STANZAS - USABLE_STANZAS % CRASH_TEST_GOP;
    assert_eq!(outcome.frames_written, expected_frames);
    assert_eq!(outcome.total_frames, CRASH_TEST_FRAMES);
    assert_repaired(&mut files, &mp4, expected_frames);
}

#[test]
fn test_repair_removes_stale_sidecars() {
    let mp4 = crash_test_mp4();
    let names = Sidecars::for_mp4(&mp4).unwrap();
    let mut files = Files::new();
    let finished = Data::Video {
        frames: CRASH_TEST_FRAMES,
        times: Some(capture_times(CRASH_TEST_FRAMES)),
    };
    files.insert(mp4.clone(), finished.clone());
    files.insert(
        names.srt.clone(),
        Data::Bytes("1\n00:00:00,000 --> 00:00:00,040\n{}\n\n"),
    );
    files.insert(names.metadata_json.clone(), Data::Bytes("{}"));

    assert_eq!(look_at(&files, &mp4).unwrap(), State::StaleSidecars);
    let source = Source { usable_stanzas: 0, malformed_at_line: None };
    assert!(matches!(
        run_repair(&mut files, &mp4, &source),
        Ok(Repair::RemovedStaleSidecars)
    ));
    assert!(!files.contains_key(&names.srt));
    assert!(!files.contains_key(&names.metadata_json));
    assert_eq!(
        files[&mp4], finished,
        "an already-rewritten recording must not be touched"
    );
}

#[test]
fn test_missing_recording_is_reported() {
    let missing = crash_test_mp4();
    assert!(matches!(
        look_at(&Files::new(), &missing),
        Err(Error::NoSuchRecording { .. })
    ));
}

#[test]
fn test_unfinalized_mp4_is_reported() {
    let mp4 = crash_test_mp4();
    let mut complete = vec![0, 0, 0, 12, b'f', b't', b'y', b'p', b'i', b's', b'o', b'm'];
    complete.extend_from_slice(&[0, 0, 0, 10, b'm', b'd', b'a', b't', 1, 2]);
    complete.extend_from_slice(&[0, 0, 0, 9, b'm', b'o', b'o', b'v', 3]);
    assert!(is_mp4_finalized(&complete).unwrap());

    // Drop the index, as a recording that was not closed yet lacks.
    let moov_at = complete
        .windows(4)
        .position(|w| w == b"moov")
        .expect("a finalized MP4 has a moov box");
    let cut = complete[..moov_at - 4].to_vec();
    assert!(!is_mp4_finalized(&cut).unwrap());

    let mut files = crashed_while_recording();
    files.insert(mp4.clone(), Data::Mp4(cut));
    let before = files.clone();
    assert!(matches!(look_at(&files, &mp4), Err(Error::Mp4NotFinalized { .. })));
    let source = Source { usable_stanzas: 0, malformed_at_line: None };
    assert!(matches!(
        run_repair(&mut files, &mp4, &source),
        Err(Error::Mp4NotFinalized { .. })
    ));
    assert_eq!(files, before);
}

fn seen(srt: bool, json: bool, rewritten: bool, size: Option<u64>) -> Seen {
    Seen {
        has_srt: srt,
        has_metadata_json: json,
        has_rewritten: rewritten,
        mp4_size: Ok(size),
    }
}

#[test]
fn every_state_is_told_from_the_files() {
    let done = |s: &Seen| inspect("a.mp4", s, None).unwrap();
    assert_eq!(
        done(&seen(false, false, false, Some(0))),
        Inspection::Done(State::NotInterrupted)
    );
    assert_eq!(
        done(&seen(true, false, false, None)),
        Inspection::Done(State::NothingRecorded)
    );
    assert_eq!(
        done(&seen(false, true, false, Some(0))),
        Inspection::Done(State::NothingRecorded)
    );
    let video = seen(true, false, true, Some(9));
    assert_eq!(done(&video), Inspection::OpenRecording);
    assert_eq!(
        inspect("a.mp4", &video, Some(&Opened::Readable)).unwrap(),
        Inspection::Done(State::StaleSidecars)
    );
    assert_eq!(
        inspect("a.mp4", &video, Some(&Opened::NoTimestamps)).unwrap(),
        Inspection::Done(State::NeedsRewrite)
    );
}

#[test]
fn what_cannot_be_repaired_is_told_apart() {
    assert!(matches!(
        inspect("a.mkv", &seen(true, true, true, Some(1)), None),
        Err(Error::FilenameDoesNotEndWithMp4)
    ));
    let unknown = Seen {
        mp4_size: Err("permission denied".to_string()),
        ..seen(false, false, false, None)
    };
    match inspect("a.mp4", &unknown, None) {
        Err(Error::Io(m)) => assert_eq!(m, "permission denied"),
        other => panic!("{other:?}"),
    }
    for size in [None, Some(0)] {
        match inspect("a.mp4", &seen(true, true, true, size), None) {
            Err(Error::OriginalMissing { mp4_filename, rewritten }) => {
                assert_eq!(mp4_filename, "a.mp4");
                assert_eq!(rewritten, "a.mp4-rewritten.mp4");
            }
            other => panic!("{other:?}"),
        }
    }
    match inspect(
        "a.mp4",
        &seen(false, true, false, Some(5)),
        Some(&Opened::NoTimestamps),
    ) {
        Err(Error::MissingSrtSidecar { mp4_filename, srt }) => {
            assert_eq!(mp4_filename, "a.mp4");
            assert_eq!(srt, "a-ffmpeg-rewriter.srt");
        }
        other => panic!("{other:?}"),
    }
    let broken = Opened::Unreadable {
        error: "bad stsd".to_string(),
        finalized: Ok(true),
    };
    match has_precision_timestamps("a.mp4", &broken) {
        Err(Error::FrameSourceError(m)) => assert_eq!(m, "bad stsd"),
        other => panic!("{other:?}"),
    }
    let unreadable = Opened::Unreadable {
        error: "bad stsd".to_string(),
        finalized: Err("read error".to_string()),
    };
    match has_precision_timestamps("a.mp4", &unreadable) {
        Err(Error::Io(m)) => assert_eq!(m, "read error"),
        other => panic!("{other:?}"),
    }
    assert!(has_precision_timestamps("a.mp4", &Opened::Readable).unwrap());
    assert!(!has_precision_timestamps("a.mp4", &Opened::NoTimestamps).unwrap());
}

#[test]
fn a_crash_at_any_point_of_committing_can_be_repaired() {
    let mp4 = crash_test_mp4();
    let names = Sidecars::for_mp4(&mp4).unwrap();
    let source = Source { usable_stanzas: CRASH_TEST_FRAMES, malformed_at_line: None };
    for steps_done in 0..=3 {
        let mut files = crashed_while_recording();
        let outcome = run_rewrite(&mut files, &names, &source).unwrap();
        let writer = FfmpegReWriter::new(&mp4, true).unwrap();
        let ops = writer.close(outcome).unwrap();
        assert_eq!(ops.len(), 3);
        perform(&mut files, ops.into_iter().take(steps_done).collect());
        let state = look_at(&files, &mp4).unwrap();
        let expected = match steps_done {
            0 => State::NeedsRewrite,
            3 => State::NotInterrupted,
            _ => State::StaleSidecars,
        };
        assert_eq!(state, expected);
        run_repair(&mut files, &mp4, &source).unwrap();
        assert_repaired(&mut files, &mp4, CRASH_TEST_FRAMES);
    }
}

#[test]
fn an_empty_recording_is_cleared_away() {
    let mp4 = crash_test_mp4();
    let names = Sidecars::for_mp4(&mp4).unwrap();
    let mut files = Files::new();
    files.insert(names.srt.clone(), Data::Bytes(""));
    files.insert("/rec/other.srt".to_string(), Data::Bytes("kept"));
    let source = Source { usable_stanzas: 0, malformed_at_line: None };
    assert!(matches!(
        run_repair(&mut files, &mp4, &source),
        Ok(Repair::RemovedEmptyRecording)
    ));
    assert_eq!(files.len(), 1);
    assert!(matches!(look_at(&files, &mp4), Err(Error::NoSuchRecording { .. })));
}

#[test]
fn a_truncated_rewrite_is_not_committed_on_close() {
    let writer = FfmpegReWriter::new("a.mp4", false).unwrap();
    assert_eq!(writer.recording_files().rewritten, "a.mp4-rewritten.mp4");
    let outcome = RewriteOutcome {
        frames_written: 8,
        total_frames: 10,
        truncated_reason: Some("because".to_string()),
    };
    match writer.close(outcome) {
        Err(Error::IncompleteRewrite { mp4_filename, frames_written, total_frames, reason }) => {
            assert_eq!(mp4_filename, "a.mp4");
            assert_eq!((frames_written, total_frames), (8, 10));
            assert_eq!(reason, "because");
        }
        other => panic!("{other:?}"),
    }
    assert!(matches!(
        FfmpegReWriter::new("a.avi", false),
        Err(Error::FilenameDoesNotEndWithMp4)
    ));
    let kept = FfmpegReWriter::new("a.mp4", false).unwrap();
    let ops = kept
        .close(RewriteOutcome { frames_written: 1, total_frames: 1, truncated_reason: None })
        .unwrap();
    assert_eq!(ops.len(), 2);
}

#[test]
fn metadata_is_saved_once_the_srt_sidecar_is_there() {
    let steps = FfmpegReWriter::new("a.mp4", true).unwrap().start();
    assert_eq!(steps.len(), 3);
    assert!(matches!(&steps[0], StartStep::StartEncoder { path } if path == "a.mp4"));
    assert!(matches!(&steps[1], StartStep::CreateSrt { path } if path == "a-ffmpeg-rewriter.srt"));
    assert!(matches!(&steps[2], StartStep::SaveMetadata { path } if path == "a-metadata.json"));
    let steps = FfmpegReWriter::new("a.mp4", false).unwrap().start();
    assert_eq!(steps.len(), 2);
    assert!(matches!(&steps[1], StartStep::CreateSrt { .. }));
}

#[test]
fn the_metadata_sidecar_may_be_missing() {
    assert_eq!(
        read_metadata_sidecar(FileRead::Text("{}".to_string())).unwrap(),
        Some("{}".to_string())
    );
    assert_eq!(read_metadata_sidecar(FileRead::NotFound).unwrap(), None);
    assert!(matches!(
        read_metadata_sidecar(FileRead::Failed("no".to_string())),
        Err(Error::Io(m)) if m == "no"
    ));
}

fn source_of(timing_of: Option<Vec<SampleTiming>>, t: Option<SrtTruncation>) -> SourceInfo {
    SourceInfo {
        frame0_time: start_time(),
        srt_truncation: t,
        sample_timing: timing_of,
    }
}

fn read(idx: usize) -> Result<FrameRead, String> {
    Ok(FrameRead { idx, since_secs: 1, since_nanos: 5, is_h264: true })
}

#[test]
fn a_frame_that_cannot_be_read_ends_the_copy() {
    let names = Sidecars::for_mp4("a.mp4").unwrap();
    let mut rewrite = Rewrite::begin(&names, source_of(Some(vec![timing(0), timing(1)]), None));
    match rewrite.take_frame(read(0)) {
        FrameStep::Write { timestamp, timing: given } => {
            assert_eq!(timestamp, CaptureTime { secs: start_time().secs + 1, subsec_ns: 5 });
            assert_eq!(given, Some(timing(0)));
        }
        other => panic!("{other:?}"),
    }
    assert!(rewrite.take_written(0, Ok(())));
    assert_eq!(
        rewrite.take_frame(Err("damaged".to_string())),
        FrameStep::Stop
    );
    match rewrite.end(&names) {
        RewriteEnd::Finish(outcome) => {
            assert_eq!(outcome.frames_written, 1);
            assert_eq!(outcome.total_frames, 2);
            assert_eq!(
                outcome.truncated_reason.unwrap(),
                "frame 1 could not be read: damaged"
            );
        }
        other => panic!("{other:?}"),
    }
}

#[test]
fn both_reasons_for_a_short_rewrite_are_told() {
    let names = Sidecars::for_mp4("a.mp4").unwrap();
    let truncation = SrtTruncation {
        usable_stanzas: 7,
        total_frames: 9,
        kept_frames: 4,
        malformed_at_line: None,
    };
    let mut rewrite = Rewrite::begin(&names, source_of(None, Some(truncation)));
    match rewrite.take_frame(read(0)) {
        FrameStep::Write { timing: given, .. } => assert_eq!(given, None),
        other => panic!("{other:?}"),
    }
    assert!(rewrite.take_written(0, Ok(())));
    assert!(!rewrite.take_written(12, Err("disk full".to_string())));
    match rewrite.end(&names) {
        RewriteEnd::Finish(outcome) => {
            assert_eq!(outcome.frames_written, 1);
            assert_eq!(outcome.total_frames, 9);
            assert_eq!(
                outcome.truncated_reason.unwrap(),
                "the timestamp sidecar \"a-ffmpeg-rewriter.srt\" has capture times for only 7 of \
                 9 frames, kept 4 (whole groups of pictures only); frame 12 could not be written: \
                 disk full"
            );
        }
        other => panic!("{other:?}"),
    }
}

fn abandoned(rewrite: Rewrite, names: &Sidecars) -> String {
    match rewrite.end(names) {
        RewriteEnd::Abandon { discard: Op::RemoveIfPresent { path }, error } => {
            assert_eq!(path, "a.mp4-rewritten.mp4");
            error.message()
        }
        other => panic!("{other:?}"),
    }
}

#[test]
fn a_rewrite_without_frames_leaves_no_output() {
    let names = Sidecars::for_mp4("a.mp4").unwrap();
    let empty = Rewrite::begin(&names, source_of(None, None));
    assert_eq!(
        abandoned(empty, &names),
        "\"a.mp4\": no frame could be rewritten: the source has no frames"
    );
    let truncation = SrtTruncation {
        usable_stanzas: 1,
        total_frames: 9,
        kept_frames: 0,
        malformed_at_line: Some(5),
    };
    let cut = Rewrite::begin(&names, source_of(None, Some(truncation)));
    assert_eq!(
        abandoned(cut, &names),
        "\"a.mp4\": no frame could be rewritten: the timestamp sidecar \
         \"a-ffmpeg-rewriter.srt\" is incomplete from line 5 on (an interrupted write); 1 of 9 \
         frames have a capture time, kept 0 (whole groups of pictures only)"
    );
    let mut unread = Rewrite::begin(&names, source_of(None, Some(truncation)));
    assert_eq!(unread.take_frame(Err("damaged".to_string())), FrameStep::Stop);
    assert_eq!(
        abandoned(unread, &names),
        "\"a.mp4\": no frame could be rewritten: frame 0 could not be read: damaged"
    );
    let mut other = Rewrite::begin(&names, source_of(None, None));
    let frame = FrameRead { idx: 0, since_secs: 0, since_nanos: 0, is_h264: false };
    assert_eq!(other.take_frame(Ok(frame)), FrameStep::NotH264);
    assert_eq!(abandoned(other, &names), "source does not contain H264 video");
}

#[test]
fn frames_written_are_all_there_are_where_nothing_else_is_known() {
    let names = Sidecars::for_mp4("a.mp4").unwrap();
    let mut rewrite = Rewrite::begin(&names, source_of(None, None));
    for idx in 0..3 {
        rewrite.take_frame(read(idx));
        assert!(rewrite.take_written(idx, Ok(())));
    }
    match rewrite.end(&names) {
        RewriteEnd::Finish(outcome) => {
            assert_eq!((outcome.frames_written, outcome.total_frames), (3, 3));
            assert_eq!(outcome.truncated_reason, None);
        }
        other => panic!("{other:?}"),
    }
}

#[test]
fn lines_tell_what_a_recording_needs() {
    assert_eq!(
        describe("a.mp4", State::NotInterrupted),
        "OK            a.mp4  (nothing to repair)"
    );
    assert_eq!(
        describe("a.mp4", State::NeedsRewrite),
        "NEEDS-REPAIR  a.mp4  (video is present, but its capture times are still only in the \
         sidecar file)"
    );
    assert_eq!(
        describe("a.mp4", State::StaleSidecars),
        "NEEDS-REPAIR  a.mp4  (recording is complete; only its leftover sidecar files need \
         removing)"
    );
    assert_eq!(
        describe("a.mp4", State::NothingRecorded),
        "NEEDS-REPAIR  a.mp4  (no video was ever written; only its leftover sidecar files need \
         removing)"
    );
    assert!(!check_line("a.mp4", &Ok(State::NotInterrupted)).flagged);
    let line = check_line("a.mp4", &Ok(State::StaleSidecars));
    assert!(line.flagged);
    assert_eq!(line.text, describe("a.mp4", State::StaleSidecars));
    let line = check_line("a.mp4", &Err(Error::SourceIsNotH264));
    assert!(line.flagged);
    assert_eq!(
        line.text,
        "UNKNOWN       a.mp4  (could not examine: source does not contain H264 video)"
    );
}

#[test]
fn lines_tell_what_repair_did() {
    let text = |r: Repair| {
        let line = fix_line("a.mp4", &Ok(r));
        assert!(!line.flagged);
        line.text
    };
    assert_eq!(text(Repair::NotInterrupted), "OK        a.mp4  (nothing to repair)");
    assert_eq!(
        text(Repair::Rewritten(RewriteOutcome {
            frames_written: 24,
            total_frames: 24,
            truncated_reason: None
        })),
        "REPAIRED  a.mp4  (24 of 24 frames)"
    );
    assert_eq!(
        text(Repair::Rewritten(RewriteOutcome {
            frames_written: 20,
            total_frames: 24,
            truncated_reason: Some("why".to_string())
        })),
        "REPAIRED  a.mp4  (kept 20 of 24 frames: why)"
    );
    assert_eq!(
        text(Repair::RemovedStaleSidecars),
        "CLEANED   a.mp4  (recording was already complete; removed its leftover sidecar files)"
    );
    assert_eq!(
        text(Repair::RemovedEmptyRecording),
        "CLEANED   a.mp4  (no video was ever written; removed its leftover sidecar files)"
    );
    let line = fix_line("a.mp4", &Err(Error::FilenameDoesNotEndWithMp4));
    assert!(line.flagged);
    assert_eq!(line.text, "FAILED    a.mp4  (filename does not end with '.mp4')");
}

#[test]
fn the_repair_line_of_a_crashed_recording_reads_as_documented() {
    let names = Sidecars::for_mp4("/some_path/2024-05-04_09-30-00_cam1.mp4").unwrap();
    let truncation = SrtTruncation {
        usable_stanzas: 1492,
        total_frames: 1493,
        kept_frames: 1480,
        malformed_at_line: None,
    };
    let mut rewrite = Rewrite::begin(&names, source_of(None, Some(truncation)));
    for idx in 0..1480 {
        rewrite.take_frame(read(idx));
        rewrite.take_written(idx, Ok(()));
    }
    let outcome = match rewrite.end(&names) {
        RewriteEnd::Finish(outcome) => outcome,
        other => panic!("{other:?}"),
    };
    assert_eq!(
        fix_line(&names.mp4, &Ok(Repair::Rewritten(outcome))).text,
        "REPAIRED  /some_path/2024-05-04_09-30-00_cam1.mp4  (kept 1480 of 1493 frames: the \
         timestamp sidecar \"/some_path/2024-05-04_09-30-00_cam1-ffmpeg-rewriter.srt\" has capture \
         times for only 1492 of 1493 frames, kept 1480 (whole groups of pictures only))"
    );
}

#[test]
fn a_crash_while_sidecars_are_removed_can_be_repaired() {
    let mp4 = crash_test_mp4();
    let names = Sidecars::for_mp4(&mp4).unwrap();
    let finished = Data::Video {
        frames: CRASH_TEST_FRAMES,
        times: Some(capture_times(CRASH_TEST_FRAMES)),
    };
    let source = Source { usable_stanzas: 0, malformed_at_line: None };
    for steps_done in 0..=3 {
        let mut files = Files::new();
        files.insert(mp4.clone(), finished.clone());
        files.insert(names.srt.clone(), Data::Bytes("times"));
        files.insert(names.metadata_json.clone(), Data::Bytes("{}"));
        perform(&mut files, names.remove().into_iter().take(steps_done).collect());
        let expected = if steps_done < 2 {
            State::StaleSidecars
        } else {
            State::NotInterrupted
        };
        assert_eq!(look_at(&files, &mp4).unwrap(), expected);
        run_repair(&mut files, &mp4, &source).unwrap();
        assert_repaired(&mut files, &mp4, CRASH_TEST_FRAMES);
    }
}

#[test]
fn a_start_that_fails_leaves_no_metadata_alone() {
    let mp4 = crash_test_mp4();
    let names = Sidecars::for_mp4(&mp4).unwrap();
    for steps_done in 0..=3 {
        let mut files = Files::new();
        let recording = FfmpegReWriter::new(&mp4, true).unwrap();
        for step in recording.start().into_iter().take(steps_done) {
            match step {
                StartStep::SaveMetadata { path } | StartStep::CreateSrt { path } => {
                    files.insert(path, Data::Bytes(""));
                }
                StartStep::StartEncoder { .. } => {}
            }
        }
        if files.contains_key(&names.metadata_json) {
            assert!(files.contains_key(&names.srt));
        }
        if files.is_empty() {
            assert!(steps_done < 2);
        } else {
            assert_eq!(look_at(&files, &mp4).unwrap(), State::NothingRecorded);
            assert_eq!(
                find_interrupted(&leftovers(&files), PathStyle::Unix),
                vec![mp4.clone()]
            );
        }
    }
}

#[test]
fn what_cannot_be_repaired_is_reported_untouched() {
    let mp4 = crash_test_mp4();
    let names = Sidecars::for_mp4(&mp4).unwrap();
    let mut lost_srt = crashed_while_recording();
    lost_srt.remove(&names.srt);
    let mut no_original = crashed_while_recording();
    no_original.remove(&mp4);
    no_original.insert(names.rewritten.clone(), Data::Bytes("partial"));
    let mut cut_mdat = crashed_while_recording();
    cut_mdat.insert(mp4.clone(), Data::Mp4(vec![0, 0, 0, 1, b'm', b'd', b'a', b't']));
    assert!(matches!(look_at(&cut_mdat, &mp4), Err(Error::Mp4NotFinalized { .. })));
    let source = Source { usable_stanzas: 0, malformed_at_line: None };
    for mut files in [lost_srt, no_original, cut_mdat, Files::new()] {
        let before = files.clone();
        let reported = look_at(&files, &mp4).unwrap_err().message();
        let repaired = run_repair(&mut files, &mp4, &source).unwrap_err().message();
        assert_eq!(repaired, reported);
        assert_eq!(files, before);
    }
    assert!(matches!(
        repair("a.avi", RepairEvent::Inspected(Ok(State::NotInterrupted))),
        Err(Error::FilenameDoesNotEndWithMp4)
    ));
}

#[test]
fn repairing_writes_the_samples_that_closing_would_have() {
    let mp4 = crash_test_mp4();
    let names = Sidecars::for_mp4(&mp4).unwrap();
    let source = Source { usable_stanzas: CRASH_TEST_FRAMES, malformed_at_line: None };
    let mut closed = crashed_while_recording();
    let outcome = run_rewrite(&mut closed, &names, &source).unwrap();
    perform(&mut closed, FfmpegReWriter::new(&mp4, true).unwrap().close(outcome).unwrap());
    let mut repaired = crashed_while_recording();
    run_repair(&mut repaired, &mp4, &source).unwrap();
    assert_eq!(closed, repaired);
    assert_repaired(&mut closed, &mp4, CRASH_TEST_FRAMES);
}

#[test]
fn samples_decoded_out_of_order_are_shown_in_capture_order() {
    // decode order I, P, B, B: captured at 0, 120, 40 and 80 ms
    let names = Sidecars::for_mp4("a.mp4").unwrap();
    let captured_ms = [0u32, 120, 40, 80];
    let offset_ms = [40i32, 120, 0, 0];
    let list: Vec<SampleTiming> = offset_ms
        .iter()
        .map(|ms| SampleTiming {
            decode_secs: 0,
            decode_nanos: 40_000_000,
            offset_secs: 0,
            offset_nanos: ms * 1_000_000,
        })
        .collect();
    let mut rewrite = Rewrite::begin(&names, source_of(Some(list), None));
    let mut shown = vec![];
    for (idx, ms) in captured_ms.iter().enumerate() {
        let frame = FrameRead {
            idx,
            since_secs: 0,
            since_nanos: ms * 1_000_000,
            is_h264: true,
        };
        match rewrite.take_frame(Ok(frame)) {
            FrameStep::Write { timestamp, timing: Some(t) } => {
                let at = idx as i64 * t.decode_nanos as i64 + t.offset_nanos as i64;
                shown.push((at, timestamp));
            }
            other => panic!("{other:?}"),
        }
        assert!(rewrite.take_written(idx, Ok(())));
    }
    shown.sort_by_key(|(at, _)| *at);
    let times: Vec<CaptureTime> = shown.iter().map(|(_, time)| *time).collect();
    assert_eq!(times, capture_times(4));
}

#[test]
fn copies_are_equal_to_what_they_were_copied_from() {
    let names = Sidecars::for_mp4("a.mp4").unwrap();
    assert_eq!(format!("{:?}", names.clone()), format!("{names:?}"));
    for done in [
        Repair::NotInterrupted,
        Repair::RemovedStaleSidecars,
        Repair::RemovedEmptyRecording,
        Repair::Rewritten(RewriteOutcome {
            frames_written: 1,
            total_frames: 2,
            truncated_reason: Some("why".to_string()),
        }),
    ] {
        assert_eq!(format!("{:?}", done.clone()), format!("{done:?}"));
    }
}

#[test]
fn other_video_after_written_frames_only_ends_the_copy() {
    let names = Sidecars::for_mp4("a.mp4").unwrap();
    let mut rewrite = Rewrite::begin(&names, source_of(Some(vec![timing(0), timing(1)]), None));
    assert!(matches!(rewrite.take_frame(read(0)), FrameStep::Write { .. }));
    assert!(rewrite.take_written(0, Ok(())));
    let frame = FrameRead { idx: 1, since_secs: 1, since_nanos: 0, is_h264: false };
    assert_eq!(rewrite.take_frame(Ok(frame)), FrameStep::Stop);
    match rewrite.end(&names) {
        RewriteEnd::Finish(outcome) => {
            assert_eq!((outcome.frames_written, outcome.total_frames), (1, 2));
            assert_eq!(
                outcome.truncated_reason.unwrap(),
                "frame 1 could not be written: source does not contain H264 video"
            );
        }
        other => panic!("{other:?}"),
    }
}
