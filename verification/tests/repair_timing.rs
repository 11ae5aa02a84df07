use media_utils::clock::CaptureTime;
use media_utils::fix::{
    analyze_fix, is_timing_in_range, mean_interval_ns, repair_timing, repair_timing_at, FixFrame,
};
use media_utils::remux::{have_headers, repaired_sample, Loaded};
use media_utils::timing::{analyze, LoadedFrame};

fn frame(pts_ns: i64, poc: i64) -> LoadedFrame {
    LoadedFrame { pts_ns, poc, cvs: 0 }
}

fn fix_frame(pts_ns: i64, poc: i64) -> FixFrame {
    FixFrame { pts_ns, poc, cvs: 0, nals: vec![] }
}

fn fix_frame_in(cvs: i64, pts_ns: i64, poc: i64) -> FixFrame {
    FixFrame { pts_ns, poc, cvs, nals: vec![] }
}

#[test]
fn repair_keeps_capture_times_within_their_gop() {
    let frames = vec![
        fix_frame_in(0, 0, 0),
        fix_frame_in(0, 10, 4),
        fix_frame_in(0, 20, 2),
        fix_frame_in(1, 30, 0),
        fix_frame_in(1, 40, 4),
        fix_frame_in(1, 50, 2),
    ];
    let timing = repair_timing(&frames);
    let corrected: Vec<i64> = timing.iter().map(|t| t.corrected_pts_ns).collect();
    // Within each GOP the two later frames swap, but no time crosses the GOP boundary.
    assert_eq!(corrected, vec![0, 20, 10, 30, 50, 40]);
}

#[test]
fn repair_reassigns_capture_times_to_poc_order() {
    let frames = vec![
        fix_frame(0, 0),
        fix_frame(10, 3),
        fix_frame(20, 1),
        fix_frame(30, 2),
    ];
    let timing = repair_timing(&frames);

    let corrected: Vec<i64> = timing.iter().map(|t| t.corrected_pts_ns).collect();
    assert_eq!(corrected, vec![0, 30, 10, 20]);

    // Presentation time (decode time + composition offset) must equal the
    // corrected capture time and strictly increase in POC display order.
    let interval = timing[0].decode_duration_ns as i64;
    let mut by_poc: Vec<usize> = (0..frames.len()).collect();
    by_poc.sort_by_key(|&i| frames[i].poc);
    let mut prev = i64::MIN;
    for &i in &by_poc {
        let dts = interval * i as i64;
        let presentation = dts + timing[i].composition_offset_ns;
        assert_eq!(presentation, timing[i].corrected_pts_ns);
        assert!(presentation > prev, "presentation must increase by POC");
        prev = presentation;
    }

    // The repaired stream now passes the tool's own consistency check.
    let repaired: Vec<LoadedFrame> = frames
        .iter()
        .zip(&timing)
        .map(|(f, t)| frame(t.corrected_pts_ns, f.poc))
        .collect();
    assert!(!analyze(&repaired).is_broken());
}

#[test]
fn frames_are_analyzed_alike_with_and_without_their_units() {
    let frames = vec![fix_frame(0, 0), fix_frame(10, 3), fix_frame(20, 1)];
    let analysis = analyze_fix(&frames);
    assert_eq!(analysis.num_frames, 3);
    assert_eq!(analysis.num_inversions, 1);
    assert_eq!(analysis.max_inversion_ns, 10);
}

#[test]
fn repairing_twice_gives_the_same_times() {
    let frames = vec![fix_frame(7, 2), fix_frame(3, 0), fix_frame(3, 1), fix_frame(1, 9)];
    let once = repair_timing(&frames);
    let again: Vec<FixFrame> = frames
        .iter()
        .zip(&once)
        .map(|(f, t)| fix_frame(t.corrected_pts_ns, f.poc))
        .collect();
    let twice = repair_timing(&again);
    assert_eq!(once, twice);
    let corrected: Vec<i64> = once.iter().map(|t| t.corrected_pts_ns).collect();
    assert_eq!(corrected, vec![3, 1, 3, 7]);
}

#[test]
fn the_decode_interval_is_the_rounded_mean() {
    assert_eq!(mean_interval_ns(&[fix_frame(0, 0), fix_frame(10, 1), fix_frame(25, 2)]), 13);
    assert_eq!(mean_interval_ns(&[fix_frame(0, 0), fix_frame(10, 1), fix_frame(24, 2)]), 12);
    assert_eq!(mean_interval_ns(&[fix_frame(5, 0), fix_frame(5, 1)]), 1);
    assert_eq!(mean_interval_ns(&[fix_frame(5, 0)]), 33_333_333);
    // the same as in floating point
    for (span, n) in [(40_000_001i64, 3usize), (1_000_000_007, 31), (999_999_999_999, 8)] {
        let mut frames: Vec<FixFrame> = (0..n as i64).map(|i| fix_frame(0, i)).collect();
        frames[n - 1].pts_ns = span;
        let mean = (span as f64 / (n - 1) as f64).round() as i64;
        assert_eq!(mean_interval_ns(&frames), mean);
    }
}

#[test]
fn a_single_frame_keeps_its_time() {
    let timing = repair_timing(&[fix_frame(17, 0)]);
    assert_eq!(timing.len(), 1);
    assert_eq!(timing[0].corrected_pts_ns, 17);
    assert_eq!(timing[0].composition_offset_ns, 17);
    assert_eq!(timing[0].decode_duration_ns, 33_333_333);
}

#[test]
fn a_given_interval_spaces_the_samples() {
    let frames = vec![fix_frame(0, 1), fix_frame(100, 0)];
    let timing = repair_timing_at(&frames, 7);
    assert_eq!(timing[0].corrected_pts_ns, 100);
    assert_eq!(timing[1].corrected_pts_ns, 0);
    assert_eq!(timing[1].composition_offset_ns, -7);
    assert_eq!(timing[1].decode_duration_ns, 7);
    assert!(is_timing_in_range(&frames, 7));
    assert!(!is_timing_in_range(&[fix_frame(i64::MIN, 0), fix_frame(i64::MIN, 1)], 1));
}

fn marker() -> Vec<u8> {
    let mut sei = vec![0x06u8, 0x05, 0x1c];
    sei.extend_from_slice(b"MISPmicrosectime");
    sei.extend_from_slice(&[0x0f, 1, 2, 0xff, 3]);
    sei
}

#[test]
fn a_repaired_sample_loses_only_its_stale_timestamp() {
    let slice = vec![0x65u8, 1, 2, 3];
    let other_sei = vec![0x06u8, 0x05, 4, b'x', b'y', b'z', 0];
    let frame = FixFrame {
        pts_ns: 0,
        poc: 0,
        cvs: 0,
        nals: vec![marker(), other_sei.clone(), slice.clone(), marker()],
    };
    assert!(have_headers(&frame.nals));
    assert!(!have_headers(&vec![vec![1], vec![]]));
    let start = CaptureTime { secs: 1_662_921_288, subsec_ns: 999_999_000 };
    let timing = repair_timing(&[fix_frame(2_500, 0)]);
    let sample = repaired_sample(&frame, &timing[0], start).unwrap();
    assert_eq!(sample.nals, vec![other_sei, slice]);
    assert_eq!(sample.decode_duration_ns, 33_333_333);
    assert_eq!(sample.composition_offset_ns, 2_500);
    assert_eq!(sample.sei_timestamp, CaptureTime { secs: 1_662_921_289, subsec_ns: 1_500 });
}

#[test]
fn parameter_sets_are_passed_through_where_there_are_any() {
    let mut loaded = Loaded {
        frames: vec![],
        width: 64,
        height: 48,
        first_sps: None,
        first_pps: None,
        frame0_time: CaptureTime { secs: 0, subsec_ns: 0 },
    };
    assert!(!loaded.passes_parameter_sets());
    loaded.first_pps = Some(vec![0x68]);
    assert!(loaded.passes_parameter_sets());
}

#[test]
fn times_in_display_order_stay() {
    let frames = vec![fix_frame(0, 0), fix_frame(30, 3), fix_frame(10, 1), fix_frame(20, 2)];
    assert!(!analyze_fix(&frames).is_broken());
    let corrected: Vec<i64> = repair_timing(&frames).iter().map(|t| t.corrected_pts_ns).collect();
    assert_eq!(corrected, vec![0, 30, 10, 20]);
}
