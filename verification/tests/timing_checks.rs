use media_utils::load::LoadError;
use media_utils::report;
use media_utils::timing::{
    analyze, cadence_check, is_cadence_in_range, span_fits, span_ns, CadenceCheck, CadenceFigures,
    LoadedFrame,
};

/// A sample in the first (or only) coded video sequence.
fn frame(pts_ns: i64, poc: i64) -> LoadedFrame {
    LoadedFrame { pts_ns, poc, cvs: 0 }
}

/// A sample in coded video sequence `cvs`.
fn frame_in(cvs: i64, pts_ns: i64, poc: i64) -> LoadedFrame {
    LoadedFrame { pts_ns, poc, cvs }
}

/// Timing series for a container and an SEI at the given nanosecond times.
fn series(times: &[i64]) -> Vec<LoadedFrame> {
    times
        .iter()
        .enumerate()
        .map(|(i, &t)| frame(t, i as i64))
        .collect()
}

fn rate_error(check: &CadenceCheck) -> f64 {
    if check.container_span_ns == 0 {
        return 0.0;
    }
    check.sei_span_ns as f64 / check.container_span_ns as f64 - 1.0
}

fn figures(check: &CadenceCheck) -> CadenceFigures {
    CadenceFigures {
        rate_percent: format!("{:.2}", rate_error(check).abs() * 100.0),
        container_ms: format!("{:.1}", check.container_span_ns as f64 / 1e6),
        sei_ms: format!("{:.1}", check.sei_span_ns as f64 / 1e6),
        drift_ms: format!("{:.1}", check.drift_ns() as f64 / 1e6),
        drift_frames: format!(
            "{:.2}",
            check.drift_ns() as f64 / check.mean_interval_ns as f64
        ),
    }
}

fn describe(check: &CadenceCheck) -> String {
    check.describe(&figures(check))
}

#[test]
fn analyze_flags_sei_inconsistent_with_poc() {
    let frames = vec![frame(0, 0), frame(1, 3), frame(2, 1), frame(3, 2)];
    let analysis = analyze(&frames);
    assert!(analysis.is_broken());
    assert_eq!(analysis.num_frames, 4);
    assert!(analysis.num_inversions > 0);
}

#[test]
fn analyze_accepts_correctly_ordered_samples() {
    let frames = vec![frame(0, 0), frame(1, 1), frame(2, 2), frame(3, 3)];
    let analysis = analyze(&frames);
    assert!(!analysis.is_broken());
}

#[test]
fn analyze_accepts_multiple_gops_with_restarting_poc() {
    let frames = vec![
        frame_in(0, 0, 0),
        frame_in(0, 10, 2),
        frame_in(0, 20, 4),
        frame_in(1, 30, 0),
        frame_in(1, 40, 2),
        frame_in(1, 50, 4),
    ];
    let analysis = analyze(&frames);
    assert!(
        !analysis.is_broken(),
        "multi-GOP file wrongly reported broken: {} of {} samples inverted",
        analysis.num_inversions,
        analysis.num_frames
    );
}

#[test]
fn cadence_accepts_a_container_at_the_capture_rate() {
    let sei: Vec<i64> = (0..20).map(|i| i * 40_000_000).collect();
    let container: Vec<i64> = sei.iter().map(|t| t + 11_000).collect();
    let check = cadence_check(&series(&container), &series(&sei)).unwrap();
    assert!(!check.is_broken(), "{}", describe(&check));
}

#[test]
fn cadence_flags_a_uniformly_compressed_timeline() {
    let n = 20i64;
    let sei: Vec<i64> = (0..n).map(|i| i * 40_000_000).collect();
    // Every duration scaled by (n-1)/n.
    let container: Vec<i64> = (0..n).map(|i| i * 40_000_000 * (n - 1) / n).collect();

    // The ordering check is blind to it.
    assert!(!analyze(&series(&container)).is_broken());

    let check = cadence_check(&series(&container), &series(&sei)).unwrap();
    assert!(check.is_broken(), "{}", describe(&check));
    let expected_drift = check.sei_span_ns / n;
    assert!(
        (check.drift_ns() - expected_drift).abs() <= expected_drift / 100,
        "expected a drift of span/n = {expected_drift}ns, got {}",
        describe(&check)
    );
    assert!(check.drift_ns() * 100 > check.mean_interval_ns * 90);
}

#[test]
fn cadence_flags_compression_on_a_long_recording() {
    let n = 1000i64;
    let sei: Vec<i64> = (0..n).map(|i| i * 40_000_000).collect();
    let container: Vec<i64> = (0..n).map(|i| i * 40_000_000 * (n - 1) / n).collect();
    let check = cadence_check(&series(&container), &series(&sei)).unwrap();
    assert!(
        rate_error(&check).abs() < 0.002,
        "rate error should be tiny"
    );
    assert!(check.is_broken(), "{}", describe(&check));
}

#[test]
fn cadence_accepts_a_container_snapped_to_a_clean_grid() {
    const JITTER: [i64; 10] = [
        0, 1_300_000, -900_000, 2_000_000, -1_700_000, 600_000, -400_000, 1_100_000, -2_000_000,
        300_000,
    ];
    let n = 20usize;
    let sei: Vec<i64> = (0..n)
        .map(|i| i as i64 * 40_000_000 + JITTER[i % JITTER.len()])
        .collect();
    // Snapped to the span-derived rate, so the ends line up and the middle does not.
    let rate = (sei[n - 1] - sei[0]) / (n as i64 - 1);
    let container: Vec<i64> = (0..n).map(|i| i as i64 * rate).collect();

    let check = cadence_check(&series(&container), &series(&sei)).unwrap();
    assert!(!check.is_broken(), "{}", describe(&check));
}

#[test]
fn analyze_still_flags_inversion_inside_one_gop() {
    let frames = vec![
        frame_in(0, 0, 0),
        frame_in(0, 10, 2),
        frame_in(1, 5, 0),
        frame_in(1, 40, 2),
    ];
    assert!(analyze(&frames).is_broken());
}

#[test]
fn analyze_accepts_reordered_decode_order_with_matching_sei() {
    let frames = vec![
        frame(0, 0),  // I
        frame(30, 3), // P
        frame(10, 1), // B
        frame(20, 2), // B
    ];
    let analysis = analyze(&frames);
    assert!(!analysis.is_broken());
}

#[test]
fn analysis_counts_steps_back_and_keeps_the_worst() {
    // in display order: 0, 100, 40, 50, 45
    let frames = vec![
        frame(0, 0),
        frame(100, 1),
        frame(50, 3),
        frame(40, 2),
        frame(45, 4),
    ];
    let analysis = analyze(&frames);
    assert_eq!(analysis.num_frames, 5);
    assert_eq!(analysis.num_inversions, 2);
    assert_eq!(analysis.max_inversion_ns, 60);
}

#[test]
fn equal_keys_keep_their_order() {
    let frames = vec![frame(5, 1), frame(3, 1), frame(9, 0)];
    // shown as 9, 5, 3
    let analysis = analyze(&frames);
    assert_eq!(analysis.num_inversions, 2);
    assert_eq!(analysis.max_inversion_ns, 4);
}

#[test]
fn an_empty_series_has_nothing_wrong_with_it() {
    let analysis = analyze(&[]);
    assert_eq!(analysis.num_frames, 0);
    assert!(!analysis.is_broken());
    assert_eq!(span_ns(&[]), 0);
}

#[test]
fn steps_back_may_exceed_the_signed_range() {
    let frames = vec![frame(i64::MAX, 0), frame(i64::MIN, 1)];
    assert_eq!(analyze(&frames).max_inversion_ns, u64::MAX);
    assert!(!span_fits(&frames));
    assert!(span_fits(&[frame(i64::MAX, 0), frame(0, 1)]));
}

#[test]
fn span_ignores_the_order_of_samples() {
    assert_eq!(span_ns(&series(&[30, -10, 20])), 40);
}

#[test]
fn cadence_needs_two_frames_and_elapsed_time() {
    assert!(cadence_check(&series(&[0]), &series(&[0])).is_none());
    assert!(cadence_check(&series(&[0, 1, 2]), &series(&[0, 1])).is_none());
    assert!(cadence_check(&series(&[0, 1]), &series(&[5, 5])).is_none());
    let check = cadence_check(&series(&[0, 10]), &series(&[0, 11, 21][..2])).unwrap();
    assert_eq!(
        check,
        CadenceCheck {
            container_span_ns: 10,
            sei_span_ns: 11,
            mean_interval_ns: 11
        }
    );
    assert!(!check.is_broken());
    assert!(is_cadence_in_range(&series(&[0, 10]), &series(&[0, 11])));
    assert!(!is_cadence_in_range(
        &series(&[0, 10]),
        &series(&[i64::MIN, i64::MAX])
    ));
}

#[test]
fn half_a_frame_is_the_threshold() {
    let at = CadenceCheck {
        container_span_ns: 1000,
        sei_span_ns: 950,
        mean_interval_ns: 100,
    };
    assert!(!at.is_broken());
    let over = CadenceCheck {
        sei_span_ns: 949,
        ..at
    };
    assert!(over.is_broken());
    assert_eq!(over.drift_ns(), 51);
}

#[test]
fn frames_shorter_than_a_nanosecond_have_a_rate_too() {
    let check = cadence_check(&series(&[0, 0, 1_000_000_000]), &series(&[0, 0, 1])).unwrap();
    assert_eq!(check.mean_interval_ns, 0);
    assert!(check.is_broken());
    let same = cadence_check(&series(&[0, 1, 1]), &series(&[0, 0, 1])).unwrap();
    assert!(!same.is_broken());
    let negative = CadenceCheck {
        container_span_ns: 5,
        sei_span_ns: 5,
        mean_interval_ns: -1,
    };
    assert!(!negative.is_broken());
}

#[test]
fn cadence_description_reads_as_expected() {
    let n = 20i64;
    let sei: Vec<i64> = (0..n).map(|i| i * 40_000_000).collect();
    let container: Vec<i64> = (0..n).map(|i| i * 40_000_000 * (n - 1) / n).collect();
    let check = cadence_check(&series(&container), &series(&sei)).unwrap();
    assert_eq!(
        describe(&check),
        "container plays 5.26% too fast: its timeline spans 722.0ms against 760.0ms of capture, \
         a drift of 38.0ms (~0.95 frames)"
    );
    let slow = cadence_check(&series(&[0, 100]), &series(&[0, 50])).unwrap();
    assert!(describe(&slow).starts_with("container plays 50.00% too slow: "));
}

#[test]
fn a_sound_mp4_is_reported_ok() {
    let frames = series(&[0, 40_000_000, 80_000_000]);
    let sei = series(&[0, 40_000_000, 80_000_000]);
    let r = report::check_file("a.mp4", Some(frames), Ok(sei)).unwrap();
    assert_eq!(r.num_frames(), 3);
    let line = report::report_line(
        "a.mp4",
        &r,
        &vec!["0.0".to_string(), "0.0".to_string()],
        None,
    );
    assert!(!line.flagged);
    assert_eq!(
        line.text,
        "OK      a.mp4  (3 samples; checked: container (stts/ctts), precision-timestamp SEI, \
         container-vs-capture rate)"
    );
}

#[test]
fn every_fault_of_a_file_is_reported() {
    // out of order in the container, out of order in the capture times, and too fast
    let container = vec![frame(0, 0), frame(10_000_000, 1), frame(5_000_000, 2)];
    let sei = vec![frame(0, 0), frame(80_000_000, 1), frame(40_000_000, 2)];
    let r = report::check_file("b.mp4", Some(container), Ok(sei)).unwrap();
    let cadence = r.cadence.unwrap();
    assert!(cadence.is_broken());
    let line = report::report_line(
        "b.mp4",
        &r,
        &vec!["5.0".to_string(), "40.0".to_string()],
        Some(&figures(&cadence)),
    );
    assert!(line.flagged);
    assert_eq!(
        line.text,
        "BROKEN  b.mp4  (container (stts/ctts): 1 of 3 samples inconsistent with bitstream POC \
         order, up to 5.0ms early; precision-timestamp SEI: 1 of 3 samples inconsistent with \
         bitstream POC order, up to 40.0ms early; container plays 700.00% too fast: its timeline \
         spans 10.0ms against 80.0ms of capture, a drift of 70.0ms (~1.75 frames))"
    );
    assert!(report::any_flagged(&vec![line]));
    assert!(!report::any_flagged(&vec![]));
}

#[test]
fn files_with_one_timing_series_are_checked_by_it() {
    let r = report::check_file(
        "plain.mp4",
        Some(series(&[0, 1])),
        Err(LoadError::NoTimestamps),
    )
    .unwrap();
    assert!(r.cadence.is_none());
    let line = report::report_line("plain.mp4", &r, &vec!["0.0".to_string()], None);
    assert_eq!(
        line.text,
        "OK      plain.mp4  (2 samples; checked: container (stts/ctts))"
    );
    let raw = report::check_file("raw.h264", None, Ok(series(&[0, 1]))).unwrap();
    let line = report::report_line("raw.h264", &raw, &vec!["0.0".to_string()], None);
    assert_eq!(
        line.text,
        "OK      raw.h264  (2 samples; checked: precision-timestamp SEI)"
    );
}

#[test]
fn files_that_cannot_be_checked_say_why() {
    assert_eq!(
        report::check_file("raw.h264", None, Err(LoadError::NoTimestamps)).unwrap_err(),
        "\"raw.h264\" has no per-frame precision-timestamp SEI and no container timing, so there \
         is nothing for this tool to check"
    );
    assert_eq!(
        report::check_file(
            "a.mp4",
            Some(vec![]),
            Err(LoadError::Other("unreadable".to_string()))
        )
        .unwrap_err(),
        "unreadable"
    );
    assert_eq!(
        report::container_frames("a.mp4", Err(LoadError::NoTimestamps)).unwrap_err(),
        "\"a.mp4\": MP4 has no container sample timing"
    );
    assert_eq!(
        report::container_frames("a.mp4", Err(LoadError::Other("gone".to_string()))).unwrap_err(),
        "gone"
    );
    assert_eq!(
        report::container_frames("a.mp4", Ok(series(&[7]))).unwrap(),
        series(&[7])
    );
    let line = report::unknown_line("a.mp4", "gone");
    assert!(line.flagged);
    assert_eq!(line.text, "UNKNOWN a.mp4  (could not analyze: gone)");
}
