use chrono::{DateTime, Utc};
use media_utils::boxes::{is_mp4_finalized, start_walk, take_header, take_large_size, Walk};
use media_utils::clock::{CaptureTime, FIRST_SEC, LAST_SEC};
use media_utils::fix::FixFrame;
use media_utils::load::{
    build_err, container_for_extension, container_of, no_frame0_time, open_context,
    push_fix_frame, push_frame, Container, LoadError, SourceError,
};
use media_utils::nal::{is_precision_timestamp_sei, is_searchable, starts_coded_video_sequence};

fn mp4_box(kind: &[u8; 4], payload: &[u8]) -> Vec<u8> {
    let mut out = ((payload.len() + 8) as u32).to_be_bytes().to_vec();
    out.extend_from_slice(kind);
    out.extend_from_slice(payload);
    out
}

fn large_box(kind: &[u8; 4], payload: &[u8]) -> Vec<u8> {
    let mut out = 1u32.to_be_bytes().to_vec();
    out.extend_from_slice(kind);
    out.extend_from_slice(&((payload.len() + 16) as u64).to_be_bytes());
    out.extend_from_slice(payload);
    out
}

fn finalized(bytes: &[u8]) -> bool {
    is_mp4_finalized(bytes).unwrap()
}

#[test]
fn a_moov_box_is_found_behind_others() {
    let mut file = mp4_box(b"ftyp", b"isom....");
    file.extend(large_box(b"mdat", &[7; 100]));
    assert!(!finalized(&file));
    let moov_at = file.len();
    file.extend(mp4_box(b"moov", &[1, 2, 3]));
    assert!(finalized(&file));
    // its header is enough, and cutting that off makes it disappear
    assert!(finalized(&file[..moov_at + 8]));
    for cut in 0..moov_at + 8 {
        assert!(!finalized(&file[..cut]), "cut at {cut}");
    }
    // appending does not
    file.extend(mp4_box(b"free", &[0; 20]));
    assert!(finalized(&file));
}

#[test]
fn the_walk_ends_where_a_box_says_so() {
    // size 0: up to the end of the file
    let mut file = vec![0, 0, 0, 0];
    file.extend_from_slice(b"mdat");
    file.extend(mp4_box(b"moov", &[]));
    assert!(!finalized(&file));
    // smaller than its own header
    file[3] = 7;
    assert!(!finalized(&file));
    // a box that is cut off
    file[3] = 200;
    assert!(!finalized(&file));
    assert!(!finalized(&[]));
    assert!(!finalized(&[0, 0, 0, 8, b'm', b'o', b'o']));
    // a 64-bit size smaller than the header, or beyond any file
    let mut large = large_box(b"mdat", &[]);
    large[15] = 3;
    large.extend(mp4_box(b"moov", &[]));
    assert!(!finalized(&large));
    for byte in large[8..16].iter_mut() {
        *byte = 0xff;
    }
    assert!(!finalized(&large));
}

#[test]
fn a_truncated_mdat_is_no_error() {
    let file = large_box(b"mdat", &[1, 2, 3]);
    for cut in 0..=file.len() {
        assert!(!finalized(&file[..cut]), "cut at {cut}");
    }
    assert!(!finalized(&[0, 0, 0, 1, b'm', b'd', b'a', b't']));
    // `moov` inside another box does not count
    assert!(!finalized(&mp4_box(b"mdat", b"\0\0\0\x08moov")));
}

#[test]
fn the_walk_can_be_taken_step_by_step() {
    assert_eq!(start_walk(7), Walk::Ended { moov: false });
    assert_eq!(start_walk(100), Walk::ReadHeader { at: 0 });
    let header = [0, 0, 0, 20, b'f', b't', b'y', b'p'];
    assert_eq!(take_header(0, header, 100), Walk::ReadHeader { at: 20 });
    let large = [0, 0, 0, 1, b'm', b'd', b'a', b't'];
    assert_eq!(take_header(20, large, 100), Walk::ReadLargeSize { at: 20 });
    assert_eq!(take_header(20, large, 36), Walk::ReadLargeSize { at: 20 });
    assert_eq!(take_header(20, large, 35), Walk::Ended { moov: false });
    assert_eq!(
        take_large_size(20, [0, 0, 0, 0, 0, 0, 0, 72], 100),
        Walk::ReadHeader { at: 92 }
    );
    assert_eq!(
        take_large_size(20, [0, 0, 0, 0, 0, 0, 0, 73], 100),
        Walk::Ended { moov: false }
    );
    let moov = [0, 0, 0, 8, b'm', b'o', b'o', b'v'];
    assert_eq!(take_header(92, moov, 100), Walk::Ended { moov: true });
}

#[test]
fn idr_slices_start_a_coded_video_sequence() {
    let idr = vec![0x65u8, 1];
    let other_idr = vec![0x25u8];
    let slice = vec![0x41u8, 2];
    let sps = vec![0x67u8];
    let forbidden = vec![0xe5u8];
    assert!(starts_coded_video_sequence(&vec![sps.clone(), idr.clone()]));
    assert!(starts_coded_video_sequence(&vec![other_idr]));
    assert!(!starts_coded_video_sequence(&vec![sps, slice.clone()]));
    assert!(!starts_coded_video_sequence(&vec![forbidden]));
    assert!(!starts_coded_video_sequence(&vec![]));
    assert!(is_searchable(&vec![idr, vec![]]));
    assert!(!is_searchable(&vec![slice, vec![]]));
}

#[test]
fn precision_timestamps_are_recognized_by_type_and_marker() {
    let mut sei = vec![0x06u8, 5, 28];
    sei.extend_from_slice(b"MISPmicrosectime");
    assert!(is_precision_timestamp_sei(&sei));
    sei.push(0x80);
    assert!(is_precision_timestamp_sei(&sei));
    let mut slice = sei.clone();
    slice[0] = 0x41;
    assert!(!is_precision_timestamp_sei(&slice));
    let mut other = sei.clone();
    other[5] = b's';
    assert!(!is_precision_timestamp_sei(&other));
    assert!(!is_precision_timestamp_sei(&[0x06]));
    assert!(!is_precision_timestamp_sei(&sei[..18]));
}

#[test]
fn the_calendar_has_the_bounds_of_its_clock() {
    assert_eq!(FIRST_SEC, DateTime::<Utc>::MIN_UTC.timestamp());
    assert_eq!(LAST_SEC, DateTime::<Utc>::MAX_UTC.timestamp());
    let last = CaptureTime { secs: LAST_SEC, subsec_ns: 999_999_998 };
    assert_eq!(
        last.after_ns(1),
        Some(CaptureTime { secs: LAST_SEC, subsec_ns: 999_999_999 })
    );
    assert_eq!(last.after_ns(2), None);
    let first = CaptureTime { secs: FIRST_SEC, subsec_ns: 1 };
    assert_eq!(
        first.after_ns(-1),
        Some(CaptureTime { secs: FIRST_SEC, subsec_ns: 0 })
    );
    assert_eq!(first.after_ns(-2), None);
    assert_eq!(first.after_duration(u64::MAX, 0), None);
    assert_eq!(first.after_duration(i64::MAX as u64, 0), None);
}

#[test]
fn times_move_by_whole_and_part_seconds() {
    let t = CaptureTime { secs: 100, subsec_ns: 500_000_000 };
    assert_eq!(
        t.after_ns(1_600_000_000),
        Some(CaptureTime { secs: 102, subsec_ns: 100_000_000 })
    );
    assert_eq!(
        t.after_ns(-600_000_000),
        Some(CaptureTime { secs: 99, subsec_ns: 900_000_000 })
    );
    assert_eq!(
        t.after_duration(3, 500_000_000),
        Some(CaptureTime { secs: 104, subsec_ns: 0 })
    );
    assert_eq!(
        CaptureTime { secs: 0, subsec_ns: 0 }.after_ns(i64::MIN),
        Some(CaptureTime { secs: -9_223_372_037, subsec_ns: 145_224_192 })
    );
}

#[test]
fn the_extension_tells_the_container() {
    assert_eq!(container_of("dir/movie.mp4").unwrap(), Container::Mp4);
    assert_eq!(container_of("MOVIE.Mp4").unwrap(), Container::Mp4);
    assert_eq!(container_of("a.b/raw.H264").unwrap(), Container::AnnexB);
    for path in [
        "movie.mp4/", "movie.mp4//", "d/movie.mp4/.", "movie.mp4/.//./", "clip_12:30:00.mp4",
        "d/a:b.mp4", "..a.mp4", "/movie.mp4", "./movie.mp4", "../movie.mp4", "C:\\rec\\clip.mp4",
        "C:clip.mp4", "t:1/clip.mp4", "//srv/share/x.mp4", "\\\\srv\\share\\d\\x.MP4", "..mp4",
        "C:\\..mp4", "\\x.mp4",
    ] {
        assert_eq!(container_of(path).unwrap(), Container::Mp4, "{path}");
    }
    for path in ["movie.mkv", "mp4", ".mp4", "movie.mp4.bak", "a.mp4/movie", "movie.mp4.", "notes.txt", "C:\\notes.txt", "C:\\notes", "", ".", "..", "/", "a.mp4/..", "./.mp4"] {
        assert_eq!(
            container_of(path).unwrap_err(),
            format!("\"{path}\": unsupported extension (expected .mp4 or .h264)")
        );
    }
    assert_eq!(container_for_extension(Some("MP4")), Some(Container::Mp4));
    assert_eq!(container_for_extension(Some("h265")), None);
    assert_eq!(container_for_extension(None), None);
}

#[test]
fn missing_timestamps_are_told_from_failures() {
    assert!(matches!(
        build_err(SourceError::Timestamps("none".to_string())),
        LoadError::NoTimestamps
    ));
    match build_err(SourceError::Other("broken".to_string())) {
        LoadError::Other(m) => assert_eq!(m, "broken"),
        other => panic!("{other:?}"),
    }
    assert_eq!(
        open_context("a.mp4"),
        "opening \"a.mp4\" (this tool requires per-frame precision-timestamp SEI data, as written \
         by strand-cam / braid)"
    );
    assert_eq!(no_frame0_time("a.mp4"), "\"a.mp4\": source has no frame0 time");
}

#[test]
fn sequences_are_numbered_as_samples_arrive() {
    let idr = vec![vec![0x65u8]];
    let slice = vec![vec![0x41u8]];
    let mut frames = vec![];
    let mut fix_frames: Vec<FixFrame> = vec![];
    for (i, nals) in [&idr, &slice, &idr, &slice, &idr].iter().enumerate() {
        push_frame(&mut frames, i as u128 * 10, 2 * i as i64, nals);
        push_fix_frame(&mut fix_frames, i as u128 * 10, 2 * i as i64, nals.to_vec());
    }
    let cvs: Vec<i64> = frames.iter().map(|f| f.cvs).collect();
    assert_eq!(cvs, vec![0, 0, 1, 1, 2]);
    assert_eq!(frames[3].pts_ns, 30);
    assert_eq!(frames[3].poc, 6);
    assert_eq!(fix_frames[4].cvs, 2);
    assert_eq!(fix_frames[4].display_key(), (2, 8));
    assert_eq!(fix_frames[1].nals, slice);
    // times are kept in 64 bits
    push_frame(&mut frames, u64::MAX as u128 + 6, 0, &slice);
    assert_eq!(frames[5].pts_ns, 5);
    assert_eq!(frames[5].cvs, 2);
    assert_eq!(frames[5].display_key(), (2, 0));
}
