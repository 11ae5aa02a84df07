use glob::Pattern;
use media_utils::backup::{
    fixed_line, next_backup_path, nothing_to_fix, swap_in, temporary_path, write_contexts,
};
use media_utils::disk::Op;
use media_utils::error::Error;
use media_utils::paths::{find_interrupted, recordings, search_patterns, Input, PathStyle};
use media_utils::sidecars::{recording_for_leftover, Sidecars};
use media_utils::text;
use media_utils::timing::Analysis;
use std::collections::{BTreeMap, BTreeSet};
use std::path::{Path, PathBuf};

fn strings(list: &[&str]) -> Vec<String> {
    list.iter().map(|s| s.to_string()).collect()
}

#[test]
fn sidecar_names_follow_the_recording() {
    let names = Sidecars::for_mp4("dir/x.mp4").unwrap();
    assert_eq!(names.mp4, "dir/x.mp4");
    assert_eq!(names.srt, "dir/x-ffmpeg-rewriter.srt");
    assert_eq!(names.metadata_json, "dir/x-metadata.json");
    assert_eq!(names.rewritten, "dir/x.mp4-rewritten.mp4");
    assert_eq!(Sidecars::for_mp4(".mp4").unwrap().srt, "-ffmpeg-rewriter.srt");
    for bad in ["x.MP4", "x.mp4.bak", "mp4", ""] {
        assert!(matches!(
            Sidecars::for_mp4(bad),
            Err(Error::FilenameDoesNotEndWithMp4)
        ));
    }
    let removed: Vec<String> = names
        .remove()
        .into_iter()
        .map(|op| match op {
            Op::RemoveIfPresent { path } => path,
            other => panic!("{other:?}"),
        })
        .collect();
    assert_eq!(
        removed,
        vec![names.srt.clone(), names.metadata_json.clone(), names.rewritten.clone()]
    );
}

#[test]
fn leftovers_are_traced_to_their_recording() {
    let names = Sidecars::for_mp4("dir/x\u{e9}.mp4").unwrap();
    assert_eq!(recording_for_leftover(&names.srt), Some(names.mp4.clone()));
    assert_eq!(recording_for_leftover(&names.rewritten), Some(names.mp4.clone()));
    assert_eq!(recording_for_leftover(&names.mp4), None);
    assert_eq!(recording_for_leftover(&names.metadata_json), None);
    assert_eq!(recording_for_leftover("x.srt"), None);
    // only the rewrite output of an `.mp4` is one
    assert_eq!(recording_for_leftover("clip-rewritten.mp4"), None);
    assert_eq!(recording_for_leftover("-rewritten.mp4"), None);
    assert_eq!(recording_for_leftover(".mp4-rewritten.mp4"), Some(".mp4".to_string()));
    // a recording named like a rewrite output is one
    assert_eq!(
        recording_for_leftover("x.mp4-rewritten.mp4-rewritten.mp4"),
        Some("x.mp4-rewritten.mp4".to_string())
    );
}

#[test]
fn interrupted_recordings_are_sorted_and_listed_once() {
    let found = find_interrupted(
        &strings(&[
            "d/b-ffmpeg-rewriter.srt",
            "d-x/a-ffmpeg-rewriter.srt",
            "d/a.mp4-rewritten.mp4",
            "d/b.mp4-rewritten.mp4",
            "d/notes.txt",
            "d/clip-rewritten.mp4",
            "d/a-metadata.json",
        ]),
        PathStyle::Unix,
    );
    assert_eq!(found, strings(&["d/a.mp4", "d/b.mp4", "d-x/a.mp4"]));
    assert!(find_interrupted(&vec![], PathStyle::Unix).is_empty());
}

#[test]
fn recordings_are_ordered_as_paths_are() {
    let names = [
        "a/b.mp4", "a.mp4", "a-b/c.mp4", "/a.mp4", "./a.mp4", "../a.mp4", "a//b.mp4", "a/./c.mp4",
        "b.mp4", "a/../b.mp4", "A.mp4", "\u{e9}.mp4", "z/\u{1f600}.mp4", "z/\u{ffff}.mp4",
        "a/b/c.mp4", ".mp4", "..a/b.mp4", "..mp4", ".a/b.mp4", "a./b.mp4", "/./x.mp4", "//x.mp4",
        "././a.mp4", "a.mp4/b.mp4",
    ];
    let leftovers: Vec<String> = names
        .iter()
        .map(|n| format!("{n}-rewritten.mp4"))
        .collect();
    let expected: BTreeSet<PathBuf> = names.iter().map(PathBuf::from).collect();
    let found = find_interrupted(&leftovers, PathStyle::Unix);
    assert!(found.iter().all(|p| p.ends_with(".mp4")));
    let found: Vec<&Path> = found.iter().map(Path::new).collect();
    let expected: Vec<&Path> = expected.iter().map(|p| p.as_path()).collect();
    assert_eq!(found, expected);
}

#[test]
fn paths_are_the_same_where_their_parts_are() {
    let names = [
        "a/b", "a", "a-b/c", "/a", "./a", "../a", "a//b/.", "a/./c", "b", "/", ".", "..", "a/..",
        "A", "", "..a", ".a", "a.", "/./x", "//x", "/x/", "./", "a/", "C:a", "c:a",
    ];
    for a in names {
        for b in names {
            let kept = recordings(&vec![file(a), file(b)], PathStyle::Unix).len();
            assert_eq!(kept == 1, Path::new(a) == Path::new(b), "{a:?} and {b:?}");
        }
    }
}

#[test]
fn drive_letters_are_the_same_in_either_case() {
    let count = |a: &str, b: &str, style| recordings(&vec![file(a), file(b)], style).len();
    assert_eq!(count("c:\\x.mp4", "C:/x.mp4", PathStyle::Windows), 1);
    assert_eq!(count("c:\\x.mp4", "C:x.mp4", PathStyle::Windows), 2);
    assert_eq!(count("c:\\x.mp4", "D:\\x.mp4", PathStyle::Windows), 2);
    assert_eq!(count("c:\\x.mp4", "C:\\X.mp4", PathStyle::Windows), 2);
    assert_eq!(count("c:/x.mp4", "C:/x.mp4", PathStyle::Unix), 2);
}

#[test]
fn network_shares_and_verbatim_paths_are_told_apart() {
    let same = |a: &str, b: &str| {
        recordings(&vec![file(a), file(b)], PathStyle::Windows).len() == 1
    };
    assert!(!same("\\\\s\\h\\a", "\\s\\h\\a"));
    assert!(same("\\\\s\\h\\a", "//s/h//a/."));
    assert!(same("\\\\s\\h", "\\\\s\\h\\"));
    assert!(!same("\\\\s\\h\\a", "\\\\s\\k\\a"));
    assert!(!same("\\\\s\\h\\a", "\\\\S\\h\\a"));
    // without a share, or with a third separator, it is no network path
    assert!(same("\\\\s", "\\s"));
    assert!(same("\\\\\\s\\h", "\\s\\h"));
    // verbatim: only a backslash separates, and every part counts
    assert!(!same("\\\\?\\C:\\a", "C:\\a"));
    assert!(same("\\\\?\\C:\\a", "\\\\?\\c:\\a"));
    assert!(!same("\\\\?\\C:\\a\\b", "\\\\?\\C:\\a/b"));
    assert!(!same("\\\\?\\C:\\a\\.\\b", "\\\\?\\C:\\a\\b"));
    assert!(!same("\\\\?\\pics\\a", "\\\\?\\Pics\\a"));
    let order = recordings(&vec![file("b"), file("\\b")], PathStyle::Windows);
    assert_eq!(order, strings(&["b", "\\b"]));
    let found = find_interrupted(
        &strings(&[
            "a.mp4-rewritten.mp4",
            "\\a.mp4-rewritten.mp4",
            "C:a.mp4-rewritten.mp4",
            "\\\\s\\h\\a.mp4-rewritten.mp4",
            "\\\\?\\C:\\a.mp4-rewritten.mp4",
        ]),
        PathStyle::Windows,
    );
    assert_eq!(
        found,
        strings(&[
            "\\\\?\\C:\\a.mp4", "\\\\s\\h\\a.mp4", "C:a.mp4", "\\a.mp4", "a.mp4",
        ])
    );
}

fn file(path: &str) -> Input {
    Input { path: path.to_string(), found: None }
}

#[test]
fn inputs_are_expanded_in_the_order_given() {
    let list = recordings(
        &vec![
            file("z.mp4"),
            Input {
                path: "dir".to_string(),
                found: Some(strings(&["dir/a.mp4", "dir/b.mp4"])),
            },
            file("dir//b.mp4-rewritten.mp4"),
            file("./z.mp4"),
            file("z-ffmpeg-rewriter.srt"),
            file("notes.txt"),
            Input { path: "empty".to_string(), found: Some(vec![]) },
        ],
        PathStyle::Unix,
    );
    assert_eq!(
        list,
        strings(&["z.mp4", "dir/a.mp4", "dir/b.mp4", "./z.mp4", "notes.txt"])
    );
}

#[test]
fn backslashes_separate_only_where_they_do() {
    let inputs = vec![file("d/a.mp4"), file("d\\a.mp4")];
    assert_eq!(recordings(&inputs, PathStyle::Unix).len(), 2);
    assert_eq!(recordings(&inputs, PathStyle::Windows), strings(&["d/a.mp4"]));
}

#[test]
fn search_patterns_take_the_directory_literally() {
    assert_eq!(
        search_patterns("rec[1]/*?", PathStyle::Unix),
        strings(&[
            "rec[[]1[]]/[*][?]/**/*-ffmpeg-rewriter.srt",
            "rec[[]1[]]/[*][?]/**/*-rewritten.mp4"
        ])
    );
    assert_eq!(
        search_patterns("", PathStyle::Unix),
        strings(&["**/*-ffmpeg-rewriter.srt", "**/*-rewritten.mp4"])
    );
    assert_eq!(
        search_patterns("/", PathStyle::Unix)[0],
        "/**/*-ffmpeg-rewriter.srt"
    );
    assert_eq!(
        search_patterns("C:", PathStyle::Windows)[1],
        "C:**\\*-rewritten.mp4"
    );
    assert_eq!(
        search_patterns("r\\d", PathStyle::Windows)[1],
        "r\\d\\**\\*-rewritten.mp4"
    );
    let dir = "we[ird]*dir?";
    let pattern = Pattern::new(&search_patterns(dir, PathStyle::Unix)[0]).unwrap();
    assert!(pattern.matches("we[ird]*dir?/sub/x-ffmpeg-rewriter.srt"));
    assert!(!pattern.matches("weirdXdirY/sub/x-ffmpeg-rewriter.srt"));
}

#[test]
fn patterns_are_joined_as_paths_are() {
    for dir in ["", "/", "a", "a/", "a/b", "."] {
        let joined = Path::new(dir).join("**").join("*-rewritten.mp4");
        assert_eq!(
            search_patterns(dir, PathStyle::Unix)[1],
            joined.to_str().unwrap()
        );
    }
}

#[test]
fn the_first_free_backup_name_is_taken() {
    let next = |taken: &[&str]| next_backup_path("a.mp4", |p: &str| taken.contains(&p)).unwrap();
    assert_eq!(next(&[]), "a.mp4.bak");
    assert_eq!(next(&["a.mp4.bak"]), "a.mp4.bak.1");
    assert_eq!(next(&["a.mp4.bak", "a.mp4.bak.1"]), "a.mp4.bak.2");
    assert_eq!(next(&["a.mp4.bak", "a.mp4.bak.2"]), "a.mp4.bak.1");
    assert_eq!(next(&["a.mp4.bak.1"]), "a.mp4.bak");
    let many = next_backup_path("a", |p: &str| p != "a.bak.1023").unwrap();
    assert_eq!(many, "a.bak.1023");
}

#[test]
fn a_sound_file_is_only_rewritten_on_demand() {
    let sound = Analysis { num_frames: 12, num_inversions: 0, max_inversion_ns: 0 };
    let broken = Analysis { num_frames: 12, num_inversions: 3, max_inversion_ns: 9 };
    assert_eq!(
        nothing_to_fix("a.mp4", &sound, false).unwrap(),
        "a.mp4: already OK, nothing to fix (12 samples). Pass --force to rewrite anyway."
    );
    assert!(nothing_to_fix("a.mp4", &sound, true).is_none());
    assert!(nothing_to_fix("a.mp4", &broken, false).is_none());
    assert_eq!(
        fixed_line("a.mp4", &broken, "a.mp4.bak"),
        "a.mp4: reassigned 3 of 12 samples' capture times to POC order (original saved as \
         \"a.mp4.bak\")"
    );
}

#[test]
fn the_original_is_moved_aside_first() {
    let tmp = temporary_path("a.mp4");
    assert_eq!(tmp, "a.mp4.mp4-bframe-doctor.tmp");
    let steps = swap_in("a.mp4", &tmp, "a.mp4.bak");
    assert_eq!(steps.len(), 2);
    match (&steps[0].op, &steps[1].op) {
        (Op::Rename { from, to }, Op::Rename { from: from2, to: to2 }) => {
            assert_eq!((from.as_str(), to.as_str()), ("a.mp4", "a.mp4.bak"));
            assert_eq!((from2.as_str(), to2.as_str()), (tmp.as_str(), "a.mp4"));
        }
        other => panic!("{other:?}"),
    }
    assert_eq!(
        steps[0].context,
        "moving original \"a.mp4\" aside to backup \"a.mp4.bak\""
    );
    assert_eq!(
        steps[1].context,
        "moving repaired file into place at \"a.mp4\""
    );
    let (creating, writing) = write_contexts("a.mp4", &tmp);
    assert_eq!(
        creating,
        "creating output file \"a.mp4.mp4-bframe-doctor.tmp\""
    );
    assert_eq!(writing, "writing repaired output for \"a.mp4\"");
}

#[test]
fn every_error_has_its_message() {
    let s = |t: &str| t.to_string();
    let cases = vec![
        (Error::Io(s("e")), "IO error: e"),
        (Error::FfmpegWriter(s("e")), "ffmpeg_writer e"),
        (Error::CannotReencode, "cannot reencode"),
        (Error::FilenameDoesNotEndWithMp4, "filename does not end with '.mp4'"),
        (Error::FilenameNotUnicode, "filename not unicode"),
        (Error::SourceIsNotH264, "source does not contain H264 video"),
        (Error::Mp4WriterError(s("e")), "MP4 writer error: e"),
        (Error::FrameSourceError(s("e")), "frame source error: e"),
        (Error::SerdeJsonError(s("e")), "serde json error: e"),
        (Error::GlobPatternError(s("e")), "glob pattern error: e"),
        (Error::GlobError(s("e")), "glob error: e"),
        (
            Error::IncompleteRewrite {
                mp4_filename: s("a.mp4"),
                frames_written: 120,
                total_frames: 1000,
                reason: s("why"),
            },
            "the rewrite of \"a.mp4\" could cover only 120 of 1000 frames: why",
        ),
        (
            Error::NoFramesRewritten { mp4_filename: s("a.mp4"), reason: s("why") },
            "\"a.mp4\": no frame could be rewritten: why",
        ),
        (
            Error::Mp4NotFinalized { mp4_filename: s("a.mp4") },
            "\"a.mp4\" was never finalized (it has no `moov` box), so its frames cannot be \
             read. Either ffmpeg is still writing it, or ffmpeg itself was killed before it could \
             write the index; in the latter case a tool such as `untrunc` may be able to rebuild it.",
        ),
        (
            Error::OriginalMissing { mp4_filename: s("a.mp4"), rewritten: s("r") },
            "\"a.mp4\" is missing or empty, but the leftover \"r\" of an interrupted rewrite is \
             present. Inspect \"r\" by hand: if it is complete, rename it to \"a.mp4\".",
        ),
        (
            Error::MissingSrtSidecar { mp4_filename: s("a.mp4"), srt: s("t") },
            "\"a.mp4\" still needs its timestamps embedded, but the timestamp sidecar \"t\" is \
             gone, so they are lost.",
        ),
        (
            Error::NoSuchRecording { mp4_filename: s("a.mp4") },
            "\"a.mp4\": no such recording, and none of the files an interrupted one leaves behind \
             are there either.",
        ),
    ];
    for (error, message) in cases {
        assert_eq!(error.message(), message);
    }
}

#[test]
fn texts_are_built_as_expected() {
    assert_eq!(text::decimal(0), "0");
    assert_eq!(text::decimal(u64::MAX), u64::MAX.to_string());
    assert_eq!(text::join(&strings(&["a", "b", "c"]), "; "), "a; b; c");
    assert_eq!(text::join(&strings(&["a"]), "; "), "a");
    assert_eq!(text::join(&vec![], "; "), "");
    assert!(text::same("x\u{e9}", "x\u{e9}"));
    assert!(!text::same("x", "xy"));
    assert_eq!(text::strip_suffix("ab\u{e9}c", "\u{e9}c"), Some("ab"));
}

#[test]
fn the_original_survives_an_interrupted_replacement() {
    for steps_done in 0..=2 {
        let mut files = BTreeMap::new();
        files.insert("a.mp4".to_string(), "original");
        let tmp = temporary_path("a.mp4");
        files.insert(tmp.clone(), "repaired");
        files.insert("a.mp4.bak".to_string(), "older");
        let backup = next_backup_path("a.mp4", |p: &str| files.contains_key(p)).unwrap();
        assert_eq!(backup, "a.mp4.bak.1");
        for step in swap_in("a.mp4", &tmp, &backup).into_iter().take(steps_done) {
            match step.op {
                Op::Rename { from, to } => {
                    let data = files.remove(&from).unwrap();
                    assert!(files.insert(to, data).is_none());
                }
                other => panic!("{other:?}"),
            }
        }
        assert_eq!(files["a.mp4.bak"], "older");
        assert!(files.values().any(|d| *d == "original"));
        if steps_done == 2 {
            assert_eq!(files["a.mp4"], "repaired");
            assert_eq!(files[&backup], "original");
        }
    }
}

#[test]
fn recordings_have_files_of_their_own() {
    let mut all = BTreeSet::new();
    for name in ["a.mp4", "b.mp4", "a-metadata.mp4", "d/a.mp4"] {
        let f = Sidecars::for_mp4(name).unwrap();
        for path in [f.mp4, f.srt, f.metadata_json, f.rewritten] {
            assert!(all.insert(path));
        }
    }
}
