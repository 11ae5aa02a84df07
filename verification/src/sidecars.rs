//! The files that make up one recording.

use crate::disk::Op;
use crate::error::Error;
use crate::text;
use vstd::prelude::*;

verus! {

/// Suffix of the temporary SubRip file holding capture times during recording.
///
/// Appended to the recording's name with the `.mp4` extension removed.
pub const SRT_SIDECAR_SUFFIX: &'static str = "-ffmpeg-rewriter.srt";

/// Suffix of the file holding the camera metadata during recording, so it
/// survives a crash. Appended with the `.mp4` extension removed.
pub const METADATA_SIDECAR_SUFFIX: &'static str = "-metadata.json";

/// Suffix of the file the rewrite stage writes before renaming it over the
/// recording. Appended to the *full* filename, so `x.mp4` becomes
/// `x.mp4-rewritten.mp4`.
pub const REWRITTEN_SUFFIX: &'static str = "-rewritten.mp4";

/// The files that make up one recording: the MP4 itself, the two sidecar files
/// used while recording, and the temporary output of the rewrite stage.
#[derive(Debug)]
pub struct Sidecars {
    /// The recording itself, `<name>.mp4`.
    pub mp4: String,
    /// Capture times written during recording, deleted once they have been
    /// embedded into the MP4.
    pub srt: String,
    /// Camera metadata saved during recording, deleted along with `srt`.
    pub metadata_json: String,
    /// Where the rewrite stage writes its output before renaming it over `mp4`.
    pub rewritten: String,
}

/// `name` ends in `.mp4`.
pub open spec fn is_mp4_name(name: Seq<char>) -> bool {
    text::ends_with(name, ".mp4"@)
}

/// `name` without its `.mp4` ending.
pub open spec fn stem(name: Seq<char>) -> Seq<char> {
    text::without_last(name, ".mp4"@.len())
}

/// `path` is the name of some recording's rewrite output: `<name>.mp4-rewritten.mp4`.
pub open spec fn is_rewrite_output_name(path: Seq<char>) -> bool {
    text::ends_with(path, REWRITTEN_SUFFIX@) && is_mp4_name(
        text::without_last(path, REWRITTEN_SUFFIX@.len()),
    )
}

/// The recording a leftover file belongs to.
pub open spec fn leftover_of(path: Seq<char>) -> Option<Seq<char>> {
    if text::ends_with(path, SRT_SIDECAR_SUFFIX@) {
        Some(text::without_last(path, SRT_SIDECAR_SUFFIX@.len()) + ".mp4"@)
    } else if is_rewrite_output_name(path) {
        Some(text::without_last(path, REWRITTEN_SUFFIX@.len()))
    } else {
        None
    }
}

impl Clone for Sidecars {
    fn clone(&self) -> (copy: Sidecars)
        ensures
            copy.mp4@ == self.mp4@,
            copy.srt@ == self.srt@,
            copy.metadata_json@ == self.metadata_json@,
            copy.rewritten@ == self.rewritten@,
    {
        Sidecars {
            mp4: self.mp4.as_str().to_owned(),
            srt: self.srt.as_str().to_owned(),
            metadata_json: self.metadata_json.as_str().to_owned(),
            rewritten: self.rewritten.as_str().to_owned(),
        }
    }
}

impl Sidecars {
    /// These are the files of the recording `name`.
    pub open spec fn belong_to(self, name: Seq<char>) -> bool {
        &&& is_mp4_name(name)
        &&& self.mp4@ == name
        &&& self.srt@ == stem(name) + SRT_SIDECAR_SUFFIX@
        &&& self.metadata_json@ == stem(name) + METADATA_SIDECAR_SUFFIX@
        &&& self.rewritten@ == name + REWRITTEN_SUFFIX@
    }

    /// These are the files of some recording.
    pub open spec fn wf(self) -> bool {
        self.belong_to(self.mp4@)
    }

    /// The file names used for the recording `mp4_path` (which must end in
    /// `.mp4`).
    pub fn for_mp4(mp4_path: &str) -> (files: Result<Sidecars, Error>)
        ensures
            files is Ok <==> is_mp4_name(mp4_path@),
            files matches Ok(s) ==> s.belong_to(mp4_path@),
            files matches Err(e) ==> e == Error::FilenameDoesNotEndWithMp4,
    {
        match text::strip_suffix(mp4_path, ".mp4") {
            Some(basename) => Ok(
                Sidecars {
                    srt: text::joined(basename, SRT_SIDECAR_SUFFIX),
                    metadata_json: text::joined(basename, METADATA_SIDECAR_SUFFIX),
                    rewritten: text::joined(mp4_path, REWRITTEN_SUFFIX),
                    mp4: mp4_path.to_owned(),
                },
            ),
            None => Err(Error::FilenameDoesNotEndWithMp4),
        }
    }

    /// Deleting the sidecar files (and any leftover rewrite output), whether or
    /// not they are still there.
    pub fn remove(&self) -> (ops: Vec<Op>)
        ensures
            ops@.len() == 3,
            ops@[0] matches Op::RemoveIfPresent { path } && path@ == self.srt@,
            ops@[1] matches Op::RemoveIfPresent { path } && path@ == self.metadata_json@,
            ops@[2] matches Op::RemoveIfPresent { path } && path@ == self.rewritten@,
    {
        let mut ops: Vec<Op> = Vec::new();
        ops.push(Op::RemoveIfPresent { path: self.srt.as_str().to_owned() });
        ops.push(Op::RemoveIfPresent { path: self.metadata_json.as_str().to_owned() });
        ops.push(Op::RemoveIfPresent { path: self.rewritten.as_str().to_owned() });
        ops
    }
}

/// The recording a leftover file belongs to, if `path` is one of the files left
/// behind when a recording is interrupted: its SRT sidecar, or the partial output
/// of the rewrite stage. `None` for anything else, including a plain `.mp4`.
pub fn recording_for_leftover(path: &str) -> (mp4: Option<String>)
    ensures
        mp4 is Some <==> leftover_of(path@) is Some,
        mp4 matches Some(m) ==> leftover_of(path@) == Some(m@) && is_mp4_name(m@),
{
    match text::strip_suffix(path, SRT_SIDECAR_SUFFIX) {
        Some(basename) => {
            let mp4 = text::joined(basename, ".mp4");
            proof {
                lemma_suffix_stripped(basename@, ".mp4"@);
            }
            Some(mp4)
        },
        // Stripping this suffix leaves the recording's own name, `<name>.mp4`.
        None => match text::strip_suffix(path, REWRITTEN_SUFFIX) {
            Some(mp4) => if text::has_suffix(mp4, ".mp4") {
                Some(mp4.to_owned())
            } else {
                None
            },
            None => None,
        },
    }
}

proof fn lemma_suffix_stripped(stem: Seq<char>, suffix: Seq<char>)
    ensures
        text::ends_with(stem + suffix, suffix),
        text::without_last(stem + suffix, suffix.len()) == stem,
{
    let whole = stem + suffix;
    assert(whole.subrange(whole.len() - suffix.len(), whole.len() as int) =~= suffix);
    assert(whole.subrange(0, whole.len() - suffix.len()) =~= stem);
}

/// The last character of the names and suffixes used here.
proof fn lemma_literals()
    ensures
        ".mp4"@.len() == 4,
        SRT_SIDECAR_SUFFIX@.len() == 20,
        METADATA_SIDECAR_SUFFIX@.len() == 14,
        REWRITTEN_SUFFIX@.len() == 14,
        ".mp4"@.last() == '4',
        SRT_SIDECAR_SUFFIX@.last() == 't',
        METADATA_SIDECAR_SUFFIX@.last() == 'n',
        REWRITTEN_SUFFIX@.last() == '4',
        text::ends_with(REWRITTEN_SUFFIX@, ".mp4"@),
{
    reveal_strlit(".mp4");
    reveal_strlit("-ffmpeg-rewriter.srt");
    reveal_strlit("-metadata.json");
    reveal_strlit("-rewritten.mp4");
    assert(REWRITTEN_SUFFIX@.subrange(10, 14) =~= ".mp4"@);
}

proof fn lemma_last_of_suffix(text: Seq<char>, suffix: Seq<char>)
    requires
        text::ends_with(text, suffix),
        suffix.len() > 0,
    ensures
        text.last() == suffix.last(),
{
    let tail = text.subrange(text.len() - suffix.len(), text.len() as int);
    assert(tail.last() == text.last());
}

/// Each leftover file leads back to its recording: the SRT sidecar and the
/// rewrite output are traced to the recording they were named for.
pub proof fn leftovers_lead_back(files: Sidecars)
    requires
        files.wf(),
    ensures
        leftover_of(files.srt@) == Some(files.mp4@),
        leftover_of(files.rewritten@) == Some(files.mp4@),
{
    let name = files.mp4@;
    lemma_literals();
    lemma_suffix_stripped(stem(name), SRT_SIDECAR_SUFFIX@);
    lemma_suffix_stripped(name, REWRITTEN_SUFFIX@);
    assert(stem(name) + ".mp4"@ =~= name) by {
        assert(name.subrange(name.len() - 4, name.len() as int) == ".mp4"@);
        assert(name =~= name.subrange(0, name.len() - 4) + name.subrange(
            name.len() - 4,
            name.len() as int,
        ));
    }
    if text::ends_with(files.rewritten@, SRT_SIDECAR_SUFFIX@) {
        lemma_last_of_suffix(files.rewritten@, SRT_SIDECAR_SUFFIX@);
        lemma_last_of_suffix(files.rewritten@, REWRITTEN_SUFFIX@);
    }
}

/// Nothing else is a leftover: a file traced to a recording is that recording's
/// SRT sidecar or its rewrite output, and what it is traced to is an `.mp4`.
pub proof fn only_leftovers_are_traced(path: Seq<char>)
    ensures
        leftover_of(path) matches Some(name) ==> is_mp4_name(name) && (path == stem(name)
            + SRT_SIDECAR_SUFFIX@ || path == name + REWRITTEN_SUFFIX@),
{
    lemma_literals();
    if text::ends_with(path, SRT_SIDECAR_SUFFIX@) {
        let base = text::without_last(path, SRT_SIDECAR_SUFFIX@.len());
        lemma_suffix_stripped(base, ".mp4"@);
        assert(path =~= base + path.subrange(path.len() - 20, path.len() as int));
    } else if is_rewrite_output_name(path) {
        let name = text::without_last(path, REWRITTEN_SUFFIX@.len());
        assert(path =~= name + path.subrange(path.len() - 14, path.len() as int));
    }
}

/// A plain recording is no leftover, unless its own name is that of another
/// recording's rewrite output.
pub proof fn recording_is_no_leftover(files: Sidecars)
    requires
        files.wf(),
        !is_rewrite_output_name(files.mp4@),
    ensures
        leftover_of(files.mp4@) is None,
{
    lemma_literals();
    if text::ends_with(files.mp4@, SRT_SIDECAR_SUFFIX@) {
        lemma_last_of_suffix(files.mp4@, SRT_SIDECAR_SUFFIX@);
        lemma_last_of_suffix(files.mp4@, ".mp4"@);
    }
}

/// The four files of a recording have four different names.
pub proof fn files_are_distinct(files: Sidecars)
    requires
        files.wf(),
    ensures
        files.mp4@ != files.srt@,
        files.mp4@ != files.metadata_json@,
        files.mp4@ != files.rewritten@,
        files.srt@ != files.metadata_json@,
        files.srt@ != files.rewritten@,
        files.metadata_json@ != files.rewritten@,
{
    let name = files.mp4@;
    lemma_literals();
    lemma_suffix_stripped(stem(name), SRT_SIDECAR_SUFFIX@);
    lemma_suffix_stripped(stem(name), METADATA_SIDECAR_SUFFIX@);
    lemma_suffix_stripped(name, REWRITTEN_SUFFIX@);
    lemma_last_of_suffix(files.mp4@, ".mp4"@);
    lemma_last_of_suffix(files.srt@, SRT_SIDECAR_SUFFIX@);
    lemma_last_of_suffix(files.metadata_json@, METADATA_SIDECAR_SUFFIX@);
    lemma_last_of_suffix(files.rewritten@, REWRITTEN_SUFFIX@);
}

/// Two recordings share no file, but for a recording that is named like the
/// other's rewrite output.
pub proof fn recordings_share_no_file(a: Sidecars, b: Sidecars)
    requires
        a.wf(),
        b.wf(),
        a.mp4@ != b.mp4@,
    ensures
        a.srt@ != b.srt@,
        a.metadata_json@ != b.metadata_json@,
        a.rewritten@ != b.rewritten@,
        a.srt@ != b.mp4@,
        a.srt@ != b.metadata_json@,
        a.srt@ != b.rewritten@,
        a.metadata_json@ != b.mp4@,
        a.metadata_json@ != b.rewritten@,
{
    leftovers_lead_back(a);
    leftovers_lead_back(b);
    lemma_literals();
    lemma_suffix_stripped(stem(a.mp4@), SRT_SIDECAR_SUFFIX@);
    lemma_suffix_stripped(stem(a.mp4@), METADATA_SIDECAR_SUFFIX@);
    lemma_suffix_stripped(stem(b.mp4@), METADATA_SIDECAR_SUFFIX@);
    lemma_suffix_stripped(b.mp4@, REWRITTEN_SUFFIX@);
    lemma_last_of_suffix(a.srt@, SRT_SIDECAR_SUFFIX@);
    lemma_last_of_suffix(a.metadata_json@, METADATA_SIDECAR_SUFFIX@);
    lemma_last_of_suffix(b.mp4@, ".mp4"@);
    lemma_last_of_suffix(b.metadata_json@, METADATA_SIDECAR_SUFFIX@);
    lemma_last_of_suffix(b.rewritten@, REWRITTEN_SUFFIX@);
    if a.metadata_json@ == b.metadata_json@ {
        assert(a.srt@ == b.srt@);
    }
}

/// The files of `<name>.mp4` are named after `<name>`: each has its own ending, and the
/// rewrite output has the whole `.mp4` name in front of its.
pub proof fn files_are_named_after_the_recording(files: Sidecars, name: Seq<char>)
    ensures
        files.belong_to(name + ".mp4"@) <==> {
            &&& files.mp4@ == name + ".mp4"@
            &&& files.srt@ == name + "-ffmpeg-rewriter.srt"@
            &&& files.metadata_json@ == name + "-metadata.json"@
            &&& files.rewritten@ == name + ".mp4"@ + "-rewritten.mp4"@
        },
{
    text::suffix_comes_off_whole(name, name, ".mp4"@);
}

/// A recording is any name with `.mp4` behind it, in lower case, and nothing else is:
/// only such a name has files that belong to it.
pub proof fn recordings_end_in_mp4(path: Seq<char>, name: Seq<char>, files: Sidecars)
    ensures
        is_mp4_name(name + ".mp4"@),
        is_mp4_name(path) ==> exists|start: Seq<char>| path == #[trigger] (start + ".mp4"@),
        is_mp4_name(path) ==> path.len() >= 4 && path[path.len() - 4] == '.' && path[path.len() - 3]
            == 'm' && path[path.len() - 2] == 'p' && path[path.len() - 1] == '4',
        files.belong_to(path) ==> is_mp4_name(path),
{
    reveal_strlit(".mp4");
    text::suffix_comes_off_whole(name, path, ".mp4"@);
    if is_mp4_name(path) {
        let start = text::without_last(path, 4);
        assert(path == start + ".mp4"@);
        let tail = path.subrange(path.len() - 4, path.len() as int);
        assert(tail == ".mp4"@);
        assert(tail[0] == path[path.len() - 4] && tail[1] == path[path.len() - 3] && tail[2]
            == path[path.len() - 2] && tail[3] == path[path.len() - 1]);
    }
}

/// Any SRT sidecar and any rewrite output of an `.mp4` leads to its recording, whatever
/// the name, and nothing else leads anywhere.
pub proof fn leftovers_are_told_by_their_ending(name: Seq<char>, path: Seq<char>)
    ensures
        leftover_of(name + "-ffmpeg-rewriter.srt"@) == Some(name + ".mp4"@),
        leftover_of(name + ".mp4"@ + "-rewritten.mp4"@) == Some(name + ".mp4"@),
        leftover_of(path) matches Some(mp4) ==> exists|stem: Seq<char>|
            mp4 == #[trigger] (stem + ".mp4"@) && (path == stem + "-ffmpeg-rewriter.srt"@ || path
                == stem + ".mp4"@ + "-rewritten.mp4"@),
{
    lemma_literals();
    text::suffix_comes_off_whole(name, name, "-ffmpeg-rewriter.srt"@);
    text::suffix_comes_off_whole(name, name, ".mp4"@);
    let whole = name + ".mp4"@;
    text::suffix_comes_off_whole(whole, whole, "-rewritten.mp4"@);
    if text::ends_with(whole + "-rewritten.mp4"@, SRT_SIDECAR_SUFFIX@) {
        lemma_last_of_suffix(whole + "-rewritten.mp4"@, SRT_SIDECAR_SUFFIX@);
        lemma_last_of_suffix(whole + "-rewritten.mp4"@, REWRITTEN_SUFFIX@);
    }
    only_leftovers_are_traced(path);
    if let Some(mp4) = leftover_of(path) {
        text::suffix_comes_off_whole(mp4, mp4, ".mp4"@);
        assert(mp4 == stem(mp4) + ".mp4"@);
    }
}

} // verus!
