//! Loading samples: which kind of file a path names, why opening one failed, and
//! numbering the coded video sequences as samples arrive.

use crate::fix;
use crate::fix::FixFrame;
use crate::nal;
use crate::paths;
use crate::paths::Separators;
use crate::text;
use crate::timing::LoadedFrame;
use camino::Utf8Path;
use vstd::prelude::*;

verus! {

/// The containers that samples are read from.
#[derive(Debug, Clone, Copy, PartialEq, Eq, Structural)]
pub enum Container {
    /// An MP4 file.
    Mp4,
    /// A raw Annex B `.h264` stream.
    AnnexB,
}

/// `text` in lower case, as Unicode defines it.
pub uninterp spec fn lowercase(text: Seq<char>) -> Seq<char>;

/// An ASCII letter in lower case; other characters as they are.
pub open spec fn ascii_lower(c: char) -> char {
    if 'A' <= c && c <= 'Z' {
        ((c as u32 + 32) as u32) as char
    } else {
        c
    }
}

/// The container that a file extension stands for.
pub open spec fn container_for(extension: Option<Seq<char>>) -> Option<Container> {
    match extension {
        Some(e) => if lowercase(e) == "mp4"@ {
            Some(Container::Mp4)
        } else if lowercase(e) == "h264"@ {
            Some(Container::AnnexB)
        } else {
            None
        },
        None => None,
    }
}

/// The container that an ASCII file extension stands for, in whatever case it is
/// written.
pub open spec fn container_for_ascii(extension: Seq<char>) -> Option<Container> {
    let lower = extension.map_values(|c: char| ascii_lower(c));
    if lower == "mp4"@ {
        Some(Container::Mp4)
    } else if lower == "h264"@ {
        Some(Container::AnnexB)
    } else {
        None
    }
}

/// The last name in a path, passing over separators and `.` parts at its end.
pub open spec fn last_name(path: Seq<char>) -> Seq<char>
    decreases path.len(),
{
    let tail = text::after_last(path, '/');
    if path.len() == 0 {
        seq![]
    } else if path.last() == '/' {
        last_name(path.drop_last())
    } else if tail == seq!['.'] && path.len() > 1 {
        last_name(path.drop_last())
    } else {
        tail
    }
}

/// What stands after the final dot of a file name, provided something stands
/// before that dot. `..` names no file.
pub open spec fn name_extension(name: Seq<char>) -> Option<Seq<char>> {
    let tail = text::after_last(name, '.');
    if name != seq!['.', '.'] && tail.len() + 2 <= name.len() {
        Some(tail)
    } else {
        None
    }
}

/// The extension of the file that `path` names.
pub open spec fn extension_of(path: Seq<char>) -> Option<Seq<char>> {
    name_extension(last_name(path))
}

/// `path` reads the same on every platform: it separates its parts with `/` only,
/// and does not start like a drive or a network share.
pub open spec fn portable(path: Seq<char>) -> bool {
    &&& !path.contains('\\')
    &&& !(path.len() >= 2 && path[1] == ':')
    &&& !(path.len() >= 2 && path[0] == '/' && path[1] == '/')
}

/// What stands after the final dot of `path`; all of it if there is no dot.
pub open spec fn after_dot(path: Seq<char>) -> Seq<char> {
    text::after_last(path, '.')
}

/// What stands before the final dot of `path`, which has one.
pub open spec fn before_dot(path: Seq<char>) -> Seq<char> {
    path.take(path.len() - after_dot(path).len() - 1)
}

/// There is a dot in `path`.
pub open spec fn has_dot(path: Seq<char>) -> bool {
    path.contains('.')
}

/// What `path` starts with stands before its file name on every platform: it does not
/// start with two separators, or with a server's share (the server being neither `?`
/// nor `.`) that is followed by a separator and some of `head`.
pub open spec fn has_plain_start(path: Seq<char>, head: Seq<char>) -> bool {
    ||| path.len() < 2
    ||| !paths::separates(Separators::Either, path[0])
    ||| !paths::separates(Separators::Either, path[1])
    ||| {
        &&& paths::names_share(path)
        &&& paths::part_from(path, 2) != seq!['?']
        &&& paths::part_from(path, 2) != seq!['.']
        &&& paths::share_end(path) + 1 < head.len()
    }
}

/// `path` ends in a file name with an extension, whichever of `/`, `\` and `:` the
/// platform takes for the end of what precedes the name: something other than those
/// stands before the final dot, and neither `/` nor `\` after it. (`..` is no name.)
pub open spec fn ends_in_extension(path: Seq<char>) -> bool {
    let extension = after_dot(path);
    let head = before_dot(path);
    &&& extension.len() < path.len()
    &&& !extension.contains('/')
    &&& !extension.contains('\\')
    &&& head.len() > 0
    &&& head.last() != '/'
    &&& head.last() != '\\'
    &&& head.last() != ':'
    &&& head.last() == '.' ==> extension.len() > 0
    &&& has_plain_start(path, head)
}

/// Takes a path's extension with `camino`'s `Utf8Path::extension`.
///
/// Relied on, for a path that reads the same on every platform: it is what stands
/// after the final dot of the last name in it, absent if that dot is missing or
/// stands first, or if the path ends in `..` or names no file. Separators and `.`
/// parts at the end are passed over.
///
/// Relied on, for a path that ends in a name with an extension however the platform
/// takes it apart: it is what stands after the final dot. A path without a dot has
/// none, and an extension never holds a dot. What is left depends on the platform, as
/// whether `\` or a drive's `:` ends what precedes the name, and is not relied on.
#[verifier::external_body]
fn path_extension(path: &str) -> (extension: Option<String>)
    ensures
        extension matches Some(e) ==> !e@.contains('.'),
        portable(path@) ==> (extension is Some <==> extension_of(path@) is Some),
        portable(path@) ==> (extension matches Some(e) ==> extension_of(path@) == Some(e@)),
        ends_in_extension(path@) ==> extension is Some,
        ends_in_extension(path@) ==> (extension matches Some(e) ==> e@ == after_dot(path@)),
        extension is Some ==> has_dot(path@),
{
    Utf8Path::new(path).extension().map(|e| e.to_owned())
}

/// Lower case by std's `str::to_lowercase`.
///
/// Relied on: the result depends on the text alone, and ASCII text only has its
/// letters replaced.
#[verifier::external_body]
fn to_lower(text: &str) -> (lower: String)
    ensures
        lower@ == lowercase(text@),
        vstd::utf8::is_ascii_chars(text@) ==> lower@ == text@.map_values(|c: char| ascii_lower(c)),
{
    text.to_lowercase()
}

/// The container that a file extension stands for.
pub fn container_for_extension(extension: Option<&str>) -> (container: Option<Container>)
    ensures
        extension matches Some(e) ==> container == container_for(Some(e@)),
        extension is None ==> container is None,
        extension matches Some(e) ==> vstd::utf8::is_ascii_chars(e@) ==> container
            == container_for_ascii(e@),
{
    match extension {
        Some(e) => {
            let lower = to_lower(e);
            if text::same(lower.as_str(), "mp4") {
                Some(Container::Mp4)
            } else if text::same(lower.as_str(), "h264") {
                Some(Container::AnnexB)
            } else {
                None
            }
        },
        None => None,
    }
}

/// The message for a path whose extension stands for no container.
pub open spec fn unsupported_text(path: Seq<char>) -> Seq<char> {
    "\""@ + path + "\": unsupported extension (expected .mp4 or .h264)"@
}

/// The container to open `path` as, or the message saying that there is none.
pub fn container_of(path: &str) -> (container: Result<Container, String>)
    ensures
        container matches Err(message) ==> message@ == unsupported_text(path@),
        portable(path@) ==> container.ok() == container_for(extension_of(path@)),
        portable(path@) ==> (extension_of(path@) matches Some(e) ==> vstd::utf8::is_ascii_chars(e)
            ==> container.ok() == container_for_ascii(e)),
        ends_in_extension(path@) ==> container.ok() == container_for(Some(after_dot(path@))),
        ends_in_extension(path@) && vstd::utf8::is_ascii_chars(after_dot(path@))
            ==> container.ok() == container_for_ascii(after_dot(path@)),
        container is Ok ==> has_dot(path@),
{
    let extension = path_extension(path);
    let found = match &extension {
        Some(e) => container_for_extension(Some(e.as_str())),
        None => container_for_extension(None),
    };
    match found {
        Some(container) => Ok(container),
        None => {
            let mut message = "\"".to_owned();
            message.append(path);
            message.append("\": unsupported extension (expected .mp4 or .h264)");
            Err(message)
        },
    }
}

/// Why a source of samples could not be opened.
#[derive(Debug)]
pub enum SourceError {
    /// The file can be read, but lacks the requested per-frame timestamps.
    Timestamps(String),
    /// Anything else.
    Other(String),
}

/// Failure loading a timing series for one timestamp source.
#[derive(Debug)]
pub enum LoadError {
    /// The file simply lacks the requested per-frame timestamps.
    NoTimestamps,
    /// A real failure (unreadable, unsupported POC type, etc.).
    Other(String),
}

/// Classifies a source-open error: a timestamp error means the requested timing
/// is simply absent; anything else is a real failure.
pub fn build_err(e: SourceError) -> (failure: LoadError)
    ensures
        failure is NoTimestamps <==> e is Timestamps,
        e matches SourceError::Other(message) ==> failure == LoadError::Other(message),
{
    match e {
        SourceError::Timestamps(_) => LoadError::NoTimestamps,
        SourceError::Other(message) => LoadError::Other(message),
    }
}

/// The context given when a file cannot be opened for repair.
pub fn open_context(path: &str) -> (context: String)
    ensures
        context@ == "opening \""@ + path@
            + "\" (this tool requires per-frame precision-timestamp SEI data, as written by strand-cam / braid)"@,
{
    let mut context = "opening \"".to_owned();
    context.append(path);
    context.append(
        "\" (this tool requires per-frame precision-timestamp SEI data, as written by strand-cam / braid)",
    );
    context
}

/// The message for a source that does not say when its first frame was captured.
pub fn no_frame0_time(path: &str) -> (message: String)
    ensures
        message@ == "\""@ + path@ + "\": source has no frame0 time"@,
{
    let mut message = "\"".to_owned();
    message.append(path);
    message.append("\": source has no frame0 time");
    message
}

/// The coded-video-sequence number of the sample that follows `frames`: one more
/// than the last one's if the sample starts a sequence, and 0 for the first sample.
pub open spec fn next_cvs(frames: Seq<LoadedFrame>, starts: bool) -> int {
    if frames.len() == 0 {
        0
    } else if starts {
        frames.last().cvs + 1
    } else {
        frames.last().cvs as int
    }
}

/// Adds a sample to the timing series being loaded. `timestamp_ns` is kept in 64
/// bits.
pub fn push_frame(
    frames: &mut Vec<LoadedFrame>,
    timestamp_ns: u128,
    poc: i64,
    nals: &Vec<Vec<u8>>,
)
    requires
        nal::searchable(nal::units(nals@)),
        next_cvs(old(frames)@, nal::starts_sequence(nal::units(nals@))) <= i64::MAX,
    ensures
        final(frames)@ == old(frames)@.push(
            (LoadedFrame {
                pts_ns: timestamp_ns as i64,
                poc,
                cvs: next_cvs(old(frames)@, nal::starts_sequence(nal::units(nals@))) as i64,
            }),
        ),
        final(frames)@.last().cvs == if old(frames)@.len() == 0 {
            0
        } else if exists|i: int|
            0 <= i < nals@.len() && (#[trigger] nals@[i])@.len() > 0 && nals@[i]@[0] < 128
                && nals@[i]@[0] % 32 == 5 {
            old(frames)@.last().cvs + 1
        } else {
            old(frames)@.last().cvs as int
        },
{
    let starts = nal::starts_coded_video_sequence(nals);
    let count: usize = frames.len();
    let cvs: i64 = if count == 0 {
        0
    } else if starts {
        frames[count - 1].cvs + 1
    } else {
        frames[count - 1].cvs
    };
    frames.push(LoadedFrame { pts_ns: timestamp_ns as i64, poc, cvs });
}

/// Adds a sample, NAL units included, to the frames being loaded for repair.
/// `timestamp_ns` is kept in 64 bits.
pub fn push_fix_frame(
    frames: &mut Vec<FixFrame>,
    timestamp_ns: u128,
    poc: i64,
    nals: Vec<Vec<u8>>,
)
    requires
        nal::searchable(nal::units(nals@)),
        next_cvs(fix::timed(old(frames)@), nal::starts_sequence(nal::units(nals@))) <= i64::MAX,
    ensures
        final(frames)@ == old(frames)@.push(
            (FixFrame {
                pts_ns: timestamp_ns as i64,
                poc,
                cvs: next_cvs(
                    fix::timed(old(frames)@),
                    nal::starts_sequence(nal::units(nals@)),
                ) as i64,
                nals,
            }),
        ),
        final(frames)@.last().cvs == if old(frames)@.len() == 0 {
            0
        } else if exists|i: int|
            0 <= i < nals@.len() && (#[trigger] nals@[i])@.len() > 0 && nals@[i]@[0] < 128
                && nals@[i]@[0] % 32 == 5 {
            old(frames)@.last().cvs + 1
        } else {
            old(frames)@.last().cvs as int
        },
{
    let starts = nal::starts_coded_video_sequence(&nals);
    let count: usize = frames.len();
    let cvs: i64 = if count == 0 {
        0
    } else if starts {
        frames[count - 1].cvs + 1
    } else {
        frames[count - 1].cvs
    };
    frames.push(FixFrame { pts_ns: timestamp_ns as i64, poc, cvs, nals });
}

/// A sample as it comes in: its timestamp, its picture order count, and whether
/// it starts a coded video sequence.
pub ghost struct Arrival {
    pub timestamp_ns: u128,
    pub poc: i64,
    pub starts: bool,
}

/// The timing series that loading `arrivals` one by one leads to.
pub open spec fn loaded(arrivals: Seq<Arrival>) -> Seq<LoadedFrame>
    decreases arrivals.len(),
{
    if arrivals.len() == 0 {
        seq![]
    } else {
        let earlier = loaded(arrivals.drop_last());
        let a = arrivals.last();
        earlier.push(
            LoadedFrame {
                pts_ns: a.timestamp_ns as i64,
                poc: a.poc,
                cvs: next_cvs(earlier, a.starts) as i64,
            },
        )
    }
}

/// How many of the first `n` samples, the very first left out, start a sequence.
pub open spec fn starts_among(arrivals: Seq<Arrival>, n: int) -> int
    decreases n,
{
    if n <= 1 {
        0
    } else {
        starts_among(arrivals, n - 1) + if arrivals[n - 1].starts {
            1int
        } else {
            0int
        }
    }
}

/// Every loaded sample is numbered with the count of sequence starts up to and
/// including itself, the first sample's own not counted.
pub proof fn sequences_are_numbered_in_order(arrivals: Seq<Arrival>)
    requires
        arrivals.len() <= i64::MAX,
    ensures
        loaded(arrivals).len() == arrivals.len(),
        forall|i: int|
            0 <= i < arrivals.len() ==> {
                &&& (#[trigger] loaded(arrivals)[i]).cvs == starts_among(arrivals, i + 1)
                &&& loaded(arrivals)[i].poc == arrivals[i].poc
                &&& loaded(arrivals)[i].pts_ns == arrivals[i].timestamp_ns as i64
            },
    decreases arrivals.len(),
{
    if arrivals.len() > 0 {
        let earlier = arrivals.drop_last();
        sequences_are_numbered_in_order(earlier);
        let n = arrivals.len() - 1;
        assert forall|i: int| 0 <= i <= n implies starts_among(earlier, i) == starts_among(
            arrivals,
            i,
        ) by {
            lemma_starts_agree(earlier, arrivals, i);
        }
        lemma_starts_bounded(arrivals, n + 1);
        if n > 0 {
            assert(loaded(earlier)[n - 1].cvs == starts_among(earlier, n));
        }
        assert forall|i: int| 0 <= i < arrivals.len() implies {
            &&& (#[trigger] loaded(arrivals)[i]).cvs == starts_among(arrivals, i + 1)
            &&& loaded(arrivals)[i].poc == arrivals[i].poc
            &&& loaded(arrivals)[i].pts_ns == arrivals[i].timestamp_ns as i64
        } by {
            if i < n {
                assert(loaded(arrivals)[i] == loaded(earlier)[i]);
                assert(earlier[i] == arrivals[i]);
                assert(starts_among(earlier, i + 1) == starts_among(arrivals, i + 1));
            }
        }
    }
}

proof fn lemma_starts_agree(a: Seq<Arrival>, b: Seq<Arrival>, n: int)
    requires
        n <= a.len() <= b.len(),
        a == b.take(a.len() as int),
    ensures
        starts_among(a, n) == starts_among(b, n),
    decreases n,
{
    if n > 1 {
        lemma_starts_agree(a, b, n - 1);
        assert(a[n - 1] == b[n - 1]);
    }
}

proof fn lemma_starts_bounded(arrivals: Seq<Arrival>, n: int)
    requires
        n >= 1,
    ensures
        0 <= starts_among(arrivals, n) < n,
    decreases n,
{
    if n > 1 {
        lemma_starts_bounded(arrivals, n - 1);
    }
}

/// A sample takes the number of the one before it, one more if one of its units is an
/// IDR slice (a first byte below 128 with 5 in its low five bits), and the first sample
/// takes 0. So a sample whose units are all of other types stays in its sequence.
pub proof fn only_idr_slices_raise_the_number(frames: Seq<LoadedFrame>, nals: Seq<Seq<u8>>)
    requires
        nal::searchable(nals),
    ensures
        frames.len() == 0 ==> next_cvs(frames, nal::starts_sequence(nals)) == 0,
        frames.len() > 0 && (exists|i: int|
            0 <= i < nals.len() && (#[trigger] nals[i]).len() > 0 && nals[i][0] < 128 && nals[i][0]
                % 32 == 5) ==> next_cvs(frames, nal::starts_sequence(nals)) == frames.last().cvs + 1,
        frames.len() > 0 && !(exists|i: int|
            0 <= i < nals.len() && (#[trigger] nals[i]).len() > 0 && nals[i][0] < 128 && nals[i][0]
                % 32 == 5) ==> next_cvs(frames, nal::starts_sequence(nals)) == frames.last().cvs,
{
    nal::sequence_starts_with_an_idr_slice(nals);
}

/// The three letters of `mp4` and the four of `h264`, each letter in either case, stand
/// for a container, and no other ASCII extension does.
pub proof fn two_extensions_stand_for_a_container(extension: Seq<char>)
    ensures
        container_for_ascii(extension) == Some(Container::Mp4) <==> extension.len() == 3 && (
        extension[0] == 'm' || extension[0] == 'M') && (extension[1] == 'p' || extension[1] == 'P')
            && extension[2] == '4',
        container_for_ascii(extension) == Some(Container::AnnexB) <==> extension.len() == 4 && (
        extension[0] == 'h' || extension[0] == 'H') && extension[1] == '2' && extension[2] == '6'
            && extension[3] == '4',
{
    reveal_strlit("mp4");
    reveal_strlit("h264");
    let lower = extension.map_values(|c: char| ascii_lower(c));
    assert forall|i: int| 0 <= i < extension.len() implies lower[i] == ascii_lower(
        #[trigger] extension[i],
    ) by {}
    assert(lower.len() == extension.len());
    if extension.len() == 3 {
        lemma_lower(extension[0]);
        lemma_lower(extension[1]);
        lemma_lower(extension[2]);
        if lower[0] == 'm' && lower[1] == 'p' && lower[2] == '4' {
            assert(lower =~= "mp4"@);
        }
    }
    if extension.len() == 4 {
        lemma_lower(extension[0]);
        lemma_lower(extension[1]);
        lemma_lower(extension[2]);
        lemma_lower(extension[3]);
        if lower[0] == 'h' && lower[1] == '2' && lower[2] == '6' && lower[3] == '4' {
            assert(lower =~= "h264"@);
        }
    }
}

proof fn lemma_lower(c: char)
    ensures
        ascii_lower(c) == 'm' <==> c == 'm' || c == 'M',
        ascii_lower(c) == 'p' <==> c == 'p' || c == 'P',
        ascii_lower(c) == 'h' <==> c == 'h' || c == 'H',
        ascii_lower(c) == '2' <==> c == '2',
        ascii_lower(c) == '4' <==> c == '4',
        ascii_lower(c) == '6' <==> c == '6',
{
    if 'A' <= c && c <= 'Z' {
        let n = (c as u32 + 32) as u32;
        assert(97 <= n <= 122);
        assert(ascii_lower(c) as u32 == n);
    }
}

/// In a path of parts separated by `/`, the extension is what follows the last dot of
/// the last name, if something precedes that dot; separators and `.` parts behind the
/// name change nothing.
pub proof fn extension_follows_the_last_dot(dir: Seq<char>, stem: Seq<char>, extension: Seq<char>)
    requires
        dir.len() == 0 || dir.last() == '/',
        stem.len() > 0,
        forall|i: int| 0 <= i < stem.len() ==> #[trigger] stem[i] != '/',
        forall|i: int|
            0 <= i < extension.len() ==> #[trigger] extension[i] != '/' && extension[i] != '.',
        !(stem == seq!['.'] && extension.len() == 0),
    ensures
        extension_of(dir + stem + seq!['.'] + extension) == Some(extension),
        extension_of((dir + stem + seq!['.'] + extension).push('/')) == Some(extension),
        extension_of((dir + stem + seq!['.'] + extension).push('/').push('.')) == Some(extension),
{
    let name = stem + seq!['.'] + extension;
    let path = dir + stem + seq!['.'] + extension;
    assert(path =~= dir + name);
    assert forall|i: int| 0 <= i < name.len() implies #[trigger] name[i] != '/' by {
        if i < stem.len() {
            assert(name[i] == stem[i]);
        } else if i > stem.len() {
            assert(name[i] == extension[i - stem.len() - 1]);
        }
    }
    if dir.len() == 0 {
        assert(path =~= name);
        text::tail_starts_behind_the_last_mark(seq![], name, '/');
    } else {
        assert(path =~= dir.drop_last().push('/') + name);
        text::tail_starts_behind_the_last_mark(dir.drop_last(), name, '/');
    }
    assert(path.last() == name.last());
    assert(name[name.len() - 1] != '/');
    assert(name.len() >= 2);
    assert(last_name(path) == name);
    assert(name =~= stem.push('.') + extension);
    text::tail_starts_behind_the_last_mark(stem, extension, '.');
    if name == seq!['.', '.'] {
        assert(stem.len() == 1 && extension.len() == 0);
        assert(stem[0] == name[0]);
        assert(stem =~= seq!['.']);
    }
    let behind = path.push('/');
    assert(behind.drop_last() =~= path);
    let dotted = behind.push('.');
    assert(dotted.drop_last() =~= behind);
    assert(dotted =~= path.push('/') + seq!['.']);
    text::tail_starts_behind_the_last_mark(path, seq!['.'], '/');
}

/// A name without a dot, or with a dot at its very start only, has no extension.
pub proof fn names_without_an_extension(dir: Seq<char>, name: Seq<char>)
    requires
        dir.len() == 0 || dir.last() == '/',
        name.len() > 0,
        forall|i: int| 0 <= i < name.len() ==> #[trigger] name[i] != '/',
        forall|i: int| 0 < i < name.len() ==> #[trigger] name[i] != '.',
    ensures
        name != seq!['.'] ==> extension_of(dir + name) is None,
{
    let path = dir + name;
    if name != seq!['.'] {
        if dir.len() == 0 {
            assert(path =~= name);
            text::tail_starts_behind_the_last_mark(seq![], name, '/');
        } else {
            assert(path =~= dir.drop_last().push('/') + name);
            text::tail_starts_behind_the_last_mark(dir.drop_last(), name, '/');
        }
        assert(path.last() == name.last());
        assert(name[name.len() - 1] != '/');
        assert(last_name(path) == name);
        if name[0] == '.' {
            let tail = name.skip(1);
            assert(name =~= Seq::<char>::empty().push('.') + tail);
            assert forall|i: int| 0 <= i < tail.len() implies #[trigger] tail[i] != '.' by {
                assert(tail[i] == name[i + 1]);
            }
            text::tail_starts_behind_the_last_mark(seq![], tail, '.');
        } else {
            text::tail_starts_behind_the_last_mark(seq![], name, '.');
        }
    }
}

/// The message for an unsupported file holds its whole path.
pub proof fn unsupported_files_are_named(a: Seq<char>, b: Seq<char>)
    ensures
        unsupported_text(a) == "\""@ + a + "\": unsupported extension (expected .mp4 or .h264)"@,
        unsupported_text(a) == unsupported_text(b) ==> a == b,
{
    let tail = "\": unsupported extension (expected .mp4 or .h264)"@;
    let x = unsupported_text(a);
    let y = unsupported_text(b);
    if x == y {
        assert(x.len() == y.len());
        assert(a =~= x.subrange("\""@.len() as int, x.len() - tail.len()));
        assert(b =~= y.subrange("\""@.len() as int, y.len() - tail.len()));
    }
}

/// An extension stands for a container exactly if it reads `mp4` or `h264` in lower
/// case; without an extension there is none.
pub proof fn containers_go_by_the_extension_in_lower_case(extension: Seq<char>)
    ensures
        container_for(Some(extension)) == Some(Container::Mp4) <==> lowercase(extension) == "mp4"@,
        container_for(Some(extension)) == Some(Container::AnnexB) <==> lowercase(extension)
            == "h264"@,
        container_for(None) is None,
{
    reveal_strlit("mp4");
    reveal_strlit("h264");
    assert("mp4"@.len() != "h264"@.len());
}

} // verus!
