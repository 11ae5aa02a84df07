//! File paths: telling them apart, putting them in order, and expanding what was
//! asked for into the recordings to work on.

use crate::sidecars;
use crate::text;
use glob::Pattern;
use vstd::prelude::*;

verus! {

/// How paths are written on the machine at hand.
#[derive(Debug, Clone, Copy, PartialEq, Eq, Structural)]
pub enum PathStyle {
    /// Parts are separated by `/`.
    Unix,
    /// Parts are separated by `\`, and `/` is taken for it too.
    Windows,
}

/// The characters that separate the parts of a path.
#[derive(Debug, Clone, Copy, PartialEq, Eq, Structural)]
pub enum Separators {
    /// `/` alone.
    Slash,
    /// `/` and `\`.
    Either,
    /// `\` alone.
    Backslash,
}

/// The separators of paths written in this style.
pub open spec fn separators(style: PathStyle) -> Separators {
    match style {
        PathStyle::Unix => Separators::Slash,
        PathStyle::Windows => Separators::Either,
    }
}

/// `c` separates the parts of a path.
pub open spec fn separates(by: Separators, c: char) -> bool {
    match by {
        Separators::Slash => c == '/',
        Separators::Either => c == '/' || c == '\\',
        Separators::Backslash => c == '\\',
    }
}

/// The parts of a path between its separators, empty ones included.
pub open spec fn parts(path: Seq<char>, by: Separators) -> Seq<Seq<char>>
    decreases path.len(),
{
    if path.len() == 0 {
        seq![seq![]]
    } else {
        let earlier = parts(path.drop_last(), by);
        if separates(by, path.last()) {
            earlier.push(seq![])
        } else {
            earlier.drop_last().push(earlier.last().push(path.last()))
        }
    }
}

/// How many characters of `path` come before its first separator.
pub open spec fn part_len(path: Seq<char>, by: Separators) -> nat
    decreases path.len(),
{
    if path.len() == 0 || separates(by, path[0]) {
        0
    } else {
        1 + part_len(path.skip(1), by)
    }
}

/// The characters of a name as numbers above 0.
pub open spec fn codes(name: Seq<char>) -> Seq<u32> {
    name.map_values(|c: char| (c as u32 + 1) as u32)
}

/// What a part of a path contributes to its key. Empty parts contribute nothing, nor
/// does a `.` unless it counts. A `.` comes before a `..`, which comes before a name,
/// and a 0 ends each part, so that a name comes before those it is the start of.
pub open spec fn part_key(part: Seq<char>, dot_counts: bool) -> Seq<u32> {
    if part.len() == 0 {
        seq![]
    } else if part == seq!['.'] {
        if dot_counts {
            seq![3u32, 0u32]
        } else {
            seq![]
        }
    } else if part == seq!['.', '.'] {
        seq![4u32, 0u32]
    } else {
        seq![5u32] + codes(part) + seq![0u32]
    }
}

/// What the first `n` parts of a path contribute to its key. A `.` counts at the very
/// start, and everywhere in a verbatim path.
pub open spec fn parts_key(list: Seq<Seq<char>>, n: int, verbatim: bool) -> Seq<u32>
    decreases n,
{
    if n <= 0 {
        seq![]
    } else {
        parts_key(list, n - 1, verbatim) + part_key(list[n - 1], verbatim || n == 1)
    }
}

/// What all parts of a path contribute to its key.
pub open spec fn names_key(path: Seq<char>, by: Separators, verbatim: bool) -> Seq<u32> {
    let list = parts(path, by);
    parts_key(list, list.len() as int, verbatim)
}

/// What starting at the root contributes to a key: it comes before not doing so.
pub open spec fn root_key(path: Seq<char>, by: Separators) -> Seq<u32> {
    if path.len() > 0 && separates(by, path[0]) {
        seq![2u32, 0u32]
    } else {
        seq![]
    }
}

/// The key of a path, or of what follows its drive letter, part by part.
pub open spec fn body_key(path: Seq<char>, by: Separators) -> Seq<u32> {
    root_key(path, by) + names_key(path, by, false)
}

/// `c` is a letter from A to Z, in either case.
pub open spec fn is_letter(c: char) -> bool {
    ('A' <= c && c <= 'Z') || ('a' <= c && c <= 'z')
}

/// `path` starts with a drive letter and a colon.
pub open spec fn starts_with_drive(path: Seq<char>, style: PathStyle) -> bool {
    style == PathStyle::Windows && path.len() >= 2 && path[1] == ':' && is_letter(path[0])
}

/// A drive letter as a number above 0, the same in either case.
pub open spec fn drive_code(letter: char) -> u32 {
    if 'a' <= letter && letter <= 'z' {
        (letter as u32 - 31) as u32
    } else {
        (letter as u32 + 1) as u32
    }
}

/// `path` is a verbatim one: it starts with `\\?\`, and only `\` separates its parts.
pub open spec fn is_verbatim(path: Seq<char>, style: PathStyle) -> bool {
    style == PathStyle::Windows && path.len() >= 4 && path[0] == '\\' && path[1] == '\\'
        && path[2] == '?' && path[3] == '\\'
}

/// The part of `path` that starts at `from`.
pub open spec fn part_from(path: Seq<char>, from: int) -> Seq<char> {
    path.subrange(from, from + part_len(path.skip(from), Separators::Either))
}

/// Where the share starts in a path that starts with a network share: behind the
/// server.
pub open spec fn share_at(path: Seq<char>) -> int {
    part_from(path, 2).len() + 3int
}

/// `path` starts with two separators, a server, a separator and a share.
pub open spec fn names_share(path: Seq<char>) -> bool {
    &&& path.len() > 2
    &&& separates(Separators::Either, path[0])
    &&& separates(Separators::Either, path[1])
    &&& part_from(path, 2).len() > 0
    &&& share_at(path) < path.len()
    &&& part_from(path, share_at(path)).len() > 0
}

/// Where a network share ends in a path that starts with one.
pub open spec fn share_end(path: Seq<char>) -> int {
    share_at(path) + part_from(path, share_at(path)).len()
}

/// The key by which paths are told apart and ordered, part by part. Verbatim paths
/// come first, then those on a network share, then those with a drive letter, then
/// all others.
pub open spec fn path_key(path: Seq<char>, style: PathStyle) -> Seq<u32> {
    if is_verbatim(path, style) {
        let rest = path.skip(4);
        if starts_with_drive(rest, style) && (rest.len() == 2 || rest[2] == '\\') {
            seq![1u32, 1u32, drive_code(rest[0]), 0u32] + names_key(
                rest.skip(2),
                Separators::Backslash,
                true,
            )
        } else {
            seq![1u32, 1u32, 0u32] + names_key(rest, Separators::Backslash, true)
        }
    } else if style == PathStyle::Windows && names_share(path) {
        seq![1u32, 2u32] + codes(part_from(path, 2)) + seq![0u32] + codes(
            part_from(path, share_at(path)),
        ) + seq![0u32, 2u32, 0u32] + names_key(
            path.skip(share_end(path)),
            Separators::Either,
            false,
        )
    } else if starts_with_drive(path, style) {
        seq![1u32, 3u32, drive_code(path[0]), 0u32] + body_key(path.skip(2), separators(style))
    } else {
        body_key(path, separators(style))
    }
}

/// The two paths name the same file, as far as their text tells.
pub open spec fn same_path(a: Seq<char>, b: Seq<char>, style: PathStyle) -> bool {
    path_key(a, style) == path_key(b, style)
}

/// `a` comes before `b`, entry by entry.
pub open spec fn less(a: Seq<u32>, b: Seq<u32>) -> bool
    decreases a.len(),
{
    if b.len() == 0 {
        false
    } else if a.len() == 0 {
        true
    } else {
        a[0] < b[0] || (a[0] == b[0] && less(a.skip(1), b.skip(1)))
    }
}

proof fn lemma_less_irreflexive(a: Seq<u32>)
    ensures
        !less(a, a),
    decreases a.len(),
{
    if a.len() > 0 {
        lemma_less_irreflexive(a.skip(1));
    }
}

proof fn lemma_less_transitive(a: Seq<u32>, b: Seq<u32>, c: Seq<u32>)
    requires
        less(a, b),
        less(b, c),
    ensures
        less(a, c),
    decreases a.len(),
{
    if a.len() > 0 && a[0] == b[0] && b[0] == c[0] {
        lemma_less_transitive(a.skip(1), b.skip(1), c.skip(1));
    }
}

proof fn lemma_less_total(a: Seq<u32>, b: Seq<u32>)
    ensures
        less(a, b) || less(b, a) || a == b,
    decreases a.len(),
{
    if a.len() > 0 && b.len() > 0 && a[0] == b[0] {
        lemma_less_total(a.skip(1), b.skip(1));
        if a.skip(1) == b.skip(1) {
            assert(a =~= seq![a[0]] + a.skip(1));
            assert(b =~= seq![b[0]] + b.skip(1));
        }
    } else if a.len() == 0 && b.len() == 0 {
        assert(a =~= b);
    }
}

fn is_separator(by: Separators, c: char) -> (yes: bool)
    ensures
        yes == separates(by, c),
{
    match by {
        Separators::Slash => c == '/',
        Separators::Either => c == '/' || c == '\\',
        Separators::Backslash => c == '\\',
    }
}

fn separators_of(style: PathStyle) -> (by: Separators)
    ensures
        by == separators(style),
{
    match style {
        PathStyle::Unix => Separators::Slash,
        PathStyle::Windows => Separators::Either,
    }
}

/// The characters from `from` on.
fn rest_of(chars: &Vec<char>, from: usize) -> (rest: Vec<char>)
    requires
        from <= chars.len(),
    ensures
        rest@ == chars@.skip(from as int),
{
    let mut rest: Vec<char> = Vec::new();
    let mut i: usize = from;
    while i < chars.len()
        invariant
            from <= i <= chars.len(),
            rest@ =~= chars@.subrange(from as int, i as int),
        decreases chars.len() - i,
    {
        rest.push(chars[i]);
        i += 1;
    }
    assert(rest@ =~= chars@.skip(from as int));
    rest
}

/// Where the part that starts at `from` ends.
fn part_end(chars: &Vec<char>, from: usize) -> (end: usize)
    requires
        from <= chars.len(),
    ensures
        end == from + part_len(chars@.skip(from as int), Separators::Either),
        from <= end <= chars.len(),
        end < chars.len() ==> separates(Separators::Either, chars@[end as int]),
    decreases chars.len() - from,
{
    if from == chars.len() || is_separator(Separators::Either, chars[from]) {
        from
    } else {
        assert(chars@.skip(from as int).skip(1) =~= chars@.skip(from + 1));
        part_end(chars, from + 1)
    }
}

/// The parts of a path, as lists of characters.
fn split(chars: &Vec<char>, by: Separators) -> (list: Vec<Vec<char>>)
    ensures
        list@.map_values(|p: Vec<char>| p@) == parts(chars@, by),
{
    let mut done: Vec<Vec<char>> = Vec::new();
    let mut part: Vec<char> = Vec::new();
    let mut i: usize = 0;
    assert(chars@.take(0) =~= seq![]);
    assert(done@.map_values(|p: Vec<char>| p@).push(part@) =~= parts(chars@.take(0), by));
    while i < chars.len()
        invariant
            i <= chars.len(),
            done@.map_values(|p: Vec<char>| p@).push(part@) == parts(chars@.take(i as int), by),
        decreases chars.len() - i,
    {
        let ghost before = done@.map_values(|p: Vec<char>| p@);
        let ghost list = before.push(part@);
        assert(chars@.take(i + 1).drop_last() =~= chars@.take(i as int));
        assert(list.drop_last() =~= before);
        let c: char = chars[i];
        if is_separator(by, c) {
            done.push(part);
            part = Vec::new();
            assert(done@.map_values(|p: Vec<char>| p@) =~= list);
        } else {
            part.push(c);
        }
        i += 1;
    }
    assert(chars@.take(chars@.len() as int) =~= chars@);
    let ghost list = done@.map_values(|p: Vec<char>| p@).push(part@);
    done.push(part);
    assert(done@.map_values(|p: Vec<char>| p@) =~= list);
    done
}

/// Appends the characters from `from` up to `to` as numbers.
fn push_codes(key: &mut Vec<u32>, chars: &Vec<char>, from: usize, to: usize)
    requires
        from <= to <= chars.len(),
    ensures
        final(key)@ == old(key)@ + codes(chars@.subrange(from as int, to as int)),
{
    let ghost start = key@;
    let ghost all = codes(chars@.subrange(from as int, to as int));
    let mut i: usize = from;
    while i < to
        invariant
            from <= i <= to,
            to <= chars.len(),
            all == codes(chars@.subrange(from as int, to as int)),
            key@ =~= start + all.take(i - from),
        decreases to - i,
    {
        let c: char = chars[i];
        let code: u32 = c as u32;
        proof {
            vstd::utf8::char_is_scalar(c);
        }
        key.push(code + 1);
        i += 1;
    }
    assert(all.take(to - from) =~= all);
}

fn push_part_key(key: &mut Vec<u32>, part: &Vec<char>, dot_counts: bool)
    ensures
        final(key)@ == old(key)@ + part_key(part@, dot_counts),
{
    let ghost start = key@;
    let len: usize = part.len();
    if len == 0 {
        assert(key@ =~= start + part_key(part@, dot_counts));
    } else if len == 1 && part[0] == '.' {
        assert(part@ =~= seq!['.']);
        if dot_counts {
            key.push(3);
            key.push(0);
        }
        assert(key@ =~= start + part_key(part@, dot_counts));
    } else if len == 2 && part[0] == '.' && part[1] == '.' {
        assert(part@ =~= seq!['.', '.']);
        assert(part@ != seq!['.']);
        key.push(4);
        key.push(0);
        assert(key@ =~= start + seq![4u32, 0u32]);
    } else {
        assert(part@ != seq!['.'] && part@ != seq!['.', '.']);
        key.push(5);
        push_codes(key, part, 0, len);
        key.push(0);
        assert(part@.subrange(0, len as int) =~= part@);
        assert(key@ =~= start + (seq![5u32] + codes(part@) + seq![0u32]));
    }
}

/// Appends what all parts of a path contribute to its key.
fn push_names_key(key: &mut Vec<u32>, chars: &Vec<char>, by: Separators, verbatim: bool)
    ensures
        final(key)@ == old(key)@ + names_key(chars@, by, verbatim),
{
    let list = split(chars, by);
    let ghost start = key@;
    let ghost all = parts(chars@, by);
    assert(key@ =~= start + parts_key(all, 0, verbatim));
    let mut i: usize = 0;
    while i < list.len()
        invariant
            all == list@.map_values(|p: Vec<char>| p@),
            i <= list.len(),
            key@ == start + parts_key(all, i as int, verbatim),
        decreases list.len() - i,
    {
        assert(all[i as int] == list@[i as int]@);
        push_part_key(key, &list[i], verbatim || i == 0);
        assert(key@ =~= start + parts_key(all, i + 1, verbatim));
        i += 1;
    }
}

/// Appends the key of a path without a prefix.
fn push_body_key(key: &mut Vec<u32>, chars: &Vec<char>, by: Separators)
    ensures
        final(key)@ == old(key)@ + body_key(chars@, by),
{
    let ghost start = key@;
    if chars.len() > 0 && is_separator(by, chars[0]) {
        key.push(2);
        key.push(0);
    }
    assert(key@ =~= start + root_key(chars@, by));
    push_names_key(key, chars, by, false);
    assert(key@ =~= start + body_key(chars@, by));
}

/// Does the path start with a drive letter and a colon?
fn has_drive(chars: &Vec<char>, style: PathStyle) -> (yes: bool)
    ensures
        yes == starts_with_drive(chars@, style),
{
    style == PathStyle::Windows && chars.len() >= 2 && chars[1] == ':' && (('A' <= chars[0]
        && chars[0] <= 'Z') || ('a' <= chars[0] && chars[0] <= 'z'))
}

fn code_of_drive(letter: char) -> (code: u32)
    requires
        is_letter(letter),
    ensures
        code == drive_code(letter),
{
    let code: u32 = letter as u32;
    if 'a' <= letter && letter <= 'z' {
        code - 31
    } else {
        code + 1
    }
}

/// The server and the share that a path starts with: where each of them ends.
fn find_share(chars: &Vec<char>) -> (ends: Option<(usize, usize)>)
    ensures
        ends is Some <==> names_share(chars@),
        ends matches Some((server, share)) ==> {
            &&& server + 1 == share_at(chars@)
            &&& share == share_end(chars@)
            &&& 2 < server < share <= chars@.len()
            &&& part_from(chars@, 2) == chars@.subrange(2, server as int)
            &&& part_from(chars@, share_at(chars@)) == chars@.subrange(server + 1, share as int)
        },
{
    let len: usize = chars.len();
    if len <= 2 || !is_separator(Separators::Either, chars[0]) || !is_separator(
        Separators::Either,
        chars[1],
    ) {
        return None;
    }
    let server: usize = part_end(chars, 2);
    if server == 2 || server >= len - 1 {
        return None;
    }
    let share: usize = part_end(chars, server + 1);
    if share == server + 1 {
        return None;
    }
    Some((server, share))
}

/// Computes the key of a path.
fn key_of(path: &str, style: PathStyle) -> (key: Vec<u32>)
    ensures
        key@ == path_key(path@, style),
{
    let chars = text::chars_of(path);
    let len: usize = chars.len();
    let mut key: Vec<u32> = Vec::new();
    if style == PathStyle::Windows && len >= 4 && chars[0] == '\\' && chars[1] == '\\' && chars[2]
        == '?' && chars[3] == '\\' {
        let rest = rest_of(&chars, 4);
        key.push(1);
        key.push(1);
        if has_drive(&rest, style) && (rest.len() == 2 || rest[2] == '\\') {
            key.push(code_of_drive(rest[0]));
            key.push(0);
            assert(key@ =~= seq![1u32, 1u32, drive_code(rest@[0]), 0u32]);
            let names = rest_of(&rest, 2);
            push_names_key(&mut key, &names, Separators::Backslash, true);
        } else {
            key.push(0);
            assert(key@ =~= seq![1u32, 1u32, 0u32]);
            push_names_key(&mut key, &rest, Separators::Backslash, true);
        }
        return key;
    }
    if style == PathStyle::Windows {
        if let Some((server, share)) = find_share(&chars) {
            key.push(1);
            key.push(2);
            push_codes(&mut key, &chars, 2, server);
            key.push(0);
            push_codes(&mut key, &chars, server + 1, share);
            key.push(0);
            key.push(2);
            key.push(0);
            assert(key@ =~= seq![1u32, 2u32] + codes(part_from(path@, 2)) + seq![0u32] + codes(
                part_from(path@, share_at(path@)),
            ) + seq![0u32, 2u32, 0u32]);
            let names = rest_of(&chars, share);
            push_names_key(&mut key, &names, Separators::Either, false);
            return key;
        }
    }
    if has_drive(&chars, style) {
        key.push(1);
        key.push(3);
        key.push(code_of_drive(chars[0]));
        key.push(0);
        assert(key@ =~= seq![1u32, 3u32, drive_code(path@[0]), 0u32]);
        let body = rest_of(&chars, 2);
        push_body_key(&mut key, &body, separators_of(style));
    } else {
        push_body_key(&mut key, &chars, separators_of(style));
        assert(key@ =~= body_key(path@, separators(style)));
    }
    key
}

/// How one key stands to another.
enum Place {
    Before,
    Same,
    After,
}

fn place(a: &Vec<u32>, b: &Vec<u32>) -> (place: Place)
    ensures
        place is Before <==> less(a@, b@),
        place is Same <==> a@ == b@,
        place is After <==> less(b@, a@),
{
    proof {
        lemma_less_total(a@, b@);
        if a@ == b@ {
            lemma_less_irreflexive(a@);
        }
        if less(a@, b@) && less(b@, a@) {
            lemma_less_transitive(a@, b@, a@);
            lemma_less_irreflexive(a@);
        }
    }
    let mut i: usize = 0;
    assert(a@.skip(0) =~= a@ && b@.skip(0) =~= b@);
    while i < a.len() && i < b.len()
        invariant
            i <= a.len(),
            i <= b.len(),
            forall|j: int| 0 <= j < i ==> a@[j] == b@[j],
            less(a@, b@) <==> less(a@.skip(i as int), b@.skip(i as int)),
            less(b@, a@) <==> less(b@.skip(i as int), a@.skip(i as int)),
        decreases a.len() - i,
    {
        assert(a@.skip(i as int)[0] == a@[i as int]);
        assert(b@.skip(i as int)[0] == b@[i as int]);
        assert(a@.skip(i as int).skip(1) =~= a@.skip(i + 1));
        assert(b@.skip(i as int).skip(1) =~= b@.skip(i + 1));
        if a[i] < b[i] {
            return Place::Before;
        }
        if b[i] < a[i] {
            return Place::After;
        }
        i += 1;
    }
    if a.len() < b.len() {
        Place::Before
    } else if b.len() < a.len() {
        Place::After
    } else {
        assert(a@ =~= b@);
        Place::Same
    }
}

/// Path `k` is the first in `given` that names its file.
pub open spec fn is_first(given: Seq<Seq<char>>, k: int, style: PathStyle) -> bool {
    forall|m: int| 0 <= m < k ==> !same_path(#[trigger] given[m], given[k], style)
}

/// `list` is in order and without duplicates.
pub open spec fn in_order(list: Seq<Seq<char>>, style: PathStyle) -> bool {
    forall|i: int, j: int|
        0 <= i < j < list.len() ==> less(
            path_key(#[trigger] list[i], style),
            path_key(#[trigger] list[j], style),
        )
}

/// Path `i` of `list` is a path given, the first that names its file.
pub open spec fn is_given(
    list: Seq<Seq<char>>,
    i: int,
    given: Seq<Seq<char>>,
    style: PathStyle,
) -> bool {
    exists|k: int| 0 <= k < given.len() && #[trigger] given[k] == list[i] && is_first(given, k, style)
}

/// The file that `path` names is in `list`.
pub open spec fn is_listed(list: Seq<Seq<char>>, path: Seq<char>, style: PathStyle) -> bool {
    exists|i: int| 0 <= i < list.len() && same_path(#[trigger] list[i], path, style)
}

/// `list` is the files that `given` names, deduplicated and sorted, each under the
/// first name given for it.
pub open spec fn is_sorted_set(
    list: Seq<Seq<char>>,
    given: Seq<Seq<char>>,
    style: PathStyle,
) -> bool {
    &&& in_order(list, style)
    &&& forall|i: int| 0 <= i < list.len() ==> #[trigger] is_given(list, i, given, style)
    &&& forall|k: int|
        0 <= k < given.len() ==> is_listed(list, #[trigger] given[k], style)
}

/// Sorting leaves no choice: there is one list of the files that `given` names.
pub proof fn sorted_set_is_unique(
    a: Seq<Seq<char>>,
    b: Seq<Seq<char>>,
    given: Seq<Seq<char>>,
    style: PathStyle,
)
    requires
        is_sorted_set(a, given, style),
        is_sorted_set(b, given, style),
    ensures
        a == b,
{
    lemma_sorted_sets_agree(a, b, given, style, a.len() as int);
    lemma_sorted_sets_agree(b, a, given, style, b.len() as int);
    assert(a =~= b);
}

/// Where is the file named by `a[i]` in `b`?
proof fn lemma_listed_in_other(
    a: Seq<Seq<char>>,
    b: Seq<Seq<char>>,
    given: Seq<Seq<char>>,
    style: PathStyle,
    i: int,
) -> (j: int)
    requires
        is_sorted_set(a, given, style),
        is_sorted_set(b, given, style),
        0 <= i < a.len(),
    ensures
        0 <= j < b.len(),
        same_path(a[i], b[j], style),
        a[i] == b[j],
{
    assert(is_given(a, i, given, style));
    let k = choose|k: int|
        0 <= k < given.len() && #[trigger] given[k] == a[i] && is_first(given, k, style);
    assert(is_listed(b, given[k], style));
    let j = choose|j: int| 0 <= j < b.len() && same_path(#[trigger] b[j], given[k], style);
    assert(is_given(b, j, given, style));
    let m = choose|m: int|
        0 <= m < given.len() && #[trigger] given[m] == b[j] && is_first(given, m, style);
    if m < k {
        assert(!same_path(given[m], given[k], style));
    } else if k < m {
        assert(!same_path(given[k], given[m], style));
    }
    j
}

proof fn lemma_sorted_sets_agree(
    a: Seq<Seq<char>>,
    b: Seq<Seq<char>>,
    given: Seq<Seq<char>>,
    style: PathStyle,
    n: int,
)
    requires
        is_sorted_set(a, given, style),
        is_sorted_set(b, given, style),
        0 <= n <= a.len(),
    ensures
        n <= b.len(),
        forall|i: int| 0 <= i < n ==> a[i] == b[i],
    decreases n,
{
    if n > 0 {
        lemma_sorted_sets_agree(a, b, given, style, n - 1);
        let i = n - 1;
        let j = lemma_listed_in_other(a, b, given, style, i);
        if j < i {
            // a[j] is b[j], which names the file of a[i]
            assert(less(path_key(a[j], style), path_key(a[i], style)));
            lemma_less_irreflexive(path_key(a[i], style));
        } else if j > i {
            let h = lemma_listed_in_other(b, a, given, style, i);
            assert(less(path_key(b[i], style), path_key(b[j], style)));
            lemma_less_irreflexive(path_key(b[i], style));
            if h < i {
                assert(b[h] == a[h]);
                assert(less(path_key(b[h], style), path_key(b[i], style)));
            } else if h > i {
                assert(less(path_key(a[i], style), path_key(a[h], style)));
                lemma_less_transitive(
                    path_key(a[i], style),
                    path_key(a[h], style),
                    path_key(a[i], style),
                );
                lemma_less_irreflexive(path_key(a[i], style));
            }
        }
    }
}

/// Finds where `key` belongs in a sorted list of keys, and whether it is there.
fn find_place(keys: &Vec<Vec<u32>>, key: &Vec<u32>) -> (found: (usize, bool))
    ensures
        found.0 <= keys.len(),
        forall|i: int| 0 <= i < found.0 ==> less((#[trigger] keys@[i])@, key@),
        found.1 ==> found.0 < keys.len() && keys@[found.0 as int]@ == key@,
        !found.1 && found.0 < keys.len() ==> less(key@, keys@[found.0 as int]@),
{
    let mut at: usize = 0;
    while at < keys.len()
        invariant
            at <= keys.len(),
            forall|i: int| 0 <= i < at ==> less((#[trigger] keys@[i])@, key@),
        decreases keys.len() - at,
    {
        match place(&keys[at], key) {
            Place::Before => {},
            Place::Same => {
                return (at, true);
            },
            Place::After => {
                return (at, false);
            },
        }
        at += 1;
    }
    (at, false)
}

/// One more path keeps the list sorted and complete: it is already listed at `at`,
/// or belongs there.
proof fn lemma_one_more(
    list: Seq<Seq<char>>,
    given: Seq<Seq<char>>,
    n: int,
    style: PathStyle,
    at: int,
    present: bool,
)
    requires
        0 <= n < given.len(),
        is_sorted_set(list, given.take(n), style),
        0 <= at <= list.len(),
        forall|i: int|
            0 <= i < at ==> less(path_key(#[trigger] list[i], style), path_key(given[n], style)),
        present ==> at < list.len() && same_path(list[at], given[n], style),
        !present && at < list.len() ==> less(
            path_key(given[n], style),
            path_key(list[at], style),
        ),
    ensures
        is_sorted_set(
            if present {
                list
            } else {
                list.insert(at, given[n])
            },
            given.take(n + 1),
            style,
        ),
{
    let short = given.take(n);
    let long = given.take(n + 1);
    let key = path_key(given[n], style);
    // nothing that was given before changes its standing
    assert forall|k: int| 0 <= k < n && #[trigger] is_first(short, k, style) implies is_first(
        long,
        k,
        style,
    ) by {
        assert forall|m: int| 0 <= m < k implies !same_path(#[trigger] long[m], long[k], style) by {
            assert(long[m] == short[m] && long[k] == short[k]);
        }
    }
    let now = if present {
        list
    } else {
        list.insert(at, given[n])
    };
    assert forall|i: int| 0 <= i < list.len() implies is_given(list, i, long, style) by {
        assert(is_given(list, i, short, style));
        let k = choose|k: int|
            0 <= k < short.len() && #[trigger] short[k] == list[i] && is_first(short, k, style);
        assert(long[k] == list[i] && is_first(long, k, style));
    }
    if present {
        assert forall|i: int| 0 <= i < now.len() implies #[trigger] is_given(
            now,
            i,
            long,
            style,
        ) by {}
        assert forall|k: int| 0 <= k < long.len() implies is_listed(
            now,
            #[trigger] long[k],
            style,
        ) by {
            if k < n {
                assert(long[k] == short[k]);
            } else {
                assert(same_path(now[at], long[k], style));
            }
        }
    } else {
        // the keys from `at` on come after the new one
        assert forall|i: int| at <= i < list.len() implies less(
            key,
            path_key(#[trigger] list[i], style),
        ) by {
            if i > at {
                assert(less(path_key(list[at], style), path_key(list[i], style)));
                lemma_less_transitive(key, path_key(list[at], style), path_key(list[i], style));
            }
        }
        assert forall|i: int, j: int| 0 <= i < j < now.len() implies less(
            path_key(#[trigger] now[i], style),
            path_key(#[trigger] now[j], style),
        ) by {
            let a = if i < at {
                i
            } else {
                i - 1
            };
            let b = if j < at {
                j
            } else {
                j - 1
            };
            if i != at {
                assert(now[i] == list[a]);
            }
            if j != at {
                assert(now[j] == list[b]);
            }
            if i != at && j != at {
                assert(less(path_key(list[a], style), path_key(list[b], style)));
            }
        }
        assert forall|m: int| 0 <= m < n implies !same_path(#[trigger] long[m], long[n], style) by {
            assert(long[m] == short[m]);
            assert(is_listed(list, short[m], style));
            let i = choose|i: int|
                0 <= i < list.len() && same_path(#[trigger] list[i], short[m], style);
            lemma_less_irreflexive(key);
            if i < at {
                assert(less(path_key(list[i], style), key));
            } else {
                assert(less(key, path_key(list[i], style)));
            }
        }
        assert(is_first(long, n, style));
        assert forall|i: int| 0 <= i < now.len() implies #[trigger] is_given(
            now,
            i,
            long,
            style,
        ) by {
            if i == at {
                assert(long[n] == now[i]);
            } else {
                let a = if i < at {
                    i
                } else {
                    i - 1
                };
                assert(now[i] == list[a]);
                assert(is_given(list, a, long, style));
                let k = choose|k: int|
                    0 <= k < long.len() && #[trigger] long[k] == list[a] && is_first(
                        long,
                        k,
                        style,
                    );
                assert(long[k] == now[i]);
            }
        }
        assert forall|k: int| 0 <= k < long.len() implies is_listed(
            now,
            #[trigger] long[k],
            style,
        ) by {
            if k == n {
                assert(same_path(now[at], long[k], style));
            } else {
                assert(long[k] == short[k]);
                assert(is_listed(list, short[k], style));
                let i = choose|i: int|
                    0 <= i < list.len() && same_path(#[trigger] list[i], short[k], style);
                let j = if i < at {
                    i
                } else {
                    i + 1
                };
                assert(now[j] == list[i]);
                assert(same_path(now[j], long[k], style));
            }
        }
    }
}

/// Sorts `given` and drops duplicates, keeping the first name given for a file.
fn sorted_set(given: &Vec<String>, style: PathStyle) -> (list: Vec<String>)
    ensures
        is_sorted_set(text::views(list@), text::views(given@), style),
{
    let ghost all = text::views(given@);
    let mut list: Vec<String> = Vec::new();
    let mut keys: Vec<Vec<u32>> = Vec::new();
    let mut n: usize = 0;
    while n < given.len()
        invariant
            all == text::views(given@),
            n <= given.len(),
            keys.len() == list.len(),
            forall|i: int|
                0 <= i < list.len() ==> (#[trigger] keys@[i])@ == path_key(list@[i]@, style),
            is_sorted_set(text::views(list@), all.take(n as int), style),
        decreases given.len() - n,
    {
        let path: &str = given[n].as_str();
        let key = key_of(path, style);
        let (at, present) = find_place(&keys, &key);
        proof {
            let before = text::views(list@);
            assert(all[n as int] == path@);
            assert forall|i: int| 0 <= i < at implies less(
                path_key(#[trigger] before[i], style),
                path_key(all[n as int], style),
            ) by {
                assert(less(keys@[i]@, key@));
            }
            lemma_one_more(before, all, n as int, style, at as int, present);
        }
        if !present {
            let ghost before = list@;
            list.insert(at, path.to_owned());
            keys.insert(at, key);
            assert(text::views(list@) =~= text::views(before).insert(at as int, all[n as int]));
        }
        n += 1;
    }
    assert(all.take(given.len() as int) =~= all);
    list
}

/// The recordings that `leftovers` belong to, one by one.
pub open spec fn traced(leftovers: Seq<Seq<char>>) -> Seq<Seq<char>>
    decreases leftovers.len(),
{
    if leftovers.len() == 0 {
        seq![]
    } else {
        let earlier = traced(leftovers.drop_last());
        match sidecars::leftover_of(leftovers.last()) {
            Some(mp4) => earlier.push(mp4),
            None => earlier,
        }
    }
}

/// The recordings whose rewrite stage did not finish, told by the files it leaves
/// behind. Gives their `.mp4` paths, deduplicated and sorted; files among
/// `leftovers` that are none are passed over.
///
/// The metadata sidecar is deliberately no sign of an interrupted recording:
/// `-metadata.json` is a generic enough name that another program could own such
/// a file, and it is only ever written together with the SRT sidecar.
pub fn find_interrupted(leftovers: &Vec<String>, style: PathStyle) -> (recordings: Vec<String>)
    ensures
        is_sorted_set(text::views(recordings@), traced(text::views(leftovers@)), style),
        forall|i: int|
            0 <= i < recordings@.len() ==> sidecars::is_mp4_name((#[trigger] recordings@[i])@),
{
    let ghost all = text::views(leftovers@);
    let mut found: Vec<String> = Vec::new();
    let mut i: usize = 0;
    assert(all.take(0) =~= seq![]);
    assert(text::views(found@) =~= traced(all.take(0)));
    while i < leftovers.len()
        invariant
            all == text::views(leftovers@),
            i <= leftovers.len(),
            text::views(found@) == traced(all.take(i as int)),
        decreases leftovers.len() - i,
    {
        assert(all.take(i + 1).drop_last() =~= all.take(i as int));
        assert(all.take(i + 1).last() == leftovers@[i as int]@);
        let ghost before = found@;
        if let Some(mp4) = sidecars::recording_for_leftover(leftovers[i].as_str()) {
            found.push(mp4);
            assert(text::views(found@) =~= text::views(before).push(mp4@));
        }
        i += 1;
    }
    assert(all.take(leftovers.len() as int) =~= all);
    let recordings = sorted_set(&found, style);
    proof {
        let list = text::views(recordings@);
        assert forall|i: int| 0 <= i < recordings@.len() implies sidecars::is_mp4_name(
            (#[trigger] recordings@[i])@,
        ) by {
            assert(list[i] == recordings@[i]@);
            only_interrupted_recordings_are_found(list, all, style, i);
            let k = choose|k: int|
                0 <= k < all.len() && sidecars::leftover_of(#[trigger] all[k]) == Some(list[i]);
            sidecars::only_leftovers_are_traced(all[k]);
        }
    }
    recordings
}

pub(crate) proof fn lemma_traced_contains(leftovers: Seq<Seq<char>>, k: int)
    requires
        0 <= k < leftovers.len(),
        sidecars::leftover_of(leftovers[k]) is Some,
    ensures
        traced(leftovers).contains(sidecars::leftover_of(leftovers[k])->0),
    decreases leftovers.len(),
{
    let mp4 = sidecars::leftover_of(leftovers[k])->0;
    let earlier = leftovers.drop_last();
    if k == leftovers.len() - 1 {
        assert(traced(leftovers)[traced(leftovers).len() - 1] == mp4);
    } else {
        assert(earlier[k] == leftovers[k]);
        lemma_traced_contains(earlier, k);
        let i = choose|i: int| 0 <= i < traced(earlier).len() && traced(earlier)[i] == mp4;
        assert(traced(leftovers)[i] == mp4);
    }
}

proof fn lemma_traced_only(leftovers: Seq<Seq<char>>, i: int)
    requires
        0 <= i < traced(leftovers).len(),
    ensures
        exists|k: int|
            0 <= k < leftovers.len() && sidecars::leftover_of(#[trigger] leftovers[k]) == Some(
                traced(leftovers)[i],
            ),
    decreases leftovers.len(),
{
    let earlier = leftovers.drop_last();
    let last = leftovers.len() - 1;
    if i < traced(earlier).len() {
        lemma_traced_only(earlier, i);
        let k = choose|k: int|
            0 <= k < earlier.len() && sidecars::leftover_of(#[trigger] earlier[k]) == Some(
                traced(earlier)[i],
            );
        assert(leftovers[k] == earlier[k]);
    } else {
        assert(sidecars::leftover_of(leftovers[last]) == Some(traced(leftovers)[i]));
    }
}

/// Every interrupted recording is found: one whose SRT sidecar or rewrite output is
/// among the files found is listed.
pub proof fn interrupted_recordings_are_found(
    recordings: Seq<Seq<char>>,
    leftovers: Seq<Seq<char>>,
    files: sidecars::Sidecars,
    style: PathStyle,
)
    requires
        is_sorted_set(recordings, traced(leftovers), style),
        files.wf(),
        leftovers.contains(files.srt@) || leftovers.contains(files.rewritten@),
    ensures
        is_listed(recordings, files.mp4@, style),
{
    sidecars::leftovers_lead_back(files);
    let k = choose|k: int|
        0 <= k < leftovers.len() && (leftovers[k] == files.srt@ || leftovers[k] == files.rewritten@);
    lemma_traced_contains(leftovers, k);
    let i = choose|i: int| 0 <= i < traced(leftovers).len() && traced(leftovers)[i] == files.mp4@;
    assert(is_listed(recordings, traced(leftovers)[i], style));
}

/// Nothing else is found: every recording listed is one that some leftover file
/// belongs to.
pub proof fn only_interrupted_recordings_are_found(
    recordings: Seq<Seq<char>>,
    leftovers: Seq<Seq<char>>,
    style: PathStyle,
    i: int,
)
    requires
        is_sorted_set(recordings, traced(leftovers), style),
        0 <= i < recordings.len(),
    ensures
        exists|k: int|
            0 <= k < leftovers.len() && sidecars::leftover_of(#[trigger] leftovers[k]) == Some(
                recordings[i],
            ),
{
    let given = traced(leftovers);
    assert(is_given(recordings, i, given, style));
    let k = choose|k: int|
        0 <= k < given.len() && #[trigger] given[k] == recordings[i] && is_first(given, k, style);
    lemma_traced_only(leftovers, k);
}

/// Something named on the command line.
#[derive(Debug)]
pub struct Input {
    pub path: String,
    /// If it is a directory, the interrupted recordings found in it.
    pub found: Option<Vec<String>>,
}

/// The recordings that an input stands for.
pub open spec fn named_by(input: Input) -> Seq<Seq<char>> {
    match input.found {
        Some(list) => text::views(list@),
        None => match sidecars::leftover_of(input.path@) {
            Some(mp4) => seq![mp4],
            None => seq![input.path@],
        },
    }
}

/// The recordings that all the inputs stand for, in the order given.
pub open spec fn named_by_all(inputs: Seq<Input>) -> Seq<Seq<char>>
    decreases inputs.len(),
{
    if inputs.len() == 0 {
        seq![]
    } else {
        named_by_all(inputs.drop_last()) + named_by(inputs.last())
    }
}

/// `given` with later names for the same file dropped, in the order given.
pub open spec fn distinct(given: Seq<Seq<char>>, style: PathStyle) -> Seq<Seq<char>>
    decreases given.len(),
{
    if given.len() == 0 {
        seq![]
    } else {
        let earlier = distinct(given.drop_last(), style);
        if is_listed(earlier, given.last(), style) {
            earlier
        } else {
            earlier.push(given.last())
        }
    }
}

/// Dropping duplicates drops no file and leaves none twice.
pub proof fn distinct_names_every_file_once(given: Seq<Seq<char>>, style: PathStyle)
    ensures
        forall|k: int|
            0 <= k < given.len() ==> is_listed(distinct(given, style), #[trigger] given[k], style),
        forall|i: int, j: int|
            0 <= i < j < distinct(given, style).len() ==> !same_path(
                #[trigger] distinct(given, style)[i],
                #[trigger] distinct(given, style)[j],
                style,
            ),
        forall|i: int|
            0 <= i < distinct(given, style).len() ==> given.contains(
                #[trigger] distinct(given, style)[i],
            ),
    decreases given.len(),
{
    if given.len() > 0 {
        let short = given.drop_last();
        distinct_names_every_file_once(short, style);
        let earlier = distinct(short, style);
        let now = distinct(given, style);
        assert forall|k: int| 0 <= k < given.len() implies is_listed(
            now,
            #[trigger] given[k],
            style,
        ) by {
            if k < short.len() {
                assert(short[k] == given[k]);
                assert(is_listed(earlier, short[k], style));
                let i = choose|i: int|
                    0 <= i < earlier.len() && same_path(#[trigger] earlier[i], short[k], style);
                assert(now[i] == earlier[i]);
                assert(same_path(now[i], given[k], style));
            } else if !is_listed(earlier, given.last(), style) {
                assert(same_path(now[now.len() - 1], given[k], style));
            }
        }
        assert forall|i: int, j: int| 0 <= i < j < now.len() implies !same_path(
            #[trigger] now[i],
            #[trigger] now[j],
            style,
        ) by {
            assert(now[i] == earlier[i]);
            if j < earlier.len() {
                assert(now[j] == earlier[j]);
            }
        }
        assert forall|i: int| 0 <= i < now.len() implies given.contains(#[trigger] now[i]) by {
            if i < earlier.len() {
                assert(now[i] == earlier[i]);
                assert(short.contains(earlier[i]));
                let k = choose|k: int| 0 <= k < short.len() && short[k] == earlier[i];
                assert(given[k] == now[i]);
            } else {
                assert(given[given.len() - 1] == now[i]);
            }
        }
    }
}

fn is_same_key(a: &Vec<u32>, b: &Vec<u32>) -> (same: bool)
    ensures
        same == (a@ == b@),
{
    match place(a, b) {
        Place::Same => true,
        _ => false,
    }
}

/// Adds `path` to `list` unless the file it names is there already.
fn push_distinct(list: &mut Vec<String>, path: &str, style: PathStyle)
    ensures
        text::views(final(list)@) == if is_listed(text::views(old(list)@), path@, style) {
            text::views(old(list)@)
        } else {
            text::views(old(list)@).push(path@)
        },
{
    let ghost before = text::views(list@);
    let key = key_of(path, style);
    let mut i: usize = 0;
    while i < list.len()
        invariant
            before == text::views(list@),
            *list == *old(list),
            key@ == path_key(path@, style),
            i <= list.len(),
            forall|j: int| 0 <= j < i ==> !same_path(#[trigger] before[j], path@, style),
        decreases list.len() - i,
    {
        assert(before[i as int] == list@[i as int]@);
        let other = key_of(list[i].as_str(), style);
        if is_same_key(&other, &key) {
            assert(same_path(before[i as int], path@, style));
            return ;
        }
        i += 1;
    }
    list.push(path.to_owned());
    assert(text::views(list@) =~= before.push(path@));
}

proof fn lemma_distinct_push(given: Seq<Seq<char>>, path: Seq<char>, style: PathStyle)
    ensures
        distinct(given.push(path), style) == if is_listed(distinct(given, style), path, style) {
            distinct(given, style)
        } else {
            distinct(given, style).push(path)
        },
{
    assert(given.push(path).drop_last() =~= given);
}

/// Expands what was asked for into the list of recordings to work on: a directory
/// stands for the interrupted recordings found in it, while a file names one
/// directly (whether it is the recording itself or one of its leftover files).
/// Duplicates are dropped, keeping the order given.
pub fn recordings(inputs: &Vec<Input>, style: PathStyle) -> (list: Vec<String>)
    ensures
        text::views(list@) == distinct(named_by_all(inputs@), style),
{
    let mut list: Vec<String> = Vec::new();
    let mut i: usize = 0;
    assert(inputs@.take(0) =~= seq![]);
    assert(text::views(list@) =~= distinct(named_by_all(inputs@.take(0)), style));
    while i < inputs.len()
        invariant
            i <= inputs.len(),
            text::views(list@) == distinct(named_by_all(inputs@.take(i as int)), style),
        decreases inputs.len() - i,
    {
        let ghost given = named_by_all(inputs@.take(i as int));
        assert(inputs@.take(i + 1).drop_last() =~= inputs@.take(i as int));
        assert(inputs@.take(i + 1).last() == inputs@[i as int]);
        match &inputs[i].found {
            Some(found) => {
                let ghost all = text::views(found@);
                assert(given + all.take(0) =~= given);
                let mut k: usize = 0;
                while k < found.len()
                    invariant
                        all == text::views(found@),
                        k <= found.len(),
                        text::views(list@) == distinct(given + all.take(k as int), style),
                    decreases found.len() - k,
                {
                    proof {
                        assert((given + all.take(k as int)).push(all[k as int]) =~= given
                            + all.take(k + 1));
                        lemma_distinct_push(given + all.take(k as int), all[k as int], style);
                    }
                    push_distinct(&mut list, found[k].as_str(), style);
                    k += 1;
                }
                assert(all.take(found.len() as int) =~= all);
            },
            None => match sidecars::recording_for_leftover(inputs[i].path.as_str()) {
                Some(mp4) => {
                    proof {
                        assert(given.push(mp4@) =~= given + seq![mp4@]);
                        lemma_distinct_push(given, mp4@, style);
                    }
                    push_distinct(&mut list, mp4.as_str(), style);
                },
                None => {
                    let path: &str = inputs[i].path.as_str();
                    proof {
                        assert(given.push(path@) =~= given + seq![path@]);
                        lemma_distinct_push(given, path@, style);
                    }
                    push_distinct(&mut list, path, style);
                },
            },
        }
        i += 1;
    }
    assert(inputs@.take(inputs@.len() as int) =~= inputs@);
    list
}

/// `c` has a meaning of its own in a search pattern.
pub open spec fn is_meta(c: char) -> bool {
    c == '?' || c == '*' || c == '[' || c == ']'
}

/// `text` with each character that means something in a search pattern put in
/// brackets.
pub open spec fn escaped(text: Seq<char>) -> Seq<char>
    decreases text.len(),
{
    if text.len() == 0 {
        seq![]
    } else {
        let c = text.last();
        escaped(text.drop_last()) + if is_meta(c) {
            seq!['[', c, ']']
        } else {
            seq![c]
        }
    }
}

/// Escapes `text` with `glob`'s `Pattern::escape`.
///
/// Relied on: each of `?`, `*`, `[` and `]` is surrounded by brackets, and every
/// other character is kept as it is.
#[verifier::external_body]
fn escape_pattern(text: &str) -> (pattern: String)
    ensures
        pattern@ == escaped(text@),
{
    Pattern::escape(text)
}

/// Nothing has to stand between `dir` and a name below it.
pub open spec fn needs_no_separator(dir: Seq<char>, style: PathStyle) -> bool {
    ||| dir.len() == 0
    ||| separates(separators(style), dir.last())
    ||| dir.len() == 2 && starts_with_drive(dir, style)
}

/// The path of `name` below `dir`.
pub open spec fn below(dir: Seq<char>, name: Seq<char>, style: PathStyle) -> Seq<char> {
    if needs_no_separator(dir, style) {
        dir + name
    } else if style == PathStyle::Windows {
        dir + "\\"@ + name
    } else {
        dir + "/"@ + name
    }
}

/// The path of `name`, which names a file or directory, below `dir`.
fn path_below(dir: &str, name: &str, style: PathStyle) -> (path: String)
    ensures
        path@ == below(dir@, name@, style),
{
    let chars = text::chars_of(dir);
    let len: usize = chars.len();
    let bare_drive: bool = len == 2 && has_drive(&chars, style);
    let mut path = dir.to_owned();
    if len > 0 && !is_separator(separators_of(style), chars[len - 1]) && !bare_drive {
        if style == PathStyle::Windows {
            path.append("\\");
        } else {
            path.append("/");
        }
    }
    path.append(name);
    path
}

/// The pattern that finds files with this suffix anywhere below `dir`.
pub open spec fn search_pattern(
    dir: Seq<char>,
    suffix: Seq<char>,
    style: PathStyle,
) -> Seq<char> {
    below(below(escaped(dir), "**"@, style), "*"@ + suffix, style)
}

/// The patterns that find the files of interrupted recordings anywhere below `dir`:
/// their SRT sidecars, and the output of their rewrite stage.
///
/// The directory name is data, not pattern: a `[` or `*` in it must not be read as
/// a character with a meaning of its own.
pub fn search_patterns(dir: &str, style: PathStyle) -> (patterns: Vec<String>)
    ensures
        text::views(patterns@) == seq![
            search_pattern(dir@, sidecars::SRT_SIDECAR_SUFFIX@, style),
            search_pattern(dir@, sidecars::REWRITTEN_SUFFIX@, style),
        ],
{
    let literal = escape_pattern(dir);
    let anywhere = path_below(literal.as_str(), "**", style);
    let mut patterns: Vec<String> = Vec::new();
    patterns.push(
        path_below(
            anywhere.as_str(),
            text::joined("*", sidecars::SRT_SIDECAR_SUFFIX).as_str(),
            style,
        ),
    );
    patterns.push(
        path_below(
            anywhere.as_str(),
            text::joined("*", sidecars::REWRITTEN_SUFFIX).as_str(),
            style,
        ),
    );
    assert(text::views(patterns@) =~= seq![
        search_pattern(dir@, sidecars::SRT_SIDECAR_SUFFIX@, style),
        search_pattern(dir@, sidecars::REWRITTEN_SUFFIX@, style),
    ]);
    patterns
}

/// Every leftover is traced, in the order found: what two lists lead to is what their
/// files lead to, one list after the other, and one file leads to one recording or none.
pub proof fn leftovers_are_traced_one_by_one(
    a: Seq<Seq<char>>,
    b: Seq<Seq<char>>,
    name: Seq<char>,
    file: Seq<char>,
)
    ensures
        traced(a + b) == traced(a) + traced(b),
        traced(seq![name + "-ffmpeg-rewriter.srt"@]) == seq![name + ".mp4"@],
        traced(seq![name + ".mp4"@ + "-rewritten.mp4"@]) == seq![name + ".mp4"@],
        (forall|stem: Seq<char>|
            file != #[trigger] (stem + "-ffmpeg-rewriter.srt"@) && file != #[trigger] (stem
                + ".mp4"@) + "-rewritten.mp4"@) ==> traced(seq![file]) == Seq::<Seq<char>>::empty(),
    decreases b.len(),
{
    reveal_with_fuel(traced, 2);
    sidecars::leftovers_are_told_by_their_ending(name, file);
    let one = seq![name + "-ffmpeg-rewriter.srt"@];
    let two = seq![name + ".mp4"@ + "-rewritten.mp4"@];
    let three = seq![file];
    assert(one.drop_last() =~= seq![] && two.drop_last() =~= seq![] && three.drop_last() =~= seq![]);
    assert(traced(one) =~= seq![name + ".mp4"@]);
    assert(traced(two) =~= seq![name + ".mp4"@]);
    if b.len() == 0 {
        assert(a + b =~= a);
        assert(traced(a + b) =~= traced(a) + traced(b));
    } else {
        leftovers_are_traced_one_by_one(a, b.drop_last(), name, file);
        assert((a + b).drop_last() =~= a + b.drop_last());
        assert((a + b).last() == b.last());
        assert(traced(a + b) =~= traced(a) + traced(b));
    }
}

/// What is asked for later never changes what was listed before: the list for the first
/// inputs is the start of the list for all. So the order given is kept, and each file is
/// listed under the first name given for it.
pub proof fn earlier_inputs_stay_listed_first(
    given: Seq<Seq<char>>,
    more: Seq<Seq<char>>,
    style: PathStyle,
)
    ensures
        distinct(given, style).len() <= distinct(given + more, style).len(),
        distinct(given + more, style).take(distinct(given, style).len() as int) == distinct(
            given,
            style,
        ),
        given.len() == 1 ==> distinct(given, style) == given,
    decreases more.len(),
{
    if given.len() == 1 {
        assert(given.drop_last() =~= seq![]);
        assert(distinct(given.drop_last(), style) =~= seq![]);
        assert(distinct(given, style) =~= given);
    }
    let start = distinct(given, style);
    if more.len() == 0 {
        assert(given + more =~= given);
        assert(start.take(start.len() as int) =~= start);
    } else {
        earlier_inputs_stay_listed_first(given, more.drop_last(), style);
        assert((given + more).drop_last() =~= given + more.drop_last());
        let before = distinct(given + more.drop_last(), style);
        let now = distinct(given + more, style);
        assert(now.take(start.len() as int) =~= before.take(start.len() as int));
    }
}

/// A directory stands for all that was found in it, a leftover for the recording it
/// belongs to, and any other file for itself; several inputs stand for what each of them
/// does, in the order given.
pub proof fn inputs_stand_for_their_recordings(
    a: Seq<Input>,
    b: Seq<Input>,
    input: Input,
    name: Seq<char>,
)
    ensures
        named_by_all(a + b) == named_by_all(a) + named_by_all(b),
        input.found matches Some(list) ==> named_by_all(seq![input]) == text::views(list@),
        input.found is None && input.path@ == name + "-ffmpeg-rewriter.srt"@ ==> named_by_all(
            seq![input],
        ) == seq![name + ".mp4"@],
        input.found is None && input.path@ == name + ".mp4"@ + "-rewritten.mp4"@ ==> named_by_all(
            seq![input],
        ) == seq![name + ".mp4"@],
        input.found is None && (forall|stem: Seq<char>|
            input.path@ != #[trigger] (stem + "-ffmpeg-rewriter.srt"@) && input.path@
                != #[trigger] (stem + ".mp4"@) + "-rewritten.mp4"@) ==> named_by_all(seq![input])
            == seq![input.path@],
    decreases b.len(),
{
    reveal_with_fuel(named_by_all, 2);
    sidecars::leftovers_are_told_by_their_ending(name, input.path@);
    assert(seq![input].drop_last() =~= seq![]);
    assert(named_by_all(seq![input]) =~= named_by(input));
    if b.len() == 0 {
        assert(a + b =~= a);
        assert(named_by_all(a + b) =~= named_by_all(a) + named_by_all(b));
    } else {
        inputs_stand_for_their_recordings(a, b.drop_last(), input, name);
        assert((a + b).drop_last() =~= a + b.drop_last());
        assert((a + b).last() == b.last());
        assert(named_by_all(a + b) =~= named_by_all(a) + named_by_all(b));
    }
}

/// Escaping goes character by character: each of `?`, `*`, `[` and `]` is put in
/// brackets, every other character stays as it is.
pub proof fn escaping_goes_by_characters(a: Seq<char>, b: Seq<char>, c: char)
    ensures
        escaped(a + b) == escaped(a) + escaped(b),
        c == '?' || c == '*' || c == '[' || c == ']' ==> escaped(seq![c]) == seq!['[', c, ']'],
        c != '?' && c != '*' && c != '[' && c != ']' ==> escaped(seq![c]) == seq![c],
        escaped(seq![]) == Seq::<char>::empty(),
    decreases b.len(),
{
    reveal_with_fuel(escaped, 2);
    assert(seq![c].drop_last() =~= seq![]);
    if c == '?' || c == '*' || c == '[' || c == ']' {
        assert(escaped(seq![c]) =~= seq!['[', c, ']']);
    } else {
        assert(escaped(seq![c]) =~= seq![c]);
    }
    if b.len() == 0 {
        assert(a + b =~= a);
        assert(escaped(a + b) =~= escaped(a) + escaped(b));
    } else {
        escaping_goes_by_characters(a, b.drop_last(), c);
        assert((a + b).drop_last() =~= a + b.drop_last());
        assert((a + b).last() == b.last());
        assert(escaped(a + b) =~= escaped(a) + escaped(b));
    }
}

/// The pattern for a suffix finds files at any depth below the directory, and the
/// directory's name is taken as it is.
pub proof fn searches_go_to_any_depth(dir: Seq<char>, suffix: Seq<char>)
    ensures
        dir.len() > 0 && dir.last() != '/' ==> search_pattern(dir, suffix, PathStyle::Unix)
            == escaped(dir) + "/**/*"@ + suffix,
        dir.len() > 0 && dir.last() == '/' ==> search_pattern(dir, suffix, PathStyle::Unix)
            == escaped(dir) + "**/*"@ + suffix,
        dir.len() == 0 ==> search_pattern(dir, suffix, PathStyle::Unix) == "**/*"@ + suffix,
        dir.len() > 0 && dir.last() != '/' && dir.last() != '\\' && !(dir.len() == 2 && dir[1] == ':'
            && is_letter(dir[0])) ==> search_pattern(dir, suffix, PathStyle::Windows) == escaped(dir)
            + "\\**\\*"@ + suffix,
        dir.len() == 0 ==> search_pattern(dir, suffix, PathStyle::Windows) == "**\\*"@ + suffix,
        dir.len() > 0 && (dir.last() == '/' || dir.last() == '\\') ==> search_pattern(
            dir,
            suffix,
            PathStyle::Windows,
        ) == escaped(dir) + "**\\*"@ + suffix,
        dir.len() == 2 && dir[1] == ':' && is_letter(dir[0]) ==> search_pattern(
            dir,
            suffix,
            PathStyle::Windows,
        ) == escaped(dir) + "**\\*"@ + suffix,
{
    reveal_strlit("/");
    reveal_strlit("\\");
    reveal_strlit("*");
    reveal_strlit("**");
    reveal_strlit("/**/*");
    reveal_strlit("**/*");
    reveal_strlit("\\**\\*");
    reveal_strlit("**\\*");
    let e = escaped(dir);
    lemma_escaped_end(dir);
    let under = below(e, "**"@, PathStyle::Unix);
    assert(under.last() == '*' && under.len() >= 2);
    let over = below(e, "**"@, PathStyle::Windows);
    assert(over.last() == '*' && over.len() >= 2);
    assert(over.len() == 2 ==> over[1] == '*');
    let tail = "*"@ + suffix;
    if dir.len() == 0 {
        assert(search_pattern(dir, suffix, PathStyle::Unix) =~= "**/*"@ + suffix);
    } else if dir.last() == '/' {
        assert(search_pattern(dir, suffix, PathStyle::Unix) =~= e + "**/*"@ + suffix);
    } else {
        assert(search_pattern(dir, suffix, PathStyle::Unix) =~= e + "/**/*"@ + suffix);
    }
    if dir.len() == 0 {
        assert(search_pattern(dir, suffix, PathStyle::Windows) =~= "**\\*"@ + suffix);
    } else if dir.last() == '/' || dir.last() == '\\' {
        assert(search_pattern(dir, suffix, PathStyle::Windows) =~= e + "**\\*"@ + suffix);
    } else if dir.len() == 2 && dir[1] == ':' && is_letter(dir[0]) {
        reveal_with_fuel(escaped, 3);
        assert(dir.drop_last().drop_last() =~= seq![]);
        assert(e =~= dir);
        assert(search_pattern(dir, suffix, PathStyle::Windows) =~= e + "**\\*"@ + suffix);
    } else {
        if e.len() == 2 && starts_with_drive(e, PathStyle::Windows) {
            reveal_with_fuel(escaped, 3);
            if dir.len() == 2 {
                assert(dir.drop_last().drop_last() =~= seq![]);
                assert(e =~= dir);
            } else {
                assert(dir.drop_last() =~= seq![]);
            }
        }
        assert(search_pattern(dir, suffix, PathStyle::Windows) =~= e + "\\**\\*"@ + suffix);
    }
}

proof fn lemma_escaped_end(text: Seq<char>)
    ensures
        escaped(text).len() >= text.len(),
        text.len() == 0 ==> escaped(text).len() == 0,
        text.len() > 0 && (text.last() == '/' || text.last() == '\\') ==> escaped(text).last()
            == text.last(),
        text.len() > 0 && text.last() != '/' ==> escaped(text).last() != '/',
        text.len() > 0 && text.last() != '\\' ==> escaped(text).last() != '\\',
    decreases text.len(),
{
    if text.len() > 0 {
        lemma_escaped_end(text.drop_last());
    }
}

/// Sorting and dropping duplicates lose no file and list none twice, and each file is
/// listed under the first name given for it: path `k` is listed at `found.0`, and path
/// `i` of the list is path `found.1` of those given.
pub proof fn files_are_listed_once_under_their_first_name(
    list: Seq<Seq<char>>,
    given: Seq<Seq<char>>,
    style: PathStyle,
    i: int,
    j: int,
    k: int,
) -> (found: (int, int))
    requires
        is_sorted_set(list, given, style),
        0 <= i < list.len(),
        0 <= j < list.len(),
        0 <= k < given.len(),
    ensures
        0 <= found.0 < list.len(),
        path_key(list[found.0], style) == path_key(given[k], style),
        path_key(list[i], style) == path_key(list[j], style) ==> i == j,
        0 <= found.1 < given.len(),
        given[found.1] == list[i],
        path_key(given[k], style) == path_key(list[i], style) ==> found.1 <= k,
{
    assert(is_listed(list, given[k], style));
    let at = choose|at: int| 0 <= at < list.len() && same_path(#[trigger] list[at], given[k], style);
    assert(is_given(list, i, given, style));
    let first = choose|m: int|
        0 <= m < given.len() && #[trigger] given[m] == list[i] && is_first(given, m, style);
    if k < first {
        assert(!same_path(given[k], given[first], style));
    }
    lemma_less_irreflexive(path_key(list[i], style));
    if i < j {
        assert(less(path_key(list[i], style), path_key(list[j], style)));
    } else if j < i {
        assert(less(path_key(list[j], style), path_key(list[i], style)));
    }
    (at, first)
}

} // verus!
