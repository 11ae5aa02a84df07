//! What the text of a path says: the names in it decide which paths are the same and
//! which comes first.

use crate::paths;
use crate::paths::{PathStyle, Separators};
use crate::sidecars;
use crate::text;
use vstd::prelude::*;

verus! {

/// The first `n` of these parts without those that say nothing: empty ones, and a `.`
/// anywhere but at the very start, unless the path is a verbatim one.
pub open spec fn telling(list: Seq<Seq<char>>, n: int, verbatim: bool) -> Seq<Seq<char>>
    decreases n,
{
    if n <= 0 {
        seq![]
    } else {
        let earlier = telling(list, n - 1, verbatim);
        let part = list[n - 1];
        if part.len() == 0 || (part == seq!['.'] && !verbatim && n > 1) {
            earlier
        } else {
            earlier.push(part)
        }
    }
}

/// The names in a path.
pub open spec fn names(path: Seq<char>, by: Separators, verbatim: bool) -> Seq<Seq<char>> {
    telling(paths::parts(path, by), paths::parts(path, by).len() as int, verbatim)
}

/// `a` comes before `b` in a dictionary, going by code points.
pub open spec fn text_before(a: Seq<char>, b: Seq<char>) -> bool
    decreases a.len(),
{
    b.len() > 0 && (a.len() == 0 || (a[0] as u32) < (b[0] as u32) || (a[0] == b[0] && text_before(
        a.skip(1),
        b.skip(1),
    )))
}

/// The part `a` comes before the part `b`: `.` first, then `..`, then names as in a
/// dictionary.
pub open spec fn part_before(a: Seq<char>, b: Seq<char>) -> bool {
    if a == seq!['.'] {
        b != seq!['.']
    } else if a == seq!['.', '.'] {
        b != seq!['.'] && b != seq!['.', '.']
    } else {
        b != seq!['.'] && b != seq!['.', '.'] && text_before(a, b)
    }
}

/// The list of names `a` comes before `b`: the first two names that differ decide, and
/// a list comes before those it is the start of.
pub open spec fn names_before(a: Seq<Seq<char>>, b: Seq<Seq<char>>) -> bool
    decreases a.len(),
{
    if b.len() == 0 {
        false
    } else if a.len() == 0 {
        true
    } else if a[0] == b[0] {
        names_before(a.skip(1), b.skip(1))
    } else {
        part_before(a[0], b[0])
    }
}

spec fn flat(list: Seq<Seq<char>>) -> Seq<u32>
    decreases list.len(),
{
    if list.len() == 0 {
        seq![]
    } else {
        paths::part_key(list[0], true) + flat(list.skip(1))
    }
}

proof fn lemma_flat_push(list: Seq<Seq<char>>, part: Seq<char>)
    ensures
        flat(list.push(part)) == flat(list) + paths::part_key(part, true),
    decreases list.len(),
{
    let long = list.push(part);
    let key = paths::part_key(part, true);
    if list.len() == 0 {
        assert(long.skip(1) =~= seq![]);
        assert(flat(long.skip(1)) =~= seq![]);
        assert(flat(long) =~= flat(list) + key);
    } else {
        assert(long.skip(1) =~= list.skip(1).push(part));
        lemma_flat_push(list.skip(1), part);
        assert(flat(long) =~= flat(list) + key);
    }
}

proof fn lemma_key_is_flat(list: Seq<Seq<char>>, n: int, verbatim: bool)
    requires
        n <= list.len(),
    ensures
        paths::parts_key(list, n, verbatim) == flat(telling(list, n, verbatim)),
        forall|i: int|
            0 <= i < telling(list, n, verbatim).len() ==> (#[trigger] telling(
                list,
                n,
                verbatim,
            )[i]).len() > 0,
    decreases n,
{
    if n > 0 {
        lemma_key_is_flat(list, n - 1, verbatim);
        let earlier = telling(list, n - 1, verbatim);
        let part = list[n - 1];
        lemma_flat_push(earlier, part);
        assert(paths::parts_key(list, n, verbatim) =~= flat(telling(list, n, verbatim)));
    }
}

proof fn lemma_less_behind(start: Seq<u32>, a: Seq<u32>, b: Seq<u32>)
    ensures
        paths::less(start + a, start + b) == paths::less(a, b),
    decreases start.len(),
{
    if start.len() == 0 {
        assert(start + a =~= a);
        assert(start + b =~= b);
    } else {
        lemma_less_behind(start.skip(1), a, b);
        assert((start + a).skip(1) =~= start.skip(1) + a);
        assert((start + b).skip(1) =~= start.skip(1) + b);
    }
}

proof fn lemma_less_irreflexive(a: Seq<u32>)
    ensures
        !paths::less(a, a),
    decreases a.len(),
{
    if a.len() > 0 {
        lemma_less_irreflexive(a.skip(1));
    }
}

proof fn lemma_less_asymmetric(a: Seq<u32>, b: Seq<u32>)
    requires
        paths::less(a, b),
    ensures
        !paths::less(b, a),
    decreases a.len(),
{
    if a.len() > 0 && a[0] == b[0] {
        lemma_less_asymmetric(a.skip(1), b.skip(1));
    }
}

proof fn lemma_text_total(a: Seq<char>, b: Seq<char>)
    ensures
        text_before(a, b) || text_before(b, a) || a == b,
    decreases a.len(),
{
    if a.len() > 0 && b.len() > 0 && a[0] == b[0] {
        lemma_text_total(a.skip(1), b.skip(1));
        if a.skip(1) == b.skip(1) {
            assert(a =~= seq![a[0]] + a.skip(1));
            assert(b =~= seq![b[0]] + b.skip(1));
        }
    } else if a.len() == 0 && b.len() == 0 {
        assert(a =~= b);
    } else if a.len() > 0 && b.len() > 0 {
        vstd::utf8::char_u32_cast(a[0], a[0] as u32);
        vstd::utf8::char_u32_cast(b[0], b[0] as u32);
    }
}

proof fn lemma_names_total(a: Seq<Seq<char>>, b: Seq<Seq<char>>)
    ensures
        names_before(a, b) || names_before(b, a) || a == b,
    decreases a.len(),
{
    if a.len() > 0 && b.len() > 0 {
        if a[0] == b[0] {
            lemma_names_total(a.skip(1), b.skip(1));
            if a.skip(1) == b.skip(1) {
                assert(a =~= seq![a[0]] + a.skip(1));
                assert(b =~= seq![b[0]] + b.skip(1));
            }
        } else {
            lemma_text_total(a[0], b[0]);
        }
    } else if a.len() == 0 && b.len() == 0 {
        assert(a =~= b);
    }
}

proof fn lemma_text_decides(a: Seq<char>, b: Seq<char>, u: Seq<u32>, v: Seq<u32>)
    requires
        text_before(a, b),
    ensures
        paths::less(paths::codes(a) + seq![0u32] + u, paths::codes(b) + seq![0u32] + v),
    decreases a.len(),
{
    let x = paths::codes(a) + seq![0u32] + u;
    let y = paths::codes(b) + seq![0u32] + v;
    vstd::utf8::char_is_scalar(b[0]);
    assert(y[0] == b[0] as u32 + 1);
    if a.len() == 0 {
        assert(x[0] == 0);
    } else {
        vstd::utf8::char_is_scalar(a[0]);
        assert(x[0] == a[0] as u32 + 1);
        if (a[0] as u32) < (b[0] as u32) {
            assert(x[0] < y[0]);
        } else {
            lemma_text_decides(a.skip(1), b.skip(1), u, v);
            assert(paths::codes(a).skip(1) =~= paths::codes(a.skip(1)));
            assert(paths::codes(b).skip(1) =~= paths::codes(b.skip(1)));
            assert(x.skip(1) =~= paths::codes(a.skip(1)) + seq![0u32] + u);
            assert(y.skip(1) =~= paths::codes(b.skip(1)) + seq![0u32] + v);
        }
    }
}

proof fn lemma_part_decides(a: Seq<char>, b: Seq<char>, u: Seq<u32>, v: Seq<u32>)
    requires
        a.len() > 0,
        b.len() > 0,
        part_before(a, b),
    ensures
        paths::less(paths::part_key(a, true) + u, paths::part_key(b, true) + v),
{
    let x = paths::part_key(a, true) + u;
    let y = paths::part_key(b, true) + v;
    let dot: Seq<char> = seq!['.'];
    let dots: Seq<char> = seq!['.', '.'];
    assert(dot.len() != dots.len());
    if a == dot {
        assert(x[0] == 3);
        if b == dots {
            assert(y[0] == 4);
        } else {
            assert(y[0] == 5);
        }
    } else if a == dots {
        assert(x[0] == 4);
        assert(y[0] == 5);
    } else {
        assert(x[0] == 5);
        assert(y[0] == 5);
        lemma_text_decides(a, b, u, v);
        assert(x.skip(1) =~= paths::codes(a) + seq![0u32] + u);
        assert(y.skip(1) =~= paths::codes(b) + seq![0u32] + v);
    }
}

proof fn lemma_names_decide(a: Seq<Seq<char>>, b: Seq<Seq<char>>)
    requires
        forall|i: int| 0 <= i < a.len() ==> (#[trigger] a[i]).len() > 0,
        forall|i: int| 0 <= i < b.len() ==> (#[trigger] b[i]).len() > 0,
        names_before(a, b),
    ensures
        paths::less(flat(a), flat(b)),
    decreases a.len(),
{
    if a.len() == 0 {
        assert(flat(b).len() > 0);
    } else if a[0] == b[0] {
        lemma_names_decide(a.skip(1), b.skip(1));
        lemma_less_behind(paths::part_key(a[0], true), flat(a.skip(1)), flat(b.skip(1)));
    } else {
        lemma_part_decides(a[0], b[0], flat(a.skip(1)), flat(b.skip(1)));
    }
}

/// Which of two paths comes first is decided by the names in them, and paths with the
/// same names have the same key.
proof fn lemma_names_key(x: Seq<char>, y: Seq<char>, by: Separators, verbatim: bool)
    ensures
        paths::less(paths::names_key(x, by, verbatim), paths::names_key(y, by, verbatim))
            <==> names_before(names(x, by, verbatim), names(y, by, verbatim)),
        paths::names_key(x, by, verbatim) == paths::names_key(y, by, verbatim) <==> names(
            x,
            by,
            verbatim,
        ) == names(y, by, verbatim),
        paths::names_key(x, by, verbatim).len() == 0 <==> names(x, by, verbatim).len() == 0,
        names(x, by, verbatim).len() > 0 ==> paths::names_key(x, by, verbatim)[0] >= 3,
{
    let a = names(x, by, verbatim);
    let b = names(y, by, verbatim);
    lemma_key_is_flat(paths::parts(x, by), paths::parts(x, by).len() as int, verbatim);
    lemma_key_is_flat(paths::parts(y, by), paths::parts(y, by).len() as int, verbatim);
    lemma_names_total(a, b);
    if names_before(a, b) {
        lemma_names_decide(a, b);
        lemma_less_irreflexive(flat(a));
    }
    if names_before(b, a) {
        lemma_names_decide(b, a);
        lemma_less_irreflexive(flat(a));
        lemma_less_asymmetric(flat(b), flat(a));
    }
    if a == b {
        lemma_less_irreflexive(flat(a));
    }
    if a.len() > 0 {
        assert(flat(a)[0] == paths::part_key(a[0], true)[0]);
    }
}

/// Paths without a prefix are the same exactly when both or neither start at the root
/// and the names in them are the same. In order, those that start at the root come
/// first, but for the path that says nothing; then the names decide.
proof fn lemma_body_key(x: Seq<char>, y: Seq<char>, by: Separators)
    ensures
        ({
            let rooted_x = x.len() > 0 && paths::separates(by, x[0]);
            let rooted_y = y.len() > 0 && paths::separates(by, y[0]);
            let a = names(x, by, false);
            let b = names(y, by, false);
            &&& paths::body_key(x, by) == paths::body_key(y, by) <==> rooted_x == rooted_y && a == b
            &&& rooted_x == rooted_y ==> (paths::less(
                paths::body_key(x, by),
                paths::body_key(y, by),
            ) <==> names_before(a, b))
            &&& rooted_x && !rooted_y ==> (paths::less(
                paths::body_key(x, by),
                paths::body_key(y, by),
            ) <==> b.len() > 0)
            &&& !rooted_x && rooted_y ==> (paths::less(
                paths::body_key(x, by),
                paths::body_key(y, by),
            ) <==> a.len() == 0)
        }),
{
    lemma_names_key(x, y, by, false);
    lemma_names_key(y, x, by, false);
    let rooted_x = x.len() > 0 && paths::separates(by, x[0]);
    let rooted_y = y.len() > 0 && paths::separates(by, y[0]);
    let u = paths::names_key(x, by, false);
    let v = paths::names_key(y, by, false);
    let p = paths::body_key(x, by);
    let q = paths::body_key(y, by);
    if rooted_x == rooted_y {
        lemma_less_behind(paths::root_key(x, by), u, v);
        let n = paths::root_key(x, by).len() as int;
        assert(p.skip(n) =~= u);
        assert(q.skip(n) =~= v);
    } else if rooted_x {
        assert(p[0] == 2);
        assert(q =~= v);
    } else {
        assert(q[0] == 2);
        assert(p =~= u);
    }
}

/// What stands between separators, and nothing else, is a part of a path: no part holds
/// a separator, and the parts joined with the separator are the path.
pub proof fn parts_are_what_stands_between_separators(path: Seq<char>)
    ensures
        text::join_text(paths::parts(path, Separators::Slash), seq!['/']) == path,
        text::join_text(paths::parts(path, Separators::Backslash), seq!['\\']) == path,
        paths::parts(path, Separators::Slash).len() > 0,
        paths::parts(path, Separators::Backslash).len() > 0,
        forall|i: int|
            0 <= i < paths::parts(path, Separators::Slash).len() ==> !(#[trigger] paths::parts(
                path,
                Separators::Slash,
            )[i]).contains('/'),
        forall|i: int|
            0 <= i < paths::parts(path, Separators::Backslash).len() ==> !(#[trigger] paths::parts(
                path,
                Separators::Backslash,
            )[i]).contains('\\'),
{
    lemma_parts_join(path, Separators::Slash, '/');
    lemma_parts_join(path, Separators::Backslash, '\\');
}

proof fn lemma_parts_join(path: Seq<char>, by: Separators, mark: char)
    requires
        forall|c: char| #[trigger] paths::separates(by, c) <==> c == mark,
    ensures
        text::join_text(paths::parts(path, by), seq![mark]) == path,
        paths::parts(path, by).len() > 0,
        forall|i: int|
            0 <= i < paths::parts(path, by).len() ==> !(#[trigger] paths::parts(
                path,
                by,
            )[i]).contains(mark),
    decreases path.len(),
{
    let list = paths::parts(path, by);
    let s: Seq<char> = seq![mark];
    if path.len() == 0 {
        assert(text::join_text(list, s) =~= path);
    } else {
        let short = path.drop_last();
        let c = path.last();
        let earlier = paths::parts(short, by);
        lemma_parts_join(short, by, mark);
        assert(short.push(c) =~= path);
        if paths::separates(by, c) {
            assert(list.drop_last() =~= earlier);
            assert(text::join_text(list, s) =~= path);
            assert forall|i: int| 0 <= i < list.len() implies !(#[trigger] list[i]).contains(
                mark,
            ) by {
                if i < earlier.len() {
                    assert(list[i] == earlier[i]);
                }
            }
        } else {
            assert(list.drop_last() =~= earlier.drop_last());
            assert(text::join_text(list, s) =~= text::join_text(earlier, s).push(c));
            assert forall|i: int| 0 <= i < list.len() implies !(#[trigger] list[i]).contains(
                mark,
            ) by {
                if i < list.len() - 1 {
                    assert(list[i] == earlier[i]);
                } else {
                    let last = earlier.last();
                    assert(list[i] == last.push(c));
                    assert(!earlier[earlier.len() - 1].contains(mark));
                    if last.push(c).contains(mark) {
                        let k = choose|k: int|
                            0 <= k < last.push(c).len() && last.push(c)[k] == mark;
                        assert(last[k] == mark);
                    }
                }
            }
        }
    }
}

/// Where both `/` and `\` separate, it makes no difference which of them does.
pub proof fn either_separator_will_do(path: Seq<char>)
    ensures
        paths::parts(path, Separators::Either) == paths::parts(
            path.map_values(
                |c: char|
                    if c == '/' {
                        '\\'
                    } else {
                        c
                    },
            ),
            Separators::Backslash,
        ),
    decreases path.len(),
{
    let f = |c: char|
        if c == '/' {
            '\\'
        } else {
            c
        };
    let other = path.map_values(f);
    if path.len() > 0 {
        either_separator_will_do(path.drop_last());
        assert(other.drop_last() =~= path.drop_last().map_values(f));
        assert(other.last() == f(path.last()));
    }
}

proof fn lemma_parts_push(x: Seq<char>, c: char, y: Seq<char>, by: Separators)
    requires
        paths::separates(by, c),
    ensures
        paths::parts(x.push(c) + y, by) == paths::parts(x, by) + paths::parts(y, by),
        paths::parts(x, by).len() > 0,
        paths::parts(y, by).len() > 0,
    decreases y.len(),
{
    lemma_some_part(x, by);
    lemma_some_part(y, by);
    let whole = x.push(c) + y;
    let a = paths::parts(x, by);
    if y.len() == 0 {
        assert(whole =~= x.push(c));
        assert(whole.drop_last() =~= x);
        assert(paths::parts(whole, by) =~= a + paths::parts(y, by));
    } else {
        let short = y.drop_last();
        lemma_parts_push(x, c, short, by);
        assert(whole.drop_last() =~= x.push(c) + short);
        assert(whole.last() == y.last());
        let b = paths::parts(short, by);
        assert((a + b).last() == b.last());
        assert((a + b).drop_last() =~= a + b.drop_last());
        assert(paths::parts(whole, by) =~= a + paths::parts(y, by));
    }
}

proof fn lemma_some_part(path: Seq<char>, by: Separators)
    ensures
        paths::parts(path, by).len() > 0,
    decreases path.len(),
{
    if path.len() > 0 {
        lemma_some_part(path.drop_last(), by);
    }
}

proof fn lemma_one_part(name: Seq<char>, by: Separators)
    requires
        forall|i: int| 0 <= i < name.len() ==> !paths::separates(by, #[trigger] name[i]),
    ensures
        paths::parts(name, by) == seq![name],
    decreases name.len(),
{
    if name.len() > 0 {
        lemma_one_part(name.drop_last(), by);
        assert(name.drop_last().push(name.last()) =~= name);
        assert(!paths::separates(by, name[name.len() - 1]));
        assert(paths::parts(name, by) =~= seq![name]);
    } else {
        assert(name =~= seq![]);
        assert(paths::parts(name, by) =~= seq![name]);
    }
}

proof fn lemma_telling_goes_on(a: Seq<Seq<char>>, b: Seq<Seq<char>>, n: int, verbatim: bool)
    requires
        0 <= n <= a.len(),
        n <= b.len(),
        forall|i: int| 0 <= i < n ==> a[i] == b[i],
    ensures
        telling(a, n, verbatim) == telling(b, n, verbatim),
    decreases n,
{
    if n > 0 {
        lemma_telling_goes_on(a, b, n - 1, verbatim);
    }
}

/// One more part adds its name, if it says anything.
proof fn lemma_telling_push(list: Seq<Seq<char>>, part: Seq<char>, verbatim: bool)
    requires
        list.len() > 0,
    ensures
        telling(list.push(part), list.len() as int + 1, verbatim) == if part.len() == 0 || (part
            == seq!['.'] && !verbatim) {
            telling(list, list.len() as int, verbatim)
        } else {
            telling(list, list.len() as int, verbatim).push(part)
        },
{
    lemma_telling_goes_on(list.push(part), list, list.len() as int, verbatim);
}

/// A part that says nothing makes no difference, wherever it stands but at the start.
proof fn lemma_telling_without(a: Seq<Seq<char>>, part: Seq<char>, b: Seq<Seq<char>>)
    requires
        a.len() > 0,
        part.len() == 0 || part == seq!['.'],
    ensures
        telling(a.push(part) + b, (a.len() + 1 + b.len()) as int, false) == telling(
            a + b,
            (a.len() + b.len()) as int,
            false,
        ),
    decreases b.len(),
{
    if b.len() == 0 {
        assert(a.push(part) + b =~= a.push(part));
        assert(a + b =~= a);
        lemma_telling_push(a, part, false);
    } else {
        let short = b.drop_last();
        lemma_telling_without(a, part, short);
        assert(a.push(part) + b =~= (a.push(part) + short).push(b.last()));
        assert(a + b =~= (a + short).push(b.last()));
        lemma_telling_push(a.push(part) + short, b.last(), false);
        lemma_telling_push(a + short, b.last(), false);
    }
}

/// The names of a path are those of its start, however the path goes on.
proof fn lemma_telling_starts(a: Seq<Seq<char>>, b: Seq<Seq<char>>) -> (more: Seq<Seq<char>>)
    requires
        a.len() > 0,
    ensures
        telling(a + b, (a.len() + b.len()) as int, false) == telling(a, a.len() as int, false)
            + more,
    decreases b.len(),
{
    let start = telling(a, a.len() as int, false);
    if b.len() == 0 {
        assert(a + b =~= a);
        assert(start + Seq::<Seq<char>>::empty() =~= start);
        seq![]
    } else {
        let short = b.drop_last();
        let more = lemma_telling_starts(a, short);
        assert(a + b =~= (a + short).push(b.last()));
        lemma_telling_push(a + short, b.last(), false);
        if b.last().len() == 0 || b.last() == seq!['.'] {
            more
        } else {
            assert((start + more).push(b.last()) =~= start + more.push(b.last()));
            more.push(b.last())
        }
    }
}

proof fn lemma_names_before_behind(
    start: Seq<Seq<char>>,
    a: Seq<Seq<char>>,
    b: Seq<Seq<char>>,
)
    ensures
        names_before(start + a, start + b) == names_before(a, b),
    decreases start.len(),
{
    if start.len() == 0 {
        assert(start + a =~= a);
        assert(start + b =~= b);
    } else {
        lemma_names_before_behind(start.skip(1), a, b);
        assert((start + a).skip(1) =~= start.skip(1) + a);
        assert((start + b).skip(1) =~= start.skip(1) + b);
    }
}

/// Where `/` separates, two paths are the same exactly when both or neither start with
/// a `/` and they hold the same names one after the other.
pub proof fn same_path_means_same_names(x: Seq<char>, y: Seq<char>)
    ensures
        paths::same_path(x, y, PathStyle::Unix) <==> (x.len() > 0 && x[0] == '/') == (y.len() > 0
            && y[0] == '/') && names(x, Separators::Slash, false) == names(
            y,
            Separators::Slash,
            false,
        ),
{
    lemma_body_key(x, y, Separators::Slash);
}

/// Where `/` separates, a list in order has the paths that start with a `/` first, but
/// for the empty path, and then goes by the names, part by part.
pub proof fn order_goes_by_names(list: Seq<Seq<char>>, i: int, j: int)
    requires
        paths::in_order(list, PathStyle::Unix),
        0 <= i < j < list.len(),
    ensures
        ({
            let a = names(list[i], Separators::Slash, false);
            let b = names(list[j], Separators::Slash, false);
            let rooted_i = list[i].len() > 0 && list[i][0] == '/';
            let rooted_j = list[j].len() > 0 && list[j][0] == '/';
            &&& rooted_i == rooted_j ==> names_before(a, b)
            &&& rooted_i && !rooted_j ==> b.len() > 0
            &&& !rooted_i && rooted_j ==> a.len() == 0
        }),
{
    lemma_body_key(list[i], list[j], Separators::Slash);
    assert(paths::less(
        paths::path_key(list[i], PathStyle::Unix),
        paths::path_key(list[j], PathStyle::Unix),
    ));
}

proof fn lemma_names_of_member(dir: Seq<char>, name: Seq<char>)
    requires
        name.len() > 0,
        name != seq!['.'],
        !name.contains('/'),
    ensures
        names(dir.push('/') + name, Separators::Slash, false) == names(
            dir,
            Separators::Slash,
            false,
        ).push(name),
{
    let by = Separators::Slash;
    lemma_parts_push(dir, '/', name, by);
    assert forall|i: int| 0 <= i < name.len() implies !paths::separates(by, #[trigger] name[i]) by {
        assert(name.contains(name[i]));
    }
    lemma_one_part(name, by);
    let list = paths::parts(dir, by);
    assert(list + seq![name] =~= list.push(name));
    lemma_telling_push(list, name, false);
}

/// Two files in one directory are the same only if their whole names are.
pub proof fn names_in_a_directory_are_told_apart(
    dir: Seq<char>,
    a: Seq<char>,
    b: Seq<char>,
)
    requires
        a.len() > 0,
        b.len() > 0,
        a != seq!['.'],
        b != seq!['.'],
        !a.contains('/'),
        !b.contains('/'),
    ensures
        paths::same_path(dir + seq!['/'] + a, dir + seq!['/'] + b, PathStyle::Unix) <==> a == b,
{
    assert(dir + seq!['/'] =~= dir.push('/'));
    let x = dir.push('/') + a;
    let y = dir.push('/') + b;
    lemma_names_of_member(dir, a);
    lemma_names_of_member(dir, b);
    same_path_means_same_names(x, y);
    let start = names(dir, Separators::Slash, false);
    assert(start.push(a).last() == a);
    assert(start.push(b).last() == b);
    assert(x[0] == y[0]) by {
        if dir.len() > 0 {
            assert(x[0] == dir[0] && y[0] == dir[0]);
        } else {
            assert(x[0] == '/' && y[0] == '/');
        }
    }
}

/// Files in two directories are the same only if the directories are the same and so
/// are the names.
pub proof fn directories_are_told_apart(
    dir: Seq<char>,
    other: Seq<char>,
    a: Seq<char>,
    b: Seq<char>,
)
    requires
        dir.len() > 0,
        other.len() > 0,
        a.len() > 0,
        b.len() > 0,
        a != seq!['.'],
        b != seq!['.'],
        !a.contains('/'),
        !b.contains('/'),
    ensures
        paths::same_path(dir + seq!['/'] + a, other + seq!['/'] + b, PathStyle::Unix)
            <==> paths::same_path(dir, other, PathStyle::Unix) && a == b,
{
    assert(dir + seq!['/'] =~= dir.push('/'));
    assert(other + seq!['/'] =~= other.push('/'));
    let x = dir.push('/') + a;
    let y = other.push('/') + b;
    lemma_names_of_member(dir, a);
    lemma_names_of_member(other, b);
    same_path_means_same_names(x, y);
    same_path_means_same_names(dir, other);
    let p = names(dir, Separators::Slash, false);
    let q = names(other, Separators::Slash, false);
    assert(p.push(a).last() == a && q.push(b).last() == b);
    assert(p.push(a).drop_last() =~= p && q.push(b).drop_last() =~= q);
    assert(x[0] == dir[0] && y[0] == other[0]);
}

/// Neither repeated separators, nor a `.` on the way, nor a separator at the end make
/// another path.
pub proof fn spelling_makes_no_other_path(x: Seq<char>, y: Seq<char>)
    ensures
        paths::same_path(x + seq!['/', '/'] + y, x + seq!['/'] + y, PathStyle::Unix),
        paths::same_path(x + seq!['/', '.', '/'] + y, x + seq!['/'] + y, PathStyle::Unix),
        x.len() > 0 ==> paths::same_path(x + seq!['/'], x, PathStyle::Unix),
        x.len() > 0 ==> paths::same_path(x + seq!['/', '.'], x, PathStyle::Unix),
{
    let by = Separators::Slash;
    let none: Seq<char> = seq![];
    let dot: Seq<char> = seq!['.'];
    let a = paths::parts(x, by);
    let b = paths::parts(y, by);
    lemma_one_part(none, by);
    lemma_one_part(dot, by);
    lemma_parts_push(x, '/', y, by);
    lemma_parts_push(none, '/', y, by);
    lemma_parts_push(dot, '/', y, by);
    lemma_parts_push(x, '/', none.push('/') + y, by);
    lemma_parts_push(x, '/', dot.push('/') + y, by);
    lemma_parts_push(x, '/', none, by);
    lemma_parts_push(x, '/', dot, by);
    assert(x + seq!['/'] + y =~= x.push('/') + y);
    assert(x + seq!['/', '/'] + y =~= x.push('/') + (none.push('/') + y));
    assert(x + seq!['/', '.', '/'] + y =~= x.push('/') + (dot.push('/') + y));
    assert(x + seq!['/'] =~= x.push('/') + none);
    assert(x + seq!['/', '.'] =~= x.push('/') + dot);
    assert(a + (seq![none] + b) =~= a.push(none) + b);
    assert(a + (seq![dot] + b) =~= a.push(dot) + b);
    assert(a + seq![none] =~= a.push(none));
    assert(a + seq![dot] =~= a.push(dot));
    lemma_telling_without(a, none, b);
    lemma_telling_without(a, dot, b);
    lemma_telling_push(a, none, false);
    lemma_telling_push(a, dot, false);
    same_path_means_same_names(x + seq!['/', '/'] + y, x + seq!['/'] + y);
    same_path_means_same_names(x + seq!['/', '.', '/'] + y, x + seq!['/'] + y);
    same_path_means_same_names(x + seq!['/'], x);
    same_path_means_same_names(x + seq!['/', '.'], x);
    if x.len() > 0 {
        assert((x + seq!['/', '/'] + y)[0] == x[0]);
        assert((x + seq!['/', '.', '/'] + y)[0] == x[0]);
        assert((x + seq!['/'] + y)[0] == x[0]);
    } else {
        assert((x + seq!['/', '/'] + y)[0] == '/');
        assert((x + seq!['/', '.', '/'] + y)[0] == '/');
        assert((x + seq!['/'] + y)[0] == '/');
    }
}

/// At the start of a path a `.` says something, and so does starting at the root.
pub proof fn where_a_path_starts_makes_a_difference(name: Seq<char>)
    requires
        name.len() > 0,
        name != seq!['.'],
        !name.contains('/'),
    ensures
        !paths::same_path(seq!['.', '/'] + name, name, PathStyle::Unix),
        !paths::same_path(seq!['/'] + name, name, PathStyle::Unix),
        !paths::same_path(seq!['.', '.', '/'] + name, name, PathStyle::Unix),
{
    let by = Separators::Slash;
    let dot: Seq<char> = seq!['.'];
    let dots: Seq<char> = seq!['.', '.'];
    assert forall|i: int| 0 <= i < name.len() implies !paths::separates(by, #[trigger] name[i]) by {
        assert(name.contains(name[i]));
    }
    lemma_one_part(name, by);
    lemma_one_part(dot, by);
    lemma_one_part(dots, by);
    reveal_with_fuel(telling, 3);
    assert(seq!['.', '/'] + name =~= dot.push('/') + name);
    assert(seq!['.', '.', '/'] + name =~= dots.push('/') + name);
    lemma_names_of_member(dot, name);
    lemma_names_of_member(dots, name);
    assert(names(name, by, false).len() == 1);
    assert(dots != dot) by {
        assert(dots.len() != dot.len());
    }
    assert(names(dot, by, false).len() == 1);
    assert(names(dots, by, false).len() == 1);
    same_path_means_same_names(seq!['.', '/'] + name, name);
    same_path_means_same_names(seq!['/'] + name, name);
    same_path_means_same_names(seq!['.', '.', '/'] + name, name);
    assert((seq!['/'] + name)[0] == '/');
    assert(name.contains(name[0]));
}

proof fn lemma_text_before_at(a: Seq<char>, b: Seq<char>, k: int)
    requires
        0 <= k <= a.len(),
        k < b.len(),
        forall|i: int| 0 <= i < k ==> a[i] == b[i],
        k < a.len() ==> (a[k] as u32) < (b[k] as u32),
    ensures
        text_before(a, b),
    decreases k,
{
    if k > 0 {
        assert forall|i: int| 0 <= i < k - 1 implies a.skip(1)[i] == b.skip(1)[i] by {
            assert(a[i + 1] == b[i + 1]);
        }
        lemma_text_before_at(a.skip(1), b.skip(1), k - 1);
    }
}

/// Names `a` and `b` in one directory are in order as in a dictionary: they agree up to
/// some place, where `a` ends or has the smaller character. The order of everything
/// below them is theirs.
pub proof fn order_goes_by_whole_names(
    dir: Seq<char>,
    a: Seq<char>,
    b: Seq<char>,
    k: int,
    below_a: Seq<char>,
    below_b: Seq<char>,
)
    requires
        a.len() > 0,
        a != seq!['.'],
        a != seq!['.', '.'],
        b != seq!['.'],
        b != seq!['.', '.'],
        !a.contains('/'),
        !b.contains('/'),
        0 <= k <= a.len(),
        k < b.len(),
        forall|i: int| 0 <= i < k ==> a[i] == b[i],
        k < a.len() ==> (a[k] as u32) < (b[k] as u32),
        below_a.len() > 0 ==> below_a[0] == '/',
        below_b.len() > 0 ==> below_b[0] == '/',
    ensures
        paths::less(
            paths::path_key(dir + seq!['/'] + a + below_a, PathStyle::Unix),
            paths::path_key(dir + seq!['/'] + b + below_b, PathStyle::Unix),
        ),
        dir.len() > 0 ==> paths::less(
            paths::path_key(dir, PathStyle::Unix),
            paths::path_key(dir + seq!['/'] + a, PathStyle::Unix),
        ),
{
    let by = Separators::Slash;
    assert(dir + seq!['/'] =~= dir.push('/'));
    let start = names(dir, by, false);
    let x = dir.push('/') + a;
    let y = dir.push('/') + b;
    lemma_names_of_member(dir, a);
    lemma_names_of_member(dir, b);
    lemma_text_before_at(a, b, k);
    assert(a != b) by {
        if a == b {
            assert(k < a.len());
        }
    }
    let more_a = lemma_names_below(x, below_a);
    let more_b = lemma_names_below(y, below_b);
    let p = start.push(a) + more_a;
    let q = start.push(b) + more_b;
    assert(p =~= start + (seq![a] + more_a));
    assert(q =~= start + (seq![b] + more_b));
    lemma_names_before_behind(start, seq![a] + more_a, seq![b] + more_b);
    lemma_body_key(x + below_a, y + below_b, by);
    lemma_body_key(dir, x, by);
    assert(start + seq![a] =~= start.push(a));
    assert(start + Seq::<Seq<char>>::empty() =~= start);
    lemma_names_before_behind(start, seq![], seq![a]);
    if dir.len() > 0 {
        assert(x[0] == dir[0] && (x + below_a)[0] == dir[0] && (y + below_b)[0] == dir[0]);
    } else {
        assert((x + below_a)[0] == '/' && (y + below_b)[0] == '/');
    }
}

proof fn lemma_names_below(path: Seq<char>, below: Seq<char>) -> (more: Seq<Seq<char>>)
    requires
        below.len() > 0 ==> below[0] == '/',
    ensures
        names(path + below, Separators::Slash, false) == names(path, Separators::Slash, false)
            + more,
{
    let by = Separators::Slash;
    let start = names(path, by, false);
    if below.len() == 0 {
        assert(path + below =~= path);
        assert(start + Seq::<Seq<char>>::empty() =~= start);
        seq![]
    } else {
        assert(path + below =~= path.push('/') + below.skip(1));
        lemma_parts_push(path, '/', below.skip(1), by);
        lemma_telling_starts(paths::parts(path, by), paths::parts(below.skip(1), by))
    }
}

/// Every SRT sidecar and every rewrite output that was found leads to a recording in
/// the list, one whose path has the same names.
pub proof fn every_leftover_has_its_recording_listed(
    recordings: Seq<Seq<char>>,
    leftovers: Seq<Seq<char>>,
    name: Seq<char>,
) -> (at: int)
    requires
        paths::is_sorted_set(recordings, paths::traced(leftovers), PathStyle::Unix),
        leftovers.contains(name + "-ffmpeg-rewriter.srt"@) || leftovers.contains(
            name + ".mp4"@ + "-rewritten.mp4"@,
        ),
    ensures
        0 <= at < recordings.len(),
        names(recordings[at], Separators::Slash, false) == names(
            name + ".mp4"@,
            Separators::Slash,
            false,
        ),
        (recordings[at].len() > 0 && recordings[at][0] == '/') == ((name + ".mp4"@).len() > 0 && (
        name + ".mp4"@)[0] == '/'),
        paths::same_path(recordings[at], name + ".mp4"@, PathStyle::Unix),
{
    let mp4 = name + ".mp4"@;
    let k = choose|k: int|
        0 <= k < leftovers.len() && (leftovers[k] == name + "-ffmpeg-rewriter.srt"@ || leftovers[k]
            == name + ".mp4"@ + "-rewritten.mp4"@);
    sidecars::leftovers_are_told_by_their_ending(name, leftovers[k]);
    paths::lemma_traced_contains(leftovers, k);
    let given = paths::traced(leftovers);
    let g = choose|g: int| 0 <= g < given.len() && given[g] == mp4;
    assert(paths::is_listed(recordings, given[g], PathStyle::Unix));
    let at = choose|at: int|
        0 <= at < recordings.len() && paths::same_path(
            #[trigger] recordings[at],
            given[g],
            PathStyle::Unix,
        );
    same_path_means_same_names(recordings[at], mp4);
    at
}

/// Leftovers of two recordings in one directory lead to two recordings in the list,
/// however much of their names is the same, and the names say which comes first.
pub proof fn recordings_in_a_directory_are_all_listed(
    recordings: Seq<Seq<char>>,
    leftovers: Seq<Seq<char>>,
    dir: Seq<char>,
    a: Seq<char>,
    b: Seq<char>,
) -> (at: (int, int))
    requires
        paths::is_sorted_set(recordings, paths::traced(leftovers), PathStyle::Unix),
        !a.contains('/'),
        !b.contains('/'),
        a != b,
        leftovers.contains(dir + seq!['/'] + a + "-ffmpeg-rewriter.srt"@) || leftovers.contains(
            dir + seq!['/'] + a + ".mp4"@ + "-rewritten.mp4"@,
        ),
        leftovers.contains(dir + seq!['/'] + b + "-ffmpeg-rewriter.srt"@) || leftovers.contains(
            dir + seq!['/'] + b + ".mp4"@ + "-rewritten.mp4"@,
        ),
    ensures
        0 <= at.0 < recordings.len(),
        0 <= at.1 < recordings.len(),
        at.0 != at.1,
        paths::same_path(recordings[at.0], dir + seq!['/'] + a + ".mp4"@, PathStyle::Unix),
        paths::same_path(recordings[at.1], dir + seq!['/'] + b + ".mp4"@, PathStyle::Unix),
        at.0 < at.1 <==> text_before(a + ".mp4"@, b + ".mp4"@),
{
    reveal_strlit(".mp4");
    let x = dir + seq!['/'] + a;
    let y = dir + seq!['/'] + b;
    let i = every_leftover_has_its_recording_listed(recordings, leftovers, x);
    let j = every_leftover_has_its_recording_listed(recordings, leftovers, y);
    let p = a + ".mp4"@;
    let q = b + ".mp4"@;
    lemma_mp4_name(a);
    lemma_mp4_name(b);
    assert(x + ".mp4"@ =~= dir + seq!['/'] + p);
    assert(y + ".mp4"@ =~= dir + seq!['/'] + q);
    if p == q {
        assert(a =~= p.take(p.len() - 4));
        assert(b =~= q.take(q.len() - 4));
    }
    names_in_a_directory_are_told_apart(dir, p, q);
    assert(dir + seq!['/'] =~= dir.push('/'));
    lemma_names_of_member(dir, p);
    lemma_names_of_member(dir, q);
    let start = names(dir, Separators::Slash, false);
    assert(start.push(p) =~= start + seq![p]);
    assert(start.push(q) =~= start + seq![q]);
    lemma_names_before_behind(start, seq![p], seq![q]);
    lemma_names_before_behind(start, seq![q], seq![p]);
    lemma_text_total(p, q);
    lemma_body_key(x + ".mp4"@, y + ".mp4"@, Separators::Slash);
    lemma_body_key(y + ".mp4"@, x + ".mp4"@, Separators::Slash);
    let u = paths::path_key(recordings[i], PathStyle::Unix);
    let v = paths::path_key(recordings[j], PathStyle::Unix);
    if dir.len() > 0 {
        assert((x + ".mp4"@)[0] == dir[0] && (y + ".mp4"@)[0] == dir[0]);
    } else {
        assert((x + ".mp4"@)[0] == '/' && (y + ".mp4"@)[0] == '/');
    }
    if i < j {
        assert(paths::less(u, v));
        lemma_less_asymmetric(u, v);
    } else if j < i {
        assert(paths::less(v, u));
        lemma_less_asymmetric(v, u);
    }
    (i, j)
}

proof fn lemma_mp4_name(stem: Seq<char>)
    requires
        !stem.contains('/'),
    ensures
        !(stem + ".mp4"@).contains('/'),
        (stem + ".mp4"@).len() >= 4,
        stem + ".mp4"@ != seq!['.'],
        stem + ".mp4"@ != seq!['.', '.'],
{
    reveal_strlit(".mp4");
    let name = stem + ".mp4"@;
    if name.contains('/') {
        let i = choose|i: int| 0 <= i < name.len() && name[i] == '/';
        if i < stem.len() {
            assert(stem[i] == '/');
            assert(stem.contains('/'));
        } else {
            assert(name[i] == ".mp4"@[i - stem.len()]);
        }
    }
    let dot: Seq<char> = seq!['.'];
    let dots: Seq<char> = seq!['.', '.'];
    assert(dot.len() == 1 && dots.len() == 2);
}

/// A letter from A to Z, in either case.
pub open spec fn letter(c: char) -> bool {
    65 <= c as u32 <= 90 || 97 <= c as u32 <= 122
}

/// The two letters are the same, or differ in case alone.
pub open spec fn same_letter(a: char, b: char) -> bool {
    ||| a == b
    ||| 65 <= a as u32 <= 90 && b as u32 == a as u32 + 32
    ||| 65 <= b as u32 <= 90 && a as u32 == b as u32 + 32
}

/// `c` is a `/` or a `\`.
pub open spec fn slash(c: char) -> bool {
    c == '/' || c == '\\'
}

/// A path on Windows that starts with neither a drive letter nor two separators.
pub open spec fn plain(path: Seq<char>) -> bool {
    path.len() >= 2 ==> !(letter(path[0]) && path[1] == ':') && !(slash(path[0]) && slash(path[1]))
}

proof fn lemma_letter(c: char)
    ensures
        paths::is_letter(c) <==> letter(c),
        letter(c) ==> paths::drive_code(c) > 0,
        letter(c) ==> !slash(c),
{
    vstd::utf8::char_u32_cast(c, c as u32);
    vstd::utf8::char_is_scalar(c);
}

proof fn lemma_same_letter(a: char, b: char)
    requires
        letter(a),
        letter(b),
    ensures
        paths::drive_code(a) == paths::drive_code(b) <==> same_letter(a, b),
{
    vstd::utf8::char_u32_cast(a, a as u32);
    vstd::utf8::char_u32_cast(b, b as u32);
}

proof fn lemma_plain_key(path: Seq<char>)
    requires
        plain(path),
    ensures
        paths::path_key(path, PathStyle::Windows) == paths::body_key(path, Separators::Either),
{
    if path.len() >= 2 {
        lemma_letter(path[0]);
    }
}

/// On Windows too, where either separator will do, paths without a prefix are the same
/// exactly when both or neither start with a separator and they hold the same names.
pub proof fn same_path_means_same_names_on_windows(x: Seq<char>, y: Seq<char>)
    requires
        plain(x),
        plain(y),
    ensures
        paths::same_path(x, y, PathStyle::Windows) <==> (x.len() > 0 && slash(x[0])) == (y.len() > 0
            && slash(y[0])) && names(x, Separators::Either, false) == names(
            y,
            Separators::Either,
            false,
        ),
{
    lemma_plain_key(x);
    lemma_plain_key(y);
    lemma_body_key(x, y, Separators::Either);
}

proof fn lemma_drive_key(l: char, x: Seq<char>)
    requires
        letter(l),
    ensures
        paths::path_key(seq![l, ':'] + x, PathStyle::Windows) == seq![
            1u32,
            3u32,
            paths::drive_code(l),
            0u32,
        ] + paths::body_key(x, Separators::Either),
{
    let path = seq![l, ':'] + x;
    lemma_letter(l);
    assert(path[0] == l && path[1] == ':');
    assert(path.skip(2) =~= x);
}

/// Paths that start with a drive letter are the same exactly when the letters are, in
/// whichever case, and so are the paths behind them.
pub proof fn drives_are_told_apart_by_their_letter(
    l: char,
    x: Seq<char>,
    m: char,
    y: Seq<char>,
)
    requires
        letter(l),
        letter(m),
    ensures
        paths::same_path(seq![l, ':'] + x, seq![m, ':'] + y, PathStyle::Windows) <==> same_letter(
            l,
            m,
        ) && (x.len() > 0 && slash(x[0])) == (y.len() > 0 && slash(y[0])) && names(
            x,
            Separators::Either,
            false,
        ) == names(y, Separators::Either, false),
{
    lemma_drive_key(l, x);
    lemma_drive_key(m, y);
    lemma_same_letter(l, m);
    lemma_body_key(x, y, Separators::Either);
    let p = paths::path_key(seq![l, ':'] + x, PathStyle::Windows);
    let q = paths::path_key(seq![m, ':'] + y, PathStyle::Windows);
    assert(p[2] == paths::drive_code(l) && q[2] == paths::drive_code(m));
    assert(p.skip(4) =~= paths::body_key(x, Separators::Either));
    assert(q.skip(4) =~= paths::body_key(y, Separators::Either));
}

/// `name` holds no separator, and is no empty one.
pub open spec fn one_name(name: Seq<char>) -> bool {
    name.len() > 0 && forall|i: int| 0 <= i < name.len() ==> !slash(#[trigger] name[i])
}

/// The path of `rest` on the network share `share` of `server`, written with the
/// separators `marks`.
pub open spec fn on_share(
    marks: (char, char, char),
    server: Seq<char>,
    share: Seq<char>,
    rest: Seq<char>,
) -> Seq<char> {
    seq![marks.0, marks.1] + server + seq![marks.2] + share + rest
}

/// `on_share` writes a path on a network share: one with a server and a share, and with
/// a separator behind it if anything follows; and it is not the start of a verbatim
/// path.
pub open spec fn share_path(
    marks: (char, char, char),
    server: Seq<char>,
    share: Seq<char>,
    rest: Seq<char>,
) -> bool {
    &&& slash(marks.0) && slash(marks.1) && slash(marks.2)
    &&& one_name(server) && one_name(share)
    &&& rest.len() > 0 ==> slash(rest[0])
    &&& !(marks == ('\\', '\\', '\\') && server == seq!['?'])
}

proof fn lemma_part_len(name: Seq<char>, tail: Seq<char>)
    requires
        forall|i: int| 0 <= i < name.len() ==> !slash(#[trigger] name[i]),
        tail.len() > 0 ==> slash(tail[0]),
    ensures
        paths::part_len(name + tail, Separators::Either) == name.len(),
    decreases name.len(),
{
    let whole = name + tail;
    if name.len() == 0 {
        assert(whole =~= tail);
    } else {
        assert(whole[0] == name[0]);
        assert(whole.skip(1) =~= name.skip(1) + tail);
        assert forall|i: int| 0 <= i < name.skip(1).len() implies !slash(
            #[trigger] name.skip(1)[i],
        ) by {
            assert(name.skip(1)[i] == name[i + 1]);
        }
        lemma_part_len(name.skip(1), tail);
    }
}

proof fn lemma_share_key(
    marks: (char, char, char),
    server: Seq<char>,
    share: Seq<char>,
    rest: Seq<char>,
)
    requires
        share_path(marks, server, share, rest),
    ensures
        paths::path_key(on_share(marks, server, share, rest), PathStyle::Windows) == seq![1u32, 2u32]
            + (paths::codes(server) + seq![0u32] + (paths::codes(share) + seq![0u32] + (seq![
            2u32,
            0u32,
        ] + paths::names_key(rest, Separators::Either, false)))),
{
    let path = on_share(marks, server, share, rest);
    let n = server.len() as int;
    let tail = seq![marks.2] + share + rest;
    assert(path[0] == marks.0 && path[1] == marks.1);
    assert(path[2] == server[0]);
    assert(path[2 + n] == marks.2);
    assert(path.skip(2) =~= server + tail);
    assert(tail[0] == marks.2);
    lemma_part_len(server, tail);
    assert(paths::part_from(path, 2) =~= server);
    assert(path.skip(3 + n) =~= share + rest);
    lemma_part_len(share, rest);
    assert(paths::part_from(path, 3 + n) =~= share);
    assert(paths::share_at(path) == 3 + n);
    assert(path.skip(paths::share_end(path)) =~= rest);
    if paths::is_verbatim(path, PathStyle::Windows) {
        assert(server[0] == '?');
        if n > 1 {
            assert(path[3] == server[1]);
            assert(!slash(server[1]));
        }
        assert(server =~= seq!['?']);
        assert(path[3] == marks.2);
    }
    assert(paths::names_share(path));
    assert(paths::path_key(path, PathStyle::Windows) =~= seq![1u32, 2u32] + (paths::codes(server)
        + seq![0u32] + (paths::codes(share) + seq![0u32] + (seq![2u32, 0u32] + paths::names_key(
        rest,
        Separators::Either,
        false,
    )))));
}

proof fn lemma_codes_end(a: Seq<char>, b: Seq<char>, u: Seq<u32>, v: Seq<u32>)
    ensures
        paths::codes(a) + seq![0u32] + u == paths::codes(b) + seq![0u32] + v <==> a == b && u == v,
{
    let x = paths::codes(a) + seq![0u32] + u;
    let y = paths::codes(b) + seq![0u32] + v;
    lemma_text_total(a, b);
    if text_before(a, b) {
        lemma_text_decides(a, b, u, v);
    }
    if text_before(b, a) {
        lemma_text_decides(b, a, v, u);
    }
    lemma_less_irreflexive(x);
    if a == b {
        assert(x.skip(a.len() + 1int) =~= u);
        assert(y.skip(a.len() + 1int) =~= v);
    }
}

/// Paths on network shares are the same exactly when the servers are, and the shares,
/// in full, and the names behind them.
pub proof fn shares_are_told_apart_by_their_names(
    marks: (char, char, char),
    server: Seq<char>,
    share: Seq<char>,
    rest: Seq<char>,
    other_marks: (char, char, char),
    other_server: Seq<char>,
    other_share: Seq<char>,
    other_rest: Seq<char>,
)
    requires
        share_path(marks, server, share, rest),
        share_path(other_marks, other_server, other_share, other_rest),
    ensures
        paths::same_path(
            on_share(marks, server, share, rest),
            on_share(other_marks, other_server, other_share, other_rest),
            PathStyle::Windows,
        ) <==> server == other_server && share == other_share && names(
            rest,
            Separators::Either,
            false,
        ) == names(other_rest, Separators::Either, false),
{
    lemma_share_key(marks, server, share, rest);
    lemma_share_key(other_marks, other_server, other_share, other_rest);
    lemma_names_key(rest, other_rest, Separators::Either, false);
    let u = paths::names_key(rest, Separators::Either, false);
    let v = paths::names_key(other_rest, Separators::Either, false);
    let root = seq![2u32, 0u32];
    let p = paths::codes(share) + seq![0u32] + (root + u);
    let q = paths::codes(other_share) + seq![0u32] + (root + v);
    let x = paths::codes(server) + seq![0u32] + p;
    let y = paths::codes(other_server) + seq![0u32] + q;
    lemma_codes_end(server, other_server, p, q);
    lemma_codes_end(share, other_share, root + u, root + v);
    assert((root + u).skip(2) =~= u && (root + v).skip(2) =~= v);
    assert((seq![1u32, 2u32] + x).skip(2) =~= x && (seq![1u32, 2u32] + y).skip(2) =~= y);
}

/// What verbatim paths start with.
pub open spec fn verbatim_start() -> Seq<char> {
    seq!['\\', '\\', '?', '\\']
}

proof fn lemma_verbatim_drive_key(l: char, x: Seq<char>)
    requires
        letter(l),
        x.len() > 0 ==> x[0] == '\\',
    ensures
        paths::path_key(verbatim_start() + (seq![l, ':'] + x), PathStyle::Windows) == seq![
            1u32,
            1u32,
            paths::drive_code(l),
            0u32,
        ] + paths::names_key(x, Separators::Backslash, true),
{
    let rest = seq![l, ':'] + x;
    let path = verbatim_start() + rest;
    lemma_letter(l);
    assert(path.skip(4) =~= rest);
    assert(rest.skip(2) =~= x);
    assert(rest[0] == l && rest[1] == ':');
    if x.len() > 0 {
        assert(rest[2] == x[0]);
    }
}

/// Verbatim paths on a drive are the same exactly when the letters are, in whichever
/// case, and so are the names, a `.` and a `/` among their characters included.
pub proof fn verbatim_drives_are_told_apart(l: char, x: Seq<char>, m: char, y: Seq<char>)
    requires
        letter(l),
        letter(m),
        x.len() > 0 ==> x[0] == '\\',
        y.len() > 0 ==> y[0] == '\\',
    ensures
        paths::same_path(
            verbatim_start() + (seq![l, ':'] + x),
            verbatim_start() + (seq![m, ':'] + y),
            PathStyle::Windows,
        ) <==> same_letter(l, m) && names(x, Separators::Backslash, true) == names(
            y,
            Separators::Backslash,
            true,
        ),
{
    lemma_verbatim_drive_key(l, x);
    lemma_verbatim_drive_key(m, y);
    lemma_same_letter(l, m);
    lemma_names_key(x, y, Separators::Backslash, true);
    let p = paths::path_key(verbatim_start() + (seq![l, ':'] + x), PathStyle::Windows);
    let q = paths::path_key(verbatim_start() + (seq![m, ':'] + y), PathStyle::Windows);
    assert(p[2] == paths::drive_code(l) && q[2] == paths::drive_code(m));
    assert(p.skip(4) =~= paths::names_key(x, Separators::Backslash, true));
    assert(q.skip(4) =~= paths::names_key(y, Separators::Backslash, true));
}

/// `rest`, behind the start of a verbatim path, does not start with a drive.
pub open spec fn no_drive(rest: Seq<char>) -> bool {
    rest.len() >= 2 ==> !(letter(rest[0]) && rest[1] == ':' && (rest.len() > 2 ==> rest[2] == '\\'))
}

proof fn lemma_verbatim_key(rest: Seq<char>)
    requires
        no_drive(rest),
    ensures
        paths::path_key(verbatim_start() + rest, PathStyle::Windows) == seq![1u32, 1u32, 0u32]
            + paths::names_key(rest, Separators::Backslash, true),
{
    let path = verbatim_start() + rest;
    assert(path.skip(4) =~= rest);
    if rest.len() >= 2 {
        lemma_letter(rest[0]);
    }
}

/// Verbatim paths on no drive are the same exactly when the names in them are.
pub proof fn verbatim_paths_are_told_apart(x: Seq<char>, y: Seq<char>)
    requires
        no_drive(x),
        no_drive(y),
    ensures
        paths::same_path(verbatim_start() + x, verbatim_start() + y, PathStyle::Windows) <==> names(
            x,
            Separators::Backslash,
            true,
        ) == names(y, Separators::Backslash, true),
{
    lemma_verbatim_key(x);
    lemma_verbatim_key(y);
    lemma_names_key(x, y, Separators::Backslash, true);
    let p = paths::path_key(verbatim_start() + x, PathStyle::Windows);
    let q = paths::path_key(verbatim_start() + y, PathStyle::Windows);
    assert(p.skip(3) =~= paths::names_key(x, Separators::Backslash, true));
    assert(q.skip(3) =~= paths::names_key(y, Separators::Backslash, true));
}

/// On Windows, verbatim paths come first, then those on a network share, then those
/// with a drive letter, then all others that say anything; so no path of one kind is
/// the same as one of another.
pub proof fn kinds_of_paths_are_told_apart(
    verbatim: Seq<char>,
    marks: (char, char, char),
    server: Seq<char>,
    share: Seq<char>,
    rest: Seq<char>,
    l: char,
    x: Seq<char>,
    y: Seq<char>,
)
    requires
        share_path(marks, server, share, rest),
        letter(l),
        plain(y),
        y.len() > 0 && slash(y[0]) || names(y, Separators::Either, false).len() > 0,
    ensures
        ({
            let style = PathStyle::Windows;
            let first = paths::path_key(verbatim_start() + verbatim, style);
            let second = paths::path_key(on_share(marks, server, share, rest), style);
            let third = paths::path_key(seq![l, ':'] + x, style);
            let fourth = paths::path_key(y, style);
            &&& paths::less(first, second)
            &&& paths::less(second, third)
            &&& paths::less(third, fourth)
            &&& first != second && first != third && first != fourth && second != third && second
                != fourth && third != fourth
        }),
{
    let style = PathStyle::Windows;
    let first = paths::path_key(verbatim_start() + verbatim, style);
    let second = paths::path_key(on_share(marks, server, share, rest), style);
    let third = paths::path_key(seq![l, ':'] + x, style);
    let fourth = paths::path_key(y, style);
    let path = verbatim_start() + verbatim;
    assert(path[0] == '\\' && path[1] == '\\' && path[2] == '?' && path[3] == '\\');
    assert(first[0] == 1 && first[1] == 1);
    lemma_share_key(marks, server, share, rest);
    assert(second[0] == 1 && second[1] == 2);
    lemma_drive_key(l, x);
    assert(third[0] == 1 && third[1] == 3);
    lemma_plain_key(y);
    lemma_names_key(y, y, Separators::Either, false);
    assert(fourth[0] >= 2);
    assert(first.skip(1)[0] == 1 && second.skip(1)[0] == 2 && third.skip(1)[0] == 3);
    reveal_with_fuel(paths::less, 3);
}

proof fn lemma_names_behind_either(dir: Seq<char>, mark: char, name: Seq<char>)
    requires
        slash(mark),
        one_name(name),
        name != seq!['.'],
    ensures
        names(dir.push(mark) + name, Separators::Either, false) == names(
            dir,
            Separators::Either,
            false,
        ).push(name),
{
    let by = Separators::Either;
    lemma_parts_push(dir, mark, name, by);
    lemma_one_part(name, by);
    let list = paths::parts(dir, by);
    assert(list + seq![name] =~= list.push(name));
    lemma_telling_push(list, name, false);
}

/// On Windows too, two files in one directory are the same only if their whole names
/// are, whichever separators stand before them, with a drive letter or without.
pub proof fn names_in_a_directory_are_told_apart_on_windows(
    dir: Seq<char>,
    mark: char,
    other_mark: char,
    l: char,
    a: Seq<char>,
    b: Seq<char>,
)
    requires
        dir.len() >= 2,
        plain(dir),
        slash(mark),
        slash(other_mark),
        letter(l),
        one_name(a),
        one_name(b),
        a != seq!['.'],
        b != seq!['.'],
    ensures
        paths::same_path(
            dir + seq![mark] + a,
            dir + seq![other_mark] + b,
            PathStyle::Windows,
        ) <==> a == b,
        paths::same_path(
            seq![l, ':'] + (dir + seq![mark] + a),
            seq![l, ':'] + (dir + seq![other_mark] + b),
            PathStyle::Windows,
        ) <==> a == b,
{
    assert(dir + seq![mark] =~= dir.push(mark));
    assert(dir + seq![other_mark] =~= dir.push(other_mark));
    let x = dir.push(mark) + a;
    let y = dir.push(other_mark) + b;
    assert(x[0] == dir[0] && x[1] == dir[1] && y[0] == dir[0] && y[1] == dir[1]);
    lemma_names_behind_either(dir, mark, a);
    lemma_names_behind_either(dir, other_mark, b);
    same_path_means_same_names_on_windows(x, y);
    drives_are_told_apart_by_their_letter(l, x, l, y);
    let start = names(dir, Separators::Either, false);
    assert(start.push(a).last() == a);
    assert(start.push(b).last() == b);
}

/// `path` starts with two separators, but lacks a server or a share behind them, and is
/// not the start of a verbatim path.
pub open spec fn incomplete_share(path: Seq<char>, server: Seq<char>, rest: Seq<char>) -> bool {
    &&& path.len() >= 2 && slash(path[0]) && slash(path[1])
    &&& path.skip(2) == server + rest
    &&& forall|i: int| 0 <= i < server.len() ==> !slash(#[trigger] server[i])
    &&& rest.len() > 0 ==> slash(rest[0])
    &&& server.len() > 0 && rest.len() > 1 ==> slash(rest[1])
    &&& !(path[0] == '\\' && path[1] == '\\' && server == seq!['?'] && rest.len() > 0 && rest[0]
        == '\\')
}

/// Two separators without a server and a share behind them are just separators: such a
/// path starts at the root and goes by its names like any other.
pub proof fn an_incomplete_share_is_no_share(
    path: Seq<char>,
    server: Seq<char>,
    rest: Seq<char>,
    other: Seq<char>,
)
    requires
        incomplete_share(path, server, rest),
        plain(other),
    ensures
        paths::same_path(path, other, PathStyle::Windows) <==> other.len() > 0 && slash(other[0])
            && names(path, Separators::Either, false) == names(other, Separators::Either, false),
{
    let n = server.len() as int;
    lemma_part_len(server, rest);
    assert(paths::part_from(path, 2) =~= path.subrange(2, 2 + n));
    if rest.len() > 0 {
        assert(path[2 + n] == path.skip(2)[n]);
    }
    if paths::is_verbatim(path, PathStyle::Windows) {
        assert(path.skip(2)[0] == '?' && path.skip(2)[1] == '\\');
        assert(n > 0);
        assert(server[0] == '?');
        if n > 1 {
            assert(server[1] == '\\');
            assert(!slash(server[1]));
        }
        assert(server =~= seq!['?']);
        assert(rest[0] == '\\');
    }
    if paths::names_share(path) {
        assert(n > 0);
        assert(rest.len() > 1);
        let behind = path.skip(3 + n);
        assert(behind[0] == path.skip(2)[n + 1]);
        assert(behind[0] == rest[1]);
        assert(paths::part_len(behind, Separators::Either) == 0);
        assert(false);
    }
    lemma_letter(path[0]);
    lemma_plain_key(other);
    lemma_body_key(path, other, Separators::Either);
}

} // verus!
