//! Small text helpers: suffixes, decimal numbers and character lists.

use vstd::prelude::*;

verus! {

/// `text` ends with `suffix`.
pub open spec fn ends_with(text: Seq<char>, suffix: Seq<char>) -> bool {
    &&& suffix.len() <= text.len()
    &&& text.subrange(text.len() - suffix.len(), text.len() as int) == suffix
}

/// `text` without its last `n` characters.
pub open spec fn without_last(text: Seq<char>, n: nat) -> Seq<char> {
    text.subrange(0, text.len() - n)
}

/// The digit `d` as a character.
pub open spec fn digit_char(d: nat) -> char {
    if d == 0 {
        '0'
    } else if d == 1 {
        '1'
    } else if d == 2 {
        '2'
    } else if d == 3 {
        '3'
    } else if d == 4 {
        '4'
    } else if d == 5 {
        '5'
    } else if d == 6 {
        '6'
    } else if d == 7 {
        '7'
    } else if d == 8 {
        '8'
    } else {
        '9'
    }
}

/// `n` written in decimal, without leading zeros.
pub open spec fn decimal_text(n: nat) -> Seq<char>
    decreases n,
{
    if n < 10 {
        seq![digit_char(n)]
    } else {
        decimal_text(n / 10) + seq![digit_char(n % 10)]
    }
}

/// The characters of `text` as a list.
pub fn chars_of(text: &str) -> (list: Vec<char>)
    ensures
        list@ == text@,
{
    let mut list: Vec<char> = Vec::new();
    for c in it: text.chars()
        invariant
            list@ == text@.take(it.index()),
            it.seq() == text@,
    {
        list.push(c);
    }
    list
}

fn digit(d: u64) -> (s: &'static str)
    requires
        d < 10,
    ensures
        s@ == seq![digit_char(d as nat)],
{
    proof {
        reveal_strlit("0");
        reveal_strlit("1");
        reveal_strlit("2");
        reveal_strlit("3");
        reveal_strlit("4");
        reveal_strlit("5");
        reveal_strlit("6");
        reveal_strlit("7");
        reveal_strlit("8");
        reveal_strlit("9");
    }
    if d == 0 {
        "0"
    } else if d == 1 {
        "1"
    } else if d == 2 {
        "2"
    } else if d == 3 {
        "3"
    } else if d == 4 {
        "4"
    } else if d == 5 {
        "5"
    } else if d == 6 {
        "6"
    } else if d == 7 {
        "7"
    } else if d == 8 {
        "8"
    } else {
        "9"
    }
}

/// Writes `n` in decimal.
pub fn decimal(n: u64) -> (text: String)
    ensures
        text@ == decimal_text(n as nat),
    decreases n,
{
    if n < 10 {
        digit(n).to_owned()
    } else {
        let mut text = decimal(n / 10);
        text.append(digit(n % 10));
        text
    }
}

/// Does `text` end with `suffix`?
pub fn has_suffix(text: &str, suffix: &str) -> (found: bool)
    ensures
        found == ends_with(text@, suffix@),
{
    let chars = chars_of(text);
    let tail = chars_of(suffix);
    if tail.len() > chars.len() {
        return false;
    }
    let start: usize = chars.len() - tail.len();
    let mut i: usize = 0;
    while i < tail.len()
        invariant
            chars@ == text@,
            tail@ == suffix@,
            start == chars.len() - tail.len(),
            i <= tail.len(),
            forall|j: int| 0 <= j < i ==> chars@[start + j] == tail@[j],
        decreases tail.len() - i,
    {
        if chars[start + i] != tail[i] {
            assert(text@.subrange(start as int, text@.len() as int)[i as int] != suffix@[i as int]);
            return false;
        }
        i += 1;
    }
    assert(text@.subrange(start as int, text@.len() as int) =~= suffix@);
    true
}

/// What precedes `suffix` in `text`, if `text` ends with it.
pub fn strip_suffix<'a>(text: &'a str, suffix: &str) -> (stem: Option<&'a str>)
    ensures
        stem is Some <==> ends_with(text@, suffix@),
        stem matches Some(s) ==> s@ == without_last(text@, suffix@.len()),
{
    if has_suffix(text, suffix) {
        let total = text.unicode_len();
        let tail = suffix.unicode_len();
        Some(text.substring_char(0, total - tail))
    } else {
        None
    }
}

/// Two texts, one after the other.
pub fn joined(first: &str, second: &str) -> (text: String)
    ensures
        text@ == first@ + second@,
{
    let mut text = first.to_owned();
    text.append(second);
    text
}

/// Are the two texts the same?
pub fn same(first: &str, second: &str) -> (equal: bool)
    ensures
        equal == (first@ == second@),
{
    let a = chars_of(first);
    let b = chars_of(second);
    if a.len() != b.len() {
        return false;
    }
    let mut i: usize = 0;
    while i < a.len()
        invariant
            a@ == first@,
            b@ == second@,
            a.len() == b.len(),
            i <= a.len(),
            forall|j: int| 0 <= j < i ==> a@[j] == b@[j],
        decreases a.len() - i,
    {
        if a[i] != b[i] {
            return false;
        }
        i += 1;
    }
    assert(first@ =~= second@);
    true
}

/// `parts` one after the other, with `separator` between neighbours.
pub open spec fn join_text(parts: Seq<Seq<char>>, separator: Seq<char>) -> Seq<char>
    decreases parts.len(),
{
    if parts.len() == 0 {
        seq![]
    } else if parts.len() == 1 {
        parts[0]
    } else {
        join_text(parts.drop_last(), separator) + separator + parts.last()
    }
}

/// A list of strings as character sequences.
pub open spec fn views(parts: Seq<String>) -> Seq<Seq<char>> {
    parts.map_values(|s: String| s@)
}

/// Joins `parts` with `separator` between neighbours.
pub fn join(parts: &Vec<String>, separator: &str) -> (text: String)
    ensures
        text@ == join_text(views(parts@), separator@),
{
    let mut text = String::new();
    let mut i: usize = 0;
    let ghost all = views(parts@);
    assert(all.take(0) =~= seq![]);
    while i < parts.len()
        invariant
            all == views(parts@),
            i <= parts.len(),
            text@ == join_text(all.take(i as int), separator@),
        decreases parts.len() - i,
    {
        let ghost before = all.take(i as int);
        let ghost after = all.take(i + 1);
        assert(after.drop_last() =~= before);
        assert(after.last() == parts@[i as int]@);
        if i > 0 {
            text.append(separator);
            text.append(parts[i].as_str());
        } else {
            assert(text@ =~= seq![]);
            text.append(parts[i].as_str());
            assert(text@ =~= after[0]);
        }
        i += 1;
    }
    assert(all.take(parts.len() as int) =~= all);
    text
}

/// The characters of `text` after the last `mark` in it; all of `text` if there
/// is none.
pub open spec fn after_last(text: Seq<char>, mark: char) -> Seq<char>
    decreases text.len(),
{
    if text.len() == 0 || text.last() == mark {
        seq![]
    } else {
        after_last(text.drop_last(), mark).push(text.last())
    }
}

/// A text ends with a suffix exactly when the suffix follows something, and taking it
/// off leaves just that.
pub proof fn suffix_comes_off_whole(stem: Seq<char>, text: Seq<char>, suffix: Seq<char>)
    ensures
        ends_with(stem + suffix, suffix),
        without_last(stem + suffix, suffix.len()) == stem,
        ends_with(text, suffix) ==> text == without_last(text, suffix.len()) + suffix,
{
    let whole = stem + suffix;
    assert(whole.subrange(whole.len() - suffix.len(), whole.len() as int) =~= suffix);
    assert(whole.subrange(0, whole.len() - suffix.len()) =~= stem);
    if ends_with(text, suffix) {
        assert(text =~= text.subrange(0, text.len() - suffix.len()) + text.subrange(
            text.len() - suffix.len(),
            text.len() as int,
        ));
    }
}

/// The number that a row of decimal digits stands for.
pub open spec fn number_read(digits: Seq<char>) -> int
    decreases digits.len(),
{
    if digits.len() == 0 {
        0
    } else {
        10 * number_read(digits.drop_last()) + (digits.last() as u32 - 48)
    }
}

/// A number that is written down reads as that number: every character is one of `0`
/// to `9`, the first is no `0` unless it is the only one, and together they stand for
/// the number.
pub proof fn written_number_reads_back(n: nat)
    ensures
        number_read(decimal_text(n)) == n,
        decimal_text(n).len() > 0,
        forall|i: int|
            0 <= i < decimal_text(n).len() ==> 48 <= (#[trigger] decimal_text(n)[i]) as u32 <= 57,
        decimal_text(n).len() > 1 ==> decimal_text(n)[0] as u32 > 48,
    decreases n,
{
    reveal_with_fuel(number_read, 2);
    if n >= 10 {
        written_number_reads_back(n / 10);
        let shorter = decimal_text(n / 10);
        let whole = decimal_text(n);
        assert(whole.drop_last() =~= shorter);
        assert(whole.last() == digit_char(n % 10));
        assert(whole[0] == shorter[0]);
        assert forall|i: int| 0 <= i < whole.len() implies 48 <= (#[trigger] whole[i]) as u32
            <= 57 by {
            if i < shorter.len() {
                assert(whole[i] == shorter[i]);
            }
        }
        if shorter.len() == 1 {
            assert(number_read(shorter) == 10 * number_read(shorter.drop_last()) + (shorter.last()
                as u32 - 48));
            assert(shorter.drop_last() =~= seq![]);
        }
    } else {
        let whole = decimal_text(n);
        assert(whole.drop_last() =~= seq![]);
        assert(whole.last() == digit_char(n));
    }
}

/// Joining loses nothing: one text stays as it is, and two joined lists with the
/// separator between them are the two lists joined as one.
pub proof fn joined_lists_join_up(a: Seq<Seq<char>>, b: Seq<Seq<char>>, separator: Seq<char>)
    ensures
        a.len() == 0 ==> join_text(a, separator) == Seq::<char>::empty(),
        a.len() == 1 ==> join_text(a, separator) == a[0],
        a.len() > 0 && b.len() > 0 ==> join_text(a + b, separator) == join_text(a, separator)
            + separator + join_text(b, separator),
    decreases b.len(),
{
    if a.len() > 0 && b.len() > 0 {
        let whole = a + b;
        assert(whole.last() == b.last());
        if b.len() == 1 {
            assert(whole.drop_last() =~= a);
        } else {
            joined_lists_join_up(a, b.drop_last(), separator);
            assert(whole.drop_last() =~= a + b.drop_last());
            let j = join_text(a, separator);
            let k = join_text(b.drop_last(), separator);
            assert(join_text(b, separator) == k + separator + b.last());
            assert((j + separator + k) + separator + b.last() =~= j + separator + (k + separator
                + b.last()));
        }
    }
}

/// What stands after the last mark is what follows it up to the end; without a mark
/// it is everything.
pub proof fn tail_starts_behind_the_last_mark(head: Seq<char>, tail: Seq<char>, mark: char)
    requires
        forall|i: int| 0 <= i < tail.len() ==> #[trigger] tail[i] != mark,
    ensures
        after_last(tail, mark) == tail,
        after_last(head.push(mark) + tail, mark) == tail,
    decreases tail.len(),
{
    let whole = head.push(mark) + tail;
    if tail.len() == 0 {
        assert(whole =~= head.push(mark));
        assert(after_last(tail, mark) =~= tail);
        assert(after_last(whole, mark) =~= tail);
    } else {
        let shorter = tail.drop_last();
        tail_starts_behind_the_last_mark(head, shorter, mark);
        assert(whole.drop_last() =~= head.push(mark) + shorter);
        assert(whole.last() == tail.last());
        assert(tail[tail.len() - 1] != mark);
        assert(shorter.push(tail.last()) =~= tail);
    }
}

/// A list of strings is seen string by string, in its order.
pub proof fn strings_are_seen_one_by_one(parts: Seq<String>)
    ensures
        views(parts).len() == parts.len(),
        forall|i: int| 0 <= i < parts.len() ==> #[trigger] views(parts)[i] == parts[i]@,
{
}

} // verus!
