//! A stable sort of positions by key, and the order it settles on.

use vstd::prelude::*;

verus! {

/// A two-part key, compared part by part.
pub type Key = (i64, i64);

/// `a` is a smaller key than `b`.
pub open spec fn key_less(a: Key, b: Key) -> bool {
    a.0 < b.0 || (a.0 == b.0 && a.1 < b.1)
}

/// Position `i` comes before position `j`: its key is smaller, or the keys are
/// equal and it stood first to begin with.
pub open spec fn before(keys: Seq<Key>, i: int, j: int) -> bool {
    key_less(keys[i], keys[j]) || (keys[i] == keys[j] && i < j)
}

/// `order` lists every position of `keys` once, each one `before` those after it.
pub open spec fn is_stable_order(keys: Seq<Key>, order: Seq<int>) -> bool {
    &&& order.len() == keys.len()
    &&& forall|r: int| 0 <= r < order.len() ==> 0 <= #[trigger] order[r] < keys.len()
    &&& forall|i: int| 0 <= i < keys.len() ==> #[trigger] order.contains(i)
    &&& forall|r: int, s: int|
        #![trigger order[r], order[s]]
        0 <= r < s < order.len() ==> before(keys, order[r], order[s])
}

/// The positions `0, 1, ..` of `keys`, sorted by key with ties left as they stood.
pub open spec fn stable_order(keys: Seq<Key>) -> Seq<int> {
    Seq::new(keys.len(), |i: int| i).sort_by(|i: int, j: int| i == j || before(keys, i, j))
}

/// A list of positions as mathematical integers.
pub open spec fn positions(order: Seq<usize>) -> Seq<int> {
    order.map_values(|i: usize| i as int)
}

/// There is one stable order only: two that qualify are equal.
pub proof fn stable_order_is_unique(keys: Seq<Key>, first: Seq<int>, second: Seq<int>)
    requires
        is_stable_order(keys, first),
        is_stable_order(keys, second),
    ensures
        first == second,
{
    lemma_orders_agree(keys, first, second, keys.len());
    assert(first =~= second);
}

proof fn lemma_orders_agree(keys: Seq<Key>, first: Seq<int>, second: Seq<int>, n: nat)
    requires
        is_stable_order(keys, first),
        is_stable_order(keys, second),
        n <= keys.len(),
    ensures
        forall|r: int| 0 <= r < n ==> first[r] == second[r],
    decreases n,
{
    if n > 0 {
        let r = n - 1;
        lemma_orders_agree(keys, first, second, r as nat);
        if first[r] != second[r] {
            assert(second.contains(first[r]));
            assert(first.contains(second[r]));
            let s = choose|s: int| 0 <= s < second.len() && second[s] == first[r];
            let t = choose|t: int| 0 <= t < first.len() && first[t] == second[r];
            if s < r {
                assert(first[s] == second[s]);
                assert(before(keys, first[s], first[r]));
            }
            if t < r {
                assert(first[t] == second[t]);
                assert(before(keys, second[t], second[r]));
            }
            assert(before(keys, second[r], second[s]));
            assert(before(keys, first[r], first[t]));
            assert(false);
        }
    }
}

/// [`stable_order`] lists every position once, in order.
pub proof fn stable_order_is_stable(keys: Seq<Key>)
    ensures
        is_stable_order(keys, stable_order(keys)),
{
    let ids = Seq::new(keys.len(), |i: int| i);
    let leq = |i: int, j: int| i == j || before(keys, i, j);
    let order = stable_order(keys);
    assert(vstd::relations::total_ordering(leq));
    ids.lemma_sort_by_ensures(leq);
    ids.to_multiset_ensures();
    order.to_multiset_ensures();
    assert(order.len() == keys.len());
    assert forall|r: int| 0 <= r < order.len() implies 0 <= #[trigger] order[r] < keys.len() by {
        assert(order.contains(order[r]));
        assert(ids.contains(order[r]));
    }
    assert forall|i: int| 0 <= i < keys.len() implies #[trigger] order.contains(i) by {
        assert(ids[i] == i);
        assert(ids.contains(i));
        assert(ids.to_multiset().count(i) > 0);
        assert(order.to_multiset().count(i) > 0);
    }
    assert(ids.no_duplicates());
    ids.lemma_multiset_has_no_duplicates();
    order.lemma_multiset_has_no_duplicates_conv();
    assert forall|r: int, s: int|
        #![trigger order[r], order[s]]
        0 <= r < s < order.len() implies before(keys, order[r], order[s]) by {
        assert(leq(order[r], order[s]));
        assert(order[r] != order[s]);
    }
}

/// Reading the same values through two arrangements of the same positions gives
/// the same values with the same multiplicity.
proof fn lemma_same_values<A>(first: Seq<int>, second: Seq<int>, f: spec_fn(int) -> A)
    requires
        first.to_multiset() == second.to_multiset(),
    ensures
        first.map_values(f).to_multiset() == second.map_values(f).to_multiset(),
    decreases first.len(),
{
    broadcast use vstd::seq_lib::group_to_multiset_ensures;

    first.to_multiset_ensures();
    second.to_multiset_ensures();
    assert(first.len() == second.len());
    if first.len() == 0 {
        assert(first.map_values(f) =~= second.map_values(f));
    } else {
        let n = first.len() - 1;
        let x = first[n];
        assert(first.contains(x));
        assert(second.to_multiset().count(x) > 0);
        assert(second.contains(x));
        let k = choose|k: int| 0 <= k < second.len() && second[k] == x;
        assert(first.remove(n).to_multiset() =~= second.remove(k).to_multiset());
        lemma_same_values(first.remove(n), second.remove(k), f);
        let fm = first.map_values(f);
        let sm = second.map_values(f);
        assert(first.remove(n).map_values(f) =~= fm.remove(n));
        assert(second.remove(k).map_values(f) =~= sm.remove(k));
        assert(fm[n] == f(x) && sm[k] == f(x));
        assert(fm.remove(n).insert(n, f(x)) =~= fm);
        assert(sm.remove(k).insert(k, f(x)) =~= sm);
        assert(fm.to_multiset() =~= fm.remove(n).to_multiset().insert(f(x)));
        assert(sm.to_multiset() =~= sm.remove(k).to_multiset().insert(f(x)));
    }
}

/// The stable order only rearranges: values read in it are the values there were.
pub proof fn stable_order_rearranges<A>(keys: Seq<Key>, values: Seq<A>)
    requires
        values.len() == keys.len(),
    ensures
        stable_order(keys).map_values(|i: int| values[i]).to_multiset() == values.to_multiset(),
{
    let ids = Seq::new(keys.len(), |i: int| i);
    let leq = |i: int, j: int| i == j || before(keys, i, j);
    assert(vstd::relations::total_ordering(leq));
    ids.lemma_sort_by_ensures(leq);
    lemma_same_values(stable_order(keys), ids, |i: int| values[i]);
    assert(ids.map_values(|i: int| values[i]) =~= values);
}

/// `part` lists the positions from `lo` up to `hi`, each one before the next.
spec fn sorts_range(keys: Seq<Key>, part: Seq<usize>, lo: int, hi: int) -> bool {
    &&& part.len() == hi - lo
    &&& forall|r: int| 0 <= r < part.len() ==> lo <= #[trigger] part[r] < hi
    &&& forall|i: int| lo <= i < hi ==> #[trigger] part.contains(i as usize)
    &&& forall|r: int, s: int|
        #![trigger part[r], part[s]]
        0 <= r < s < part.len() ==> before(keys, part[r] as int, part[s] as int)
}

fn less(a: Key, b: Key) -> (r: bool)
    ensures
        r == key_less(a, b),
{
    a.0 < b.0 || (a.0 == b.0 && a.1 < b.1)
}

/// Merges two sorted neighbouring ranges, taking from the first on ties.
fn merge(keys: &Vec<Key>, left: &Vec<usize>, right: &Vec<usize>, lo: usize, mid: usize, hi: usize) -> (out:
    Vec<usize>)
    requires
        lo <= mid <= hi <= keys.len(),
        sorts_range(keys@, left@, lo as int, mid as int),
        sorts_range(keys@, right@, mid as int, hi as int),
    ensures
        sorts_range(keys@, out@, lo as int, hi as int),
{
    let mut out: Vec<usize> = Vec::new();
    let mut i: usize = 0;
    let mut j: usize = 0;
    while i < left.len() || j < right.len()
        invariant
            lo <= mid <= hi <= keys.len(),
            sorts_range(keys@, left@, lo as int, mid as int),
            sorts_range(keys@, right@, mid as int, hi as int),
            i <= left.len(),
            j <= right.len(),
            out.len() == i + j,
            forall|r: int| 0 <= r < out.len() ==> lo <= #[trigger] out@[r] < hi,
            forall|r: int, s: int|
                #![trigger out@[r], out@[s]]
                0 <= r < s < out.len() ==> before(keys@, out@[r] as int, out@[s] as int),
            forall|r: int, a: int|
                #![trigger out@[r], left@[a]]
                0 <= r < out.len() && i <= a < left.len() ==> before(
                    keys@,
                    out@[r] as int,
                    left@[a] as int,
                ),
            forall|r: int, b: int|
                #![trigger out@[r], right@[b]]
                0 <= r < out.len() && j <= b < right.len() ==> before(
                    keys@,
                    out@[r] as int,
                    right@[b] as int,
                ),
            forall|a: int| 0 <= a < i ==> out@.contains(#[trigger] left@[a]),
            forall|b: int| 0 <= b < j ==> out@.contains(#[trigger] right@[b]),
        decreases left.len() - i + right.len() - j,
    {
        let ghost prev = out@;
        let take_left = if i >= left.len() {
            false
        } else if j >= right.len() {
            true
        } else {
            !less(keys[right[j]], keys[left[i]])
        };
        if take_left {
            out.push(left[i]);
            i += 1;
        } else {
            out.push(right[j]);
            j += 1;
        }
        proof {
            assert forall|x: usize| prev.contains(x) implies out@.contains(x) by {
                let k = choose|k: int| 0 <= k < prev.len() && prev[k] == x;
                assert(out@[k] == x);
            }
            assert(out@[prev.len() as int] == out@.last());
            assert(out@.contains(out@[prev.len() as int]));
        }
    }
    proof {
        assert forall|k: int| lo <= k < hi implies #[trigger] out@.contains(k as usize) by {
            if k < mid {
                assert(left@.contains(k as usize));
                let a = choose|a: int| 0 <= a < left.len() && left@[a] == k as usize;
                assert(out@.contains(left@[a]));
            } else {
                assert(right@.contains(k as usize));
                let b = choose|b: int| 0 <= b < right.len() && right@[b] == k as usize;
                assert(out@.contains(right@[b]));
            }
        }
    }
    out
}

fn sort_range(keys: &Vec<Key>, lo: usize, hi: usize) -> (part: Vec<usize>)
    requires
        lo <= hi <= keys.len(),
    ensures
        sorts_range(keys@, part@, lo as int, hi as int),
    decreases hi - lo,
{
    let mut part: Vec<usize> = Vec::new();
    if hi - lo == 0 {
        part
    } else if hi - lo == 1 {
        part.push(lo);
        assert(part@[0] == lo);
        part
    } else {
        let mid: usize = lo + (hi - lo) / 2;
        let left = sort_range(keys, lo, mid);
        let right = sort_range(keys, mid, hi);
        merge(keys, &left, &right, lo, mid, hi)
    }
}

/// The positions of `keys` in the order their keys put them, ties left as they
/// stood.
pub fn sorted_positions(keys: &Vec<Key>) -> (order: Vec<usize>)
    ensures
        positions(order@) == stable_order(keys@),
        is_stable_order(keys@, positions(order@)),
{
    let order = sort_range(keys, 0, keys.len());
    proof {
        let p = positions(order@);
        assert forall|i: int| 0 <= i < keys.len() implies #[trigger] p.contains(i) by {
            assert(order@.contains(i as usize));
            let k = choose|k: int| 0 <= k < order.len() && order@[k] == i as usize;
            assert(p[k] == i);
        }
        assert(is_stable_order(keys@, p));
        stable_order_is_stable(keys@);
        stable_order_is_unique(keys@, p, stable_order(keys@));
    }
    order
}

} // verus!
