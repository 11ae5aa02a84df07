//! Repairing capture times that were attached to the wrong frames.
//!
//! The bitstream's display order is the one trustworthy signal. The capture times
//! in the file are taken to be right as a collection but permuted, so they are
//! sorted and handed out again in display order.

use crate::order;
use crate::timing;
use crate::timing::{Analysis, LoadedFrame};
use vstd::prelude::*;

verus! {

/// Decode interval given to a file with a single frame: one thirtieth of a
/// second, to the nearest nanosecond.
pub const SINGLE_FRAME_INTERVAL_NS: i64 = 33_333_333;

/// One H.264 sample kept for repair: its (untrustworthy) capture time, its
/// picture order count, and the raw NAL units to write again.
#[derive(Debug)]
pub struct FixFrame {
    pub pts_ns: i64,
    /// Only ordered within one coded video sequence; see [`FixFrame::display_key`].
    pub poc: i64,
    /// Coded-video-sequence index, bumped at each IDR because POC restarts there.
    pub cvs: i64,
    pub nals: Vec<Vec<u8>>,
}

impl FixFrame {
    /// The frame without its NAL units.
    pub open spec fn timed(self) -> LoadedFrame {
        LoadedFrame { pts_ns: self.pts_ns, poc: self.poc, cvs: self.cvs }
    }

    /// Sort key putting samples in true display order across the whole file.
    pub fn display_key(&self) -> (key: (i64, i64))
        ensures
            key == self.timed().key(),
    {
        (self.cvs, self.poc)
    }
}

/// `frames` without their NAL units.
pub open spec fn timed(frames: Seq<FixFrame>) -> Seq<LoadedFrame> {
    frames.map_values(|f: FixFrame| f.timed())
}

fn timed_frames(frames: &[FixFrame]) -> (list: Vec<LoadedFrame>)
    ensures
        list@ == timed(frames@),
{
    let mut list: Vec<LoadedFrame> = Vec::new();
    let mut i: usize = 0;
    while i < frames.len()
        invariant
            i <= frames@.len(),
            list@ =~= timed(frames@).take(i as int),
        decreases frames@.len() - i,
    {
        list.push(
            LoadedFrame { pts_ns: frames[i].pts_ns, poc: frames[i].poc, cvs: frames[i].cvs },
        );
        i += 1;
    }
    assert(list@ =~= timed(frames@));
    list
}

/// Same inversion analysis as [`timing::analyze`], over [`FixFrame`]s.
pub fn analyze_fix(frames: &[FixFrame]) -> (analysis: Analysis)
    ensures
        timing::describes(analysis, timed(frames@)),
{
    let loaded = timed_frames(frames);
    timing::analyze(loaded.as_slice())
}

/// The place of frame `i` in display order.
pub open spec fn display_rank(frames: Seq<LoadedFrame>, i: int) -> int {
    order::stable_order(timing::keys(frames)).index_of(i)
}

/// The corrected capture times, in file order: the frame displayed in place `r`
/// gets the `r`-th smallest time.
pub open spec fn corrected_times(frames: Seq<LoadedFrame>) -> Seq<int> {
    Seq::new(frames.len(), |i: int| timing::times(frames).sort()[display_rank(frames, i)])
}

/// `frames` stamped with the times in `series` instead of their own.
pub open spec fn restamped(frames: Seq<LoadedFrame>, series: Seq<int>) -> Seq<LoadedFrame> {
    Seq::new(
        frames.len(),
        |i: int| LoadedFrame { pts_ns: series[i] as i64, poc: frames[i].poc, cvs: frames[i].cvs },
    )
}

/// `total / parts` to the nearest whole number, halves rounded up.
pub open spec fn nearest_quotient(total: int, parts: int) -> int {
    (2 * total + parts) / (2 * parts)
}

/// The evenly spaced decode interval: the mean capture interval, at least 1 ns.
pub open spec fn mean_interval(frames: Seq<LoadedFrame>) -> int {
    if frames.len() > 1 {
        let mean = nearest_quotient(timing::span(frames), frames.len() - 1);
        if mean < 1 {
            1
        } else {
            mean
        }
    } else {
        SINGLE_FRAME_INTERVAL_NS as int
    }
}

/// Decode time and composition offset of sample `i`, to be shown at `time`, fit
/// their counters when samples are `interval` apart.
pub open spec fn sample_fits(time: int, interval: int, i: int) -> bool {
    interval * i <= i64::MAX && i64::MIN <= time - interval * i <= i64::MAX
}

/// Every decode time and composition offset fits its counter when samples are
/// `interval` apart.
pub open spec fn timing_fits(frames: Seq<LoadedFrame>, interval: int) -> bool {
    forall|i: int|
        0 <= i < frames.len() ==> #[trigger] sample_fits(corrected_times(frames)[i], interval, i)
}

/// The repaired per-sample timing for one frame in decode order.
#[derive(Debug, Clone, Copy, PartialEq, Eq, Structural)]
pub struct RepairedTiming {
    /// Decode duration (`stts`), nanoseconds.
    pub decode_duration_ns: u64,
    /// Composition offset (`ctts`) placing the sample at its corrected
    /// presentation time, nanoseconds.
    pub composition_offset_ns: i64,
    /// Corrected capture time, nanoseconds relative to the first frame.
    pub corrected_pts_ns: i64,
}

/// `list` is the repaired timing of `frames` with samples decoded `interval` apart.
pub open spec fn is_repair(
    list: Seq<RepairedTiming>,
    frames: Seq<LoadedFrame>,
    interval: int,
) -> bool {
    &&& list.len() == frames.len()
    &&& forall|i: int|
        0 <= i < list.len() ==> {
            &&& (#[trigger] list[i]).corrected_pts_ns == corrected_times(frames)[i]
            &&& list[i].decode_duration_ns == interval
            &&& list[i].composition_offset_ns == corrected_times(frames)[i] - interval * i
        }
}

/// What [`timing::keys`] and [`order::stable_order`] say of single frames.
proof fn lemma_ranks(frames: Seq<LoadedFrame>)
    ensures
        order::is_stable_order(
            timing::keys(frames),
            order::stable_order(timing::keys(frames)),
        ),
        forall|r: int|
            0 <= r < frames.len() ==> display_rank(
                frames,
                #[trigger] order::stable_order(timing::keys(frames))[r],
            ) == r,
        forall|i: int|
            0 <= i < frames.len() ==> 0 <= #[trigger] display_rank(frames, i) < frames.len()
                && order::stable_order(timing::keys(frames))[display_rank(frames, i)] == i,
        timing::times(frames).sort().len() == frames.len(),
{
    let keys = timing::keys(frames);
    let o = order::stable_order(keys);
    order::stable_order_is_stable(keys);
    assert forall|r: int| 0 <= r < frames.len() implies display_rank(frames, #[trigger] o[r])
        == r by {
        let s = o.index_of(o[r]);
        assert(o.contains(o[r]));
        assert(0 <= s < o.len() && o[s] == o[r]);
        if s < r {
            assert(order::before(keys, o[s], o[r]));
        } else if r < s {
            assert(order::before(keys, o[r], o[s]));
        }
    }
    assert forall|i: int| 0 <= i < frames.len() implies 0 <= #[trigger] display_rank(frames, i)
        < frames.len() && o[display_rank(frames, i)] == i by {
        assert(o.contains(i));
    }
    timing::times(frames).lemma_sort_ensures();
    timing::times(frames).to_multiset_ensures();
    timing::times(frames).sort().to_multiset_ensures();
}

/// Every sorted or corrected time is one of the frames' own times.
proof fn lemma_times_are_times(frames: Seq<LoadedFrame>)
    ensures
        forall|r: int|
            0 <= r < frames.len() ==> timing::times(frames).contains(
                #[trigger] timing::times(frames).sort()[r],
            ),
        forall|i: int|
            0 <= i < frames.len() ==> timing::times(frames).contains(
                #[trigger] corrected_times(frames)[i],
            ),
        forall|i: int|
            0 <= i < frames.len() ==> i64::MIN <= #[trigger] corrected_times(frames)[i]
                <= i64::MAX,
{
    broadcast use vstd::seq_lib::group_to_multiset_ensures;

    lemma_ranks(frames);
    let ts = timing::times(frames);
    ts.lemma_sort_ensures();
    assert forall|r: int| 0 <= r < frames.len() implies ts.contains(#[trigger] ts.sort()[r]) by {
        assert(ts.sort().contains(ts.sort()[r]));
        assert(ts.sort().to_multiset().count(ts.sort()[r]) > 0);
        assert(ts.to_multiset().count(ts.sort()[r]) > 0);
    }
    assert forall|i: int| 0 <= i < frames.len() implies ts.contains(
        #[trigger] corrected_times(frames)[i],
    ) && i64::MIN <= corrected_times(frames)[i] <= i64::MAX by {
        let r = display_rank(frames, i);
        assert(ts.contains(ts.sort()[r]));
        let k = choose|k: int| 0 <= k < ts.len() && ts[k] == ts.sort()[r];
        assert(ts[k] == frames[k].pts_ns);
    }
}

/// The capture times of `frames`, smallest first.
fn sorted_times(frames: &Vec<LoadedFrame>) -> (list: Vec<i64>)
    ensures
        list@.len() == frames.len(),
        list@.map_values(|t: i64| t as int) == timing::times(frames@).sort(),
{
    let mut keys: Vec<order::Key> = Vec::new();
    let mut i: usize = 0;
    while i < frames.len()
        invariant
            i <= frames.len(),
            keys.len() == i,
            forall|j: int| 0 <= j < i ==> #[trigger] keys@[j] == (frames@[j].pts_ns, 0i64),
        decreases frames.len() - i,
    {
        keys.push((frames[i].pts_ns, 0i64));
        i += 1;
    }
    let places = order::sorted_positions(&keys);
    let mut list: Vec<i64> = Vec::new();
    let ghost p = order::positions(places@);
    let mut r: usize = 0;
    while r < places.len()
        invariant
            p == order::positions(places@),
            order::is_stable_order(keys@, p),
            keys.len() == frames.len(),
            places.len() == frames.len(),
            r <= places.len(),
            list.len() == r,
            forall|s: int| 0 <= s < r ==> #[trigger] list@[s] == frames@[p[s]].pts_ns,
        decreases places.len() - r,
    {
        assert(p[r as int] == places@[r as int]);
        list.push(frames[places[r]].pts_ns);
        r += 1;
    }
    proof {
        let ts = timing::times(frames@);
        let out = list@.map_values(|t: i64| t as int);
        let leq = |x: int, y: int| x <= y;
        order::stable_order_rearranges(keys@, ts);
        assert(out =~= p.map_values(|i: int| ts[i]));
        ts.lemma_sort_ensures();
        assert forall|a: int, b: int| 0 <= a < b < out.len() implies #[trigger] leq(
            out[a],
            out[b],
        ) by {
            assert(order::before(keys@, p[a], p[b]));
            assert(keys@[p[a]] == (frames@[p[a]].pts_ns, 0i64));
            assert(keys@[p[b]] == (frames@[p[b]].pts_ns, 0i64));
        }
        assert(vstd::relations::sorted_by(out, leq));
        vstd::seq_lib::lemma_sorted_unique(out, ts.sort(), leq);
    }
    list
}

/// Hands the sorted capture times out to the frames in display order.
fn corrected(frames: &Vec<LoadedFrame>) -> (list: Vec<i64>)
    ensures
        list@.len() == frames.len(),
        list@.map_values(|t: i64| t as int) == corrected_times(frames@),
{
    let sorted = sorted_times(frames);
    let mut keys: Vec<order::Key> = Vec::new();
    let mut list: Vec<i64> = Vec::new();
    let mut i: usize = 0;
    while i < frames.len()
        invariant
            i <= frames.len(),
            keys@ =~= timing::keys(frames@).take(i as int),
            list.len() == i,
        decreases frames.len() - i,
    {
        keys.push(frames[i].display_key());
        list.push(0);
        i += 1;
    }
    assert(keys@ =~= timing::keys(frames@));
    let places = order::sorted_positions(&keys);
    let ghost p = order::positions(places@);
    let ghost st = timing::times(frames@).sort();
    proof {
        lemma_ranks(frames@);
    }
    let mut r: usize = 0;
    while r < places.len()
        invariant
            p == order::positions(places@),
            order::is_stable_order(timing::keys(frames@), p),
            places.len() == frames.len(),
            sorted.len() == frames.len(),
            st == sorted@.map_values(|t: i64| t as int),
            r <= places.len(),
            list.len() == frames.len(),
            forall|s: int| 0 <= s < r ==> list@[#[trigger] p[s]] == st[s],
        decreases places.len() - r,
    {
        assert(p[r as int] == places@[r as int]);
        assert forall|s: int| 0 <= s < r implies #[trigger] p[s] != p[r as int] by {
            assert(order::before(timing::keys(frames@), p[s], p[r as int]));
        }
        assert(st[r as int] == sorted@[r as int]);
        list.set(places[r], sorted[r]);
        r += 1;
    }
    proof {
        let out = list@.map_values(|t: i64| t as int);
        assert forall|i: int| 0 <= i < frames.len() implies out[i] == corrected_times(frames@)[i] by {
            let rank = display_rank(frames@, i);
            assert(p[rank] == i);
        }
        assert(out =~= corrected_times(frames@));
    }
    list
}

/// The evenly spaced decode interval for `frames`: the mean capture interval to
/// the nearest nanosecond, and at least one.
///
/// Over spans of up to 2^52 ns (52 days) this is also what dividing and rounding in
/// double precision gives. Where another mean is wanted, see [`repair_timing_at`].
pub fn mean_interval_ns(frames: &[FixFrame]) -> (interval: i64)
    requires
        timing::span(timed(frames@)) <= i64::MAX,
    ensures
        interval == mean_interval(timed(frames@)),
        interval >= 1,
{
    let loaded = timed_frames(frames);
    if loaded.len() > 1 {
        let total: i64 = timing::span_ns(loaded.as_slice());
        let parts: i128 = loaded.len() as i128 - 1;
        let twice: i128 = 2 * total as i128 + parts;
        let mean: i128 = twice / (2 * parts);
        proof {
            let t = total as int;
            let p = parts as int;
            assert(0 <= (2 * t + p) / (2 * p) <= t) by (nonlinear_arith)
                requires
                    t >= 0,
                    p >= 1,
            {
                let q = (2 * t + p) / (2 * p);
                assert(q * (2 * p) <= 2 * t + p);
                assert(2 * t + p < 2 * p * (t + 1));
            }
        }
        if mean < 1 {
            1
        } else {
            mean as i64
        }
    } else {
        SINGLE_FRAME_INTERVAL_NS
    }
}

/// Can the timing of `frames` be laid down `interval_ns` apart without leaving the
/// range of the nanosecond counters?
pub fn is_timing_in_range(frames: &[FixFrame], interval_ns: i64) -> (fits: bool)
    requires
        interval_ns >= 1,
    ensures
        fits == timing_fits(timed(frames@), interval_ns as int),
{
    let loaded = timed_frames(frames);
    let series = corrected(&loaded);
    let ghost all = corrected_times(loaded@);
    let mut i: usize = 0;
    while i < series.len()
        invariant
            interval_ns >= 1,
            loaded@ == timed(frames@),
            all == corrected_times(loaded@),
            all == series@.map_values(|t: i64| t as int),
            series.len() == loaded.len(),
            i <= series.len(),
            forall|j: int| 0 <= j < i ==> #[trigger] sample_fits(all[j], interval_ns as int, j),
        decreases series.len() - i,
    {
        assert(0 <= interval_ns * i <= i64::MAX * u64::MAX) by (nonlinear_arith)
            requires
                1 <= interval_ns <= i64::MAX,
                0 <= i <= u64::MAX,
        ;
        let dts: i128 = interval_ns as i128 * i as i128;
        assert(dts == interval_ns * i);
        let offset: i128 = series[i] as i128 - dts;
        assert(all[i as int] == series@[i as int]);
        assert(sample_fits(all[i as int], interval_ns as int, i as int) <==> dts <= i64::MAX
            && i64::MIN <= offset <= i64::MAX);
        if dts > i64::MAX as i128 || offset < i64::MIN as i128 || offset > i64::MAX as i128 {
            return false;
        }
        i += 1;
    }
    true
}

/// Computes corrected timing for every sample, with samples decoded
/// `interval_ns` apart.
pub fn repair_timing_at(frames: &[FixFrame], interval_ns: i64) -> (list: Vec<RepairedTiming>)
    requires
        frames@.len() > 0,
        interval_ns >= 1,
        timing_fits(timed(frames@), interval_ns as int),
    ensures
        is_repair(list@, timed(frames@), interval_ns as int),
{
    let loaded = timed_frames(frames);
    let series = corrected(&loaded);
    let ghost all = corrected_times(loaded@);
    let mut list: Vec<RepairedTiming> = Vec::new();
    let mut i: usize = 0;
    while i < series.len()
        invariant
            interval_ns >= 1,
            all == corrected_times(loaded@),
            all == series@.map_values(|t: i64| t as int),
            timing_fits(loaded@, interval_ns as int),
            series.len() == loaded.len(),
            i <= series.len(),
            list.len() == i,
            forall|j: int|
                0 <= j < i ==> {
                    &&& (#[trigger] list@[j]).corrected_pts_ns == all[j]
                    &&& list@[j].decode_duration_ns == interval_ns
                    &&& list@[j].composition_offset_ns == all[j] - interval_ns * j
                },
        decreases series.len() - i,
    {
        assert(all[i as int] == series@[i as int]);
        assert(sample_fits(all[i as int], interval_ns as int, i as int));
        assert(0 <= i <= interval_ns * i) by (nonlinear_arith)
            requires
                interval_ns >= 1,
                i >= 0,
        ;
        let dts_ns: i64 = interval_ns * i as i64;
        list.push(
            RepairedTiming {
                decode_duration_ns: interval_ns as u64,
                composition_offset_ns: series[i] - dts_ns,
                corrected_pts_ns: series[i],
            },
        );
        i += 1;
    }
    list
}

/// Computes corrected timing for every sample.
///
/// The sorted capture times are handed to the frames by display rank. The samples
/// keep their decode order, on an evenly spaced decode timeline with composition
/// offsets such that `decode time + composition offset == corrected capture time`
/// for every sample, so that the container order and the capture times agree.
pub fn repair_timing(frames: &[FixFrame]) -> (list: Vec<RepairedTiming>)
    requires
        frames@.len() > 0,
        timing::span(timed(frames@)) <= i64::MAX,
        timing_fits(timed(frames@), mean_interval(timed(frames@))),
    ensures
        is_repair(list@, timed(frames@), mean_interval(timed(frames@))),
{
    let interval_ns = mean_interval_ns(frames);
    repair_timing_at(frames, interval_ns)
}

/// Corrected times, walked in display order, are the sorted capture times.
proof fn lemma_corrected_in_display_order(frames: Seq<LoadedFrame>)
    ensures
        order::stable_order(timing::keys(frames)).map_values(
            |i: int| corrected_times(frames)[i],
        ) == timing::times(frames).sort(),
{
    lemma_ranks(frames);
    let o = order::stable_order(timing::keys(frames));
    let walked = o.map_values(|i: int| corrected_times(frames)[i]);
    assert forall|r: int| 0 <= r < frames.len() implies walked[r] == timing::times(
        frames,
    ).sort()[r] by {
        assert(display_rank(frames, o[r]) == r);
    }
    assert(walked =~= timing::times(frames).sort());
}

/// Repair invents and loses nothing: the corrected capture times are the file's
/// own capture times, each as often as before.
pub proof fn repair_keeps_the_capture_times(frames: Seq<LoadedFrame>)
    ensures
        corrected_times(frames).to_multiset() == timing::times(frames).to_multiset(),
{
    lemma_corrected_in_display_order(frames);
    order::stable_order_rearranges(timing::keys(frames), corrected_times(frames));
    timing::times(frames).lemma_sort_ensures();
}

/// A repaired file is shown in the order its frames were captured: its times,
/// walked in display order, are the sorted capture times and never step back.
pub proof fn repaired_times_follow_display_order(frames: Seq<LoadedFrame>)
    ensures
        timing::display_times(restamped(frames, corrected_times(frames))) == timing::times(
            frames,
        ).sort(),
        timing::non_decreasing(
            timing::display_times(restamped(frames, corrected_times(frames))),
        ),
{
    let fixed = restamped(frames, corrected_times(frames));
    assert(timing::keys(fixed) =~= timing::keys(frames));
    lemma_ranks(frames);
    lemma_times_are_times(frames);
    lemma_corrected_in_display_order(frames);
    let o = order::stable_order(timing::keys(frames));
    let shown = timing::display_times(fixed);
    let sorted = timing::times(frames).sort();
    assert forall|r: int| 0 <= r < frames.len() implies shown[r] == sorted[r] by {
        assert(0 <= o[r] < frames.len());
        assert(o.map_values(|i: int| corrected_times(frames)[i])[r] == corrected_times(
            frames,
        )[o[r]]);
    }
    assert(shown =~= sorted);
    timing::times(frames).lemma_sort_ensures();
    let leq = |x: int, y: int| x <= y;
    assert forall|i: int, j: int| 0 <= i <= j < shown.len() implies shown[i] <= shown[j] by {
        if i < j {
            assert(leq(sorted[i], sorted[j]));
        }
    }
}

/// A repaired file passes the check that found the fault.
pub proof fn repaired_is_not_broken(analysis: Analysis, frames: Seq<LoadedFrame>)
    requires
        timing::describes(analysis, restamped(frames, corrected_times(frames))),
    ensures
        !analysis.broken(),
{
    repaired_times_follow_display_order(frames);
    timing::broken_means_out_of_display_order(
        analysis,
        restamped(frames, corrected_times(frames)),
    );
}

/// A file whose times already follow display order keeps every one of them.
pub proof fn ordered_times_stay(frames: Seq<LoadedFrame>)
    requires
        timing::non_decreasing(timing::display_times(frames)),
    ensures
        corrected_times(frames) == timing::times(frames),
{
    lemma_ranks(frames);
    let ts = timing::times(frames);
    let shown = timing::display_times(frames);
    let o = order::stable_order(timing::keys(frames));
    let leq = |x: int, y: int| x <= y;
    order::stable_order_rearranges(timing::keys(frames), ts);
    assert(shown =~= o.map_values(|i: int| ts[i]));
    ts.lemma_sort_ensures();
    assert forall|i: int, j: int| 0 <= i < j < shown.len() implies #[trigger] leq(
        shown[i],
        shown[j],
    ) by {}
    vstd::seq_lib::lemma_sorted_unique(shown, ts.sort(), leq);
    assert forall|i: int| 0 <= i < frames.len() implies corrected_times(frames)[i] == ts[i] by {
        let r = display_rank(frames, i);
        assert(shown[r] == frames[o[r]].pts_ns);
    }
    assert(corrected_times(frames) =~= ts);
}

/// Repairing a second time changes nothing.
pub proof fn repairing_again_changes_nothing(frames: Seq<LoadedFrame>)
    ensures
        corrected_times(restamped(frames, corrected_times(frames))) == corrected_times(frames),
{
    let fixed = restamped(frames, corrected_times(frames));
    repaired_times_follow_display_order(frames);
    ordered_times_stay(fixed);
    lemma_times_are_times(frames);
    assert(timing::times(fixed) =~= corrected_times(frames));
}

/// A sequence cut in three where no earlier part exceeds a later one sorts part
/// by part.
proof fn lemma_sort_in_parts(series: Seq<int>, a: int, b: int)
    requires
        0 <= a <= b <= series.len(),
        forall|r: int, s: int| 0 <= r < a <= s < series.len() ==> series[r] <= series[s],
        forall|r: int, s: int| 0 <= r < b <= s < series.len() ==> series[r] <= series[s],
    ensures
        series.sort().len() == series.len(),
        series.sort().subrange(a, b).to_multiset() == series.subrange(a, b).to_multiset(),
{
    broadcast use vstd::seq_lib::group_to_multiset_ensures;

    let n = series.len() as int;
    let p1 = series.subrange(0, a);
    let p2 = series.subrange(a, b);
    let p3 = series.subrange(b, n);
    p1.lemma_sort_ensures();
    p2.lemma_sort_ensures();
    p3.lemma_sort_ensures();
    series.lemma_sort_ensures();
    let whole = p1.sort() + p2.sort() + p3.sort();
    p1.to_multiset_ensures();
    p2.to_multiset_ensures();
    p3.to_multiset_ensures();
    series.to_multiset_ensures();
    p1.sort().to_multiset_ensures();
    p2.sort().to_multiset_ensures();
    p3.sort().to_multiset_ensures();
    series.sort().to_multiset_ensures();
    assert(p1.sort().len() == a && p2.sort().len() == b - a && p3.sort().len() == n - b);
    assert(series =~= p1 + p2 + p3);
    vstd::seq_lib::lemma_multiset_commutative(p1.sort() + p2.sort(), p3.sort());
    vstd::seq_lib::lemma_multiset_commutative(p1.sort(), p2.sort());
    vstd::seq_lib::lemma_multiset_commutative(p1 + p2, p3);
    vstd::seq_lib::lemma_multiset_commutative(p1, p2);
    assert(whole.to_multiset() =~= series.to_multiset());
    let leq = |x: int, y: int| x <= y;
    assert forall|i: int, j: int| 0 <= i < j < whole.len() implies #[trigger] leq(
        whole[i],
        whole[j],
    ) by {
        lemma_sorted_part(p1);
        lemma_sorted_part(p2);
        lemma_sorted_part(p3);
        if i < a {
            assert(whole[i] == p1.sort()[i]);
            assert(p1.contains(p1.sort()[i]));
        } else if i < b {
            assert(whole[i] == p2.sort()[i - a]);
            assert(p2.contains(p2.sort()[i - a]));
        } else {
            assert(whole[i] == p3.sort()[i - b]);
        }
        if j < a {
            assert(whole[j] == p1.sort()[j]);
            assert(leq(p1.sort()[i], p1.sort()[j]));
        } else if j < b {
            assert(whole[j] == p2.sort()[j - a]);
            assert(p2.contains(p2.sort()[j - a]));
            if i >= a {
                assert(leq(p2.sort()[i - a], p2.sort()[j - a]));
            }
        } else {
            assert(whole[j] == p3.sort()[j - b]);
            assert(p3.contains(p3.sort()[j - b]));
            if i >= b {
                assert(leq(p3.sort()[i - b], p3.sort()[j - b]));
            }
        }
    }
    vstd::seq_lib::lemma_sorted_unique(whole, series.sort(), leq);
    assert(series.sort().subrange(a, b) =~= p2.sort());
}

/// Every entry of a sorted sequence was in the sequence.
proof fn lemma_sorted_part(part: Seq<int>)
    ensures
        forall|i: int| 0 <= i < part.sort().len() ==> part.contains(#[trigger] part.sort()[i]),
{
    broadcast use vstd::seq_lib::group_to_multiset_ensures;

    part.lemma_sort_ensures();
    assert forall|i: int| 0 <= i < part.sort().len() implies part.contains(
        #[trigger] part.sort()[i],
    ) by {
        assert(part.sort().contains(part.sort()[i]));
        assert(part.sort().to_multiset().count(part.sort()[i]) > 0);
        assert(part.to_multiset().count(part.sort()[i]) > 0);
    }
}

/// Capture times stay within their coded video sequence: where no sequence's
/// times reach into the next, the frames of sequence `cvs` (those displayed from
/// place `from` up to place `to`) get their own times back, in some order.
pub proof fn repair_keeps_times_within_their_sequence(
    frames: Seq<LoadedFrame>,
    cvs: int,
    from: int,
    to: int,
)
    requires
        0 <= from <= to <= frames.len(),
        forall|i: int, j: int|
            0 <= i < frames.len() && 0 <= j < frames.len() && frames[i].cvs < frames[j].cvs
                ==> frames[i].pts_ns <= frames[j].pts_ns,
        forall|r: int|
            0 <= r < frames.len() ==> (from <= r < to <==> frames[#[trigger] order::stable_order(
                timing::keys(frames),
            )[r]].cvs == cvs),
    ensures
        timing::display_times(restamped(frames, corrected_times(frames))).subrange(
            from,
            to,
        ).to_multiset() == timing::display_times(frames).subrange(from, to).to_multiset(),
{
    lemma_ranks(frames);
    repaired_times_follow_display_order(frames);
    if from == to {
        let fixed = restamped(frames, corrected_times(frames));
        assert(timing::display_times(fixed).subrange(from, to) =~= timing::display_times(
            frames,
        ).subrange(from, to));
    } else {
        let keys = timing::keys(frames);
        let o = order::stable_order(keys);
        let ts = timing::times(frames);
        let shown = timing::display_times(frames);
        order::stable_order_rearranges(keys, ts);
        assert(shown =~= o.map_values(|i: int| ts[i]));
        assert(frames[o[from]].cvs == cvs);
        assert forall|r: int, s: int| 0 <= r < from <= s < shown.len() implies shown[r]
            <= shown[s] by {
            assert(order::before(keys, o[r], o[from]));
            assert(frames[o[r]].cvs < cvs);
            if s > from {
                assert(order::before(keys, o[from], o[s]));
            }
        }
        assert forall|r: int, s: int| 0 <= r < to <= s < shown.len() implies shown[r]
            <= shown[s] by {
            assert(frames[o[to - 1]].cvs == cvs);
            assert(order::before(keys, o[to - 1], o[s]));
            assert(frames[o[s]].cvs > cvs);
            if r < to - 1 {
                assert(order::before(keys, o[r], o[to - 1]));
            }
        }
        lemma_sort_in_parts(shown, from, to);
        // sorting the times in display order is sorting the times
        let leq = |x: int, y: int| x <= y;
        shown.lemma_sort_ensures();
        ts.lemma_sort_ensures();
        vstd::seq_lib::lemma_sorted_unique(shown.sort(), ts.sort(), leq);
    }
}

/// The decode time of sample `i`: how long all samples before it take.
pub open spec fn decode_time(list: Seq<RepairedTiming>, i: int) -> int
    decreases i,
{
    if i <= 0 {
        0
    } else {
        decode_time(list, i - 1) + list[i - 1].decode_duration_ns
    }
}

/// Container and capture times agree: every sample is presented, a composition
/// offset after it is decoded, at its corrected capture time.
pub proof fn presented_at_the_capture_time(
    list: Seq<RepairedTiming>,
    frames: Seq<LoadedFrame>,
    interval: int,
    i: int,
)
    requires
        is_repair(list, frames, interval),
        0 <= i < list.len(),
    ensures
        decode_time(list, i) + list[i].composition_offset_ns == list[i].corrected_pts_ns,
{
    lemma_decode_time(list, frames, interval, i);
}

proof fn lemma_decode_time(
    list: Seq<RepairedTiming>,
    frames: Seq<LoadedFrame>,
    interval: int,
    i: int,
)
    requires
        is_repair(list, frames, interval),
        0 <= i <= list.len(),
    ensures
        decode_time(list, i) == interval * i,
    decreases i,
{
    if i > 0 {
        lemma_decode_time(list, frames, interval, i - 1);
        assert(interval * (i - 1) + interval == interval * i) by (nonlinear_arith);
    } else {
        assert(interval * 0 == 0) by (nonlinear_arith);
    }
}

/// A frame comes before another in display order whenever its coded video sequence is
/// an earlier one, or its picture order count is smaller within the same sequence,
/// whatever the counts are.
pub proof fn earlier_frames_rank_first(frames: Seq<LoadedFrame>, i: int, j: int)
    requires
        0 <= i < frames.len(),
        0 <= j < frames.len(),
    ensures
        frames[i].cvs < frames[j].cvs ==> display_rank(frames, i) < display_rank(frames, j),
        frames[i].cvs == frames[j].cvs && frames[i].poc < frames[j].poc ==> display_rank(frames, i)
            < display_rank(frames, j),
        frames[i].cvs == frames[j].cvs && frames[i].poc == frames[j].poc && i < j ==> display_rank(
            frames,
            i,
        ) < display_rank(frames, j),
        0 <= display_rank(frames, i) < frames.len(),
        i != j ==> display_rank(frames, i) != display_rank(frames, j),
{
    lemma_ranks(frames);
    timing::display_order_goes_by_sequence_and_count(frames);
    let shown = order::stable_order(timing::keys(frames));
    let r = display_rank(frames, i);
    let s = display_rank(frames, j);
    assert(shown[r] == i && shown[s] == j);
}

/// Repaired times rise as the frames are shown: a frame of an earlier sequence, or with
/// a smaller count in the same sequence, never gets a later time than the other. The
/// times handed out are those the frames had, each as often as before, and each sample
/// is decoded `interval` after the one before it, its offset making up the rest.
pub proof fn repair_hands_times_out_in_order(
    list: Seq<RepairedTiming>,
    frames: Seq<FixFrame>,
    interval: int,
)
    requires
        is_repair(list, timed(frames), interval),
    ensures
        list.len() == frames.len(),
        list.map_values(|t: RepairedTiming| t.corrected_pts_ns as int).to_multiset()
            == frames.map_values(|f: FixFrame| f.pts_ns as int).to_multiset(),
        forall|i: int, j: int|
            #![trigger list[i], list[j]]
            0 <= i < list.len() && 0 <= j < list.len() && (frames[i].cvs < frames[j].cvs || (
            frames[i].cvs == frames[j].cvs && frames[i].poc < frames[j].poc) || (frames[i].cvs
                == frames[j].cvs && frames[i].poc == frames[j].poc && i < j))
                ==> list[i].corrected_pts_ns <= list[j].corrected_pts_ns,
        forall|i: int|
            0 <= i < list.len() ==> {
                &&& (#[trigger] list[i]).decode_duration_ns == interval
                &&& list[i].corrected_pts_ns == list[i].composition_offset_ns + interval * i
            },
{
    let plain = timed(frames);
    assert forall|i: int| 0 <= i < frames.len() implies #[trigger] plain[i] == (LoadedFrame {
        pts_ns: frames[i].pts_ns,
        poc: frames[i].poc,
        cvs: frames[i].cvs,
    }) by {}
    repair_keeps_the_capture_times(plain);
    assert(list.map_values(|t: RepairedTiming| t.corrected_pts_ns as int) =~= corrected_times(
        plain,
    ));
    assert(frames.map_values(|f: FixFrame| f.pts_ns as int) =~= timing::times(plain));
    lemma_ranks(plain);
    let ts = timing::times(plain);
    ts.lemma_sort_ensures();
    let leq = |x: int, y: int| x <= y;
    assert forall|i: int, j: int|
        #![trigger list[i], list[j]]
        0 <= i < list.len() && 0 <= j < list.len() && (frames[i].cvs < frames[j].cvs || (
        frames[i].cvs == frames[j].cvs && frames[i].poc < frames[j].poc) || (frames[i].cvs
            == frames[j].cvs && frames[i].poc == frames[j].poc && i
            < j)) implies list[i].corrected_pts_ns <= list[j].corrected_pts_ns by {
        assert(plain[i].cvs == frames[i].cvs && plain[j].cvs == frames[j].cvs);
        earlier_frames_rank_first(plain, i, j);
        let r = display_rank(plain, i);
        let s = display_rank(plain, j);
        assert(leq(ts.sort()[r], ts.sort()[s]));
    }
}

/// The decode interval is the mean capture interval to the nearest nanosecond: over
/// all intervals it misses the span by at most half a nanosecond each, and is the larger
/// of two that are equally near. It is one nanosecond at least, and a thirtieth of a
/// second for a single frame.
pub proof fn interval_is_the_nearest_mean(frames: Seq<LoadedFrame>)
    ensures
        frames.len() <= 1 ==> 30 * mean_interval(frames) <= 1_000_000_000 < 30 * mean_interval(
            frames,
        ) + 15,
        frames.len() > 1 ==> {
            let intervals = frames.len() - 1;
            &&& mean_interval(frames) >= 1
            &&& 2 * timing::span(frames) < (2 * mean_interval(frames) + 1) * intervals
            &&& mean_interval(frames) > 1 ==> (2 * mean_interval(frames) - 1) * intervals <= 2
                * timing::span(frames)
        },
{
    if frames.len() > 1 {
        let t = timing::span(frames);
        let p = frames.len() - 1;
        let q = nearest_quotient(t, p);
        timing::span_is_the_widest_difference(frames);
        assert(frames[0].pts_ns - frames[0].pts_ns <= t);
        assert((2 * q - 1) * p <= 2 * t && 2 * t < (2 * q + 1) * p && q >= 0) by (nonlinear_arith)
            requires
                p >= 1,
                t >= 0,
                q == (2 * t + p) / (2 * p),
        {
            assert(q * (2 * p) <= 2 * t + p < (q + 1) * (2 * p));
        }
        if q < 1 {
            assert((2 * q + 1) * p <= (2 * 1 + 1) * p) by (nonlinear_arith)
                requires
                    q < 1,
                    p >= 1,
            ;
        }
    }
}

/// A frame kept for repair is timed by its own time, count and sequence.
pub proof fn frames_are_timed_by_their_own_fields(frames: Seq<FixFrame>)
    ensures
        timed(frames).len() == frames.len(),
        forall|i: int|
            0 <= i < frames.len() ==> {
                &&& (#[trigger] timed(frames)[i]).pts_ns == frames[i].pts_ns
                &&& timed(frames)[i].poc == frames[i].poc
                &&& timed(frames)[i].cvs == frames[i].cvs
            },
{
}

/// Timing is in range if every decode time and every composition offset fits a counter
/// of 64 bits, and out of range only if one of them, that of the sample returned, does
/// not.
pub proof fn timing_fits_its_counters(frames: Seq<LoadedFrame>, interval: int, i: int) -> (bad: int)
    ensures
        timing_fits(frames, interval) && 0 <= i < frames.len() ==> {
            &&& interval * i < 0x8000_0000_0000_0000
            &&& corrected_times(frames)[i] - interval * i < 0x8000_0000_0000_0000
            &&& corrected_times(frames)[i] - interval * i >= -0x8000_0000_0000_0000
        },
        !timing_fits(frames, interval) ==> 0 <= bad < frames.len() && {
            ||| interval * bad >= 0x8000_0000_0000_0000
            ||| corrected_times(frames)[bad] - interval * bad >= 0x8000_0000_0000_0000
            ||| corrected_times(frames)[bad] - interval * bad < -0x8000_0000_0000_0000
        },
{
    let series = corrected_times(frames);
    if timing_fits(frames, interval) && 0 <= i < frames.len() {
        assert(sample_fits(series[i], interval, i));
    }
    choose|k: int| 0 <= k < frames.len() && !#[trigger] sample_fits(series[k], interval, k)
}

} // verus!
