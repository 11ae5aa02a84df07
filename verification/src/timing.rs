//! Two faults a recording's timing can have: samples stamped in an order that
//! contradicts the bitstream, and a container that plays at the wrong rate.

use crate::order;
use vstd::prelude::*;

verus! {

/// One H.264 sample, in the order it appears in the file (decode order).
#[derive(Debug, Clone, Copy, PartialEq, Eq, Structural)]
pub struct LoadedFrame {
    /// The sample's claimed presentation or capture time (nanoseconds, relative
    /// to the first frame) under the timing source being checked.
    pub pts_ns: i64,
    /// Picture order count. Only comparable within one coded video sequence:
    /// it restarts at every IDR.
    pub poc: i64,
    /// Which coded video sequence this sample belongs to: 0 for the first, then
    /// one more at each IDR.
    pub cvs: i64,
}

impl LoadedFrame {
    /// Sort key putting samples in true display order across the whole file.
    pub open spec fn key(self) -> order::Key {
        (self.cvs, self.poc)
    }

    /// Sort key putting samples in true display order across the whole file.
    pub fn display_key(&self) -> (key: (i64, i64))
        ensures
            key == self.key(),
    {
        (self.cvs, self.poc)
    }
}

/// The display keys of `frames`.
pub open spec fn keys(frames: Seq<LoadedFrame>) -> Seq<order::Key> {
    frames.map_values(|f: LoadedFrame| f.key())
}

/// The claimed times of `frames`, in file order.
pub open spec fn times(frames: Seq<LoadedFrame>) -> Seq<int> {
    frames.map_values(|f: LoadedFrame| f.pts_ns as int)
}

/// The claimed times of `frames`, in display order.
pub open spec fn display_times(frames: Seq<LoadedFrame>) -> Seq<int> {
    order::stable_order(keys(frames)).map_values(|i: int| frames[i].pts_ns as int)
}

/// `series` never steps back.
pub open spec fn non_decreasing(series: Seq<int>) -> bool {
    forall|i: int, j: int| 0 <= i <= j < series.len() ==> series[i] <= series[j]
}

/// How many entries of `series` are smaller than the entry just before them.
pub open spec fn inversions(series: Seq<int>) -> nat
    decreases series.len(),
{
    if series.len() < 2 {
        0
    } else {
        inversions(series.drop_last()) + if series.last() < series[series.len() - 2] {
            1nat
        } else {
            0nat
        }
    }
}

/// The largest step back in `series`, 0 if it never steps back.
pub open spec fn largest_step_back(series: Seq<int>) -> int
    decreases series.len(),
{
    if series.len() < 2 {
        0
    } else {
        let step = series[series.len() - 2] - series.last();
        let earlier = largest_step_back(series.drop_last());
        if step > earlier {
            step
        } else {
            earlier
        }
    }
}

/// Latest minus earliest time, however the samples are ordered; 0 without samples.
pub open spec fn span(frames: Seq<LoadedFrame>) -> int {
    if frames.len() == 0 {
        0
    } else {
        times(frames).max() - times(frames).min()
    }
}

/// Earliest and latest time of a series that has at least one sample.
fn extremes(frames: &[LoadedFrame]) -> (ends: (i64, i64))
    requires
        frames@.len() > 0,
    ensures
        ends.0 == times(frames@).min(),
        ends.1 == times(frames@).max(),
        ends.0 <= ends.1,
{
    let mut least: i64 = frames[0].pts_ns;
    let mut greatest: i64 = frames[0].pts_ns;
    let mut i: usize = 1;
    assert(times(frames@)[0] == least);
    while i < frames.len()
        invariant
            1 <= i <= frames@.len(),
            forall|j: int|
                0 <= j < i ==> least <= #[trigger] times(frames@)[j] && times(frames@)[j]
                    <= greatest,
            times(frames@).contains(least as int),
            times(frames@).contains(greatest as int),
        decreases frames@.len() - i,
    {
        let t: i64 = frames[i].pts_ns;
        assert(times(frames@)[i as int] == t);
        if t < least {
            least = t;
        }
        if t > greatest {
            greatest = t;
        }
        i += 1;
    }
    proof {
        times(frames@).min_ensures();
        times(frames@).max_ensures();
    }
    (least, greatest)
}

/// Does the span of `frames` fit the nanosecond counter that carries it?
pub fn span_fits(frames: &[LoadedFrame]) -> (fits: bool)
    ensures
        fits == (span(frames@) <= i64::MAX),
{
    if frames.len() == 0 {
        true
    } else {
        let (least, greatest) = extremes(frames);
        greatest as i128 - least as i128 <= i64::MAX as i128
    }
}

/// Total span of a timing series: last timestamp minus first, however the
/// samples happen to be ordered.
pub fn span_ns(frames: &[LoadedFrame]) -> (ns: i64)
    requires
        span(frames@) <= i64::MAX,
    ensures
        ns == span(frames@),
        ns >= 0,
{
    if frames.len() == 0 {
        0
    } else {
        let (least, greatest) = extremes(frames);
        greatest - least
    }
}

/// The result of comparing one timing series with the bitstream's display order.
#[derive(Debug, Clone, Copy, PartialEq, Eq, Structural)]
pub struct Analysis {
    pub num_frames: usize,
    /// Samples stamped earlier than the sample displayed just before them.
    pub num_inversions: usize,
    /// The worst of those, in nanoseconds.
    pub max_inversion_ns: u64,
}

impl Analysis {
    /// The timing contradicts the display order somewhere.
    pub open spec fn broken(self) -> bool {
        self.num_inversions > 0
    }

    /// Does the timing contradict the display order anywhere?
    pub fn is_broken(&self) -> (broken: bool)
        ensures
            broken == self.broken(),
            broken == (self.num_inversions > 0),
    {
        self.num_inversions > 0
    }
}

/// `analysis` is what the display order of `frames` says of their times.
pub open spec fn describes(analysis: Analysis, frames: Seq<LoadedFrame>) -> bool {
    &&& analysis.num_frames == frames.len()
    &&& analysis.num_inversions == inversions(display_times(frames))
    &&& analysis.max_inversion_ns == largest_step_back(display_times(frames))
}

/// Compares the bitstream's true picture order against a timing series: puts the
/// samples into display order and counts where the timestamps step back.
///
/// Ordering is by `(coded video sequence, POC)`, not by POC alone, because POC
/// restarts at every IDR.
pub fn analyze(frames: &[LoadedFrame]) -> (analysis: Analysis)
    ensures
        describes(analysis, frames@),
{
    let mut display_keys: Vec<order::Key> = Vec::new();
    let mut i: usize = 0;
    while i < frames.len()
        invariant
            i <= frames@.len(),
            display_keys@ =~= keys(frames@).take(i as int),
        decreases frames@.len() - i,
    {
        display_keys.push(frames[i].display_key());
        i += 1;
    }
    assert(display_keys@ =~= keys(frames@));
    let ordered = order::sorted_positions(&display_keys);
    let ghost series = display_times(frames@);
    let ghost places = order::positions(ordered@);
    let mut num_inversions: usize = 0;
    let mut max_inversion_ns: u64 = 0;
    let mut prev: i64 = 0;
    let mut rank: usize = 0;
    while rank < ordered.len()
        invariant
            places == order::positions(ordered@),
            ordered@.len() == frames@.len(),
            order::is_stable_order(keys(frames@), places),
            places == order::stable_order(keys(frames@)),
            series == display_times(frames@),
            series.len() == ordered.len(),
            rank <= ordered.len(),
            num_inversions <= rank,
            rank > 0 ==> prev == series[rank - 1],
            num_inversions == inversions(series.take(rank as int)),
            max_inversion_ns == largest_step_back(series.take(rank as int)),
        decreases ordered.len() - rank,
    {
        assert(places[rank as int] == ordered@[rank as int]);
        let t: i64 = frames[ordered[rank]].pts_ns;
        assert(t == series[rank as int]);
        assert(series.take(rank + 1).drop_last() =~= series.take(rank as int));
        if rank > 0 && t < prev {
            let step: u64 = (prev as i128 - t as i128) as u64;
            num_inversions += 1;
            if step > max_inversion_ns {
                max_inversion_ns = step;
            }
        }
        prev = t;
        rank += 1;
    }
    assert(series.take(ordered.len() as int) =~= series);
    Analysis { num_frames: frames.len(), num_inversions, max_inversion_ns }
}

/// A series has no inversion exactly when it never steps back.
pub proof fn no_inversion_means_non_decreasing(series: Seq<int>)
    ensures
        inversions(series) == 0 <==> non_decreasing(series),
    decreases series.len(),
{
    if series.len() >= 2 {
        let shorter = series.drop_last();
        no_inversion_means_non_decreasing(shorter);
        if inversions(series) == 0 {
            assert forall|i: int, j: int| 0 <= i <= j < series.len() implies series[i]
                <= series[j] by {
                assert(shorter[shorter.len() - 1] == series[series.len() - 2]);
                if i < shorter.len() {
                    assert(shorter[i] == series[i]);
                    assert(shorter[i] <= shorter[shorter.len() - 1]);
                }
                if j < shorter.len() {
                    assert(shorter[j] == series[j]);
                }
            }
        }
        if non_decreasing(series) {
            assert forall|i: int, j: int| 0 <= i <= j < shorter.len() implies shorter[i]
                <= shorter[j] by {
                assert(shorter[i] == series[i] && shorter[j] == series[j]);
            }
            assert(series[series.len() - 2] <= series[series.len() - 1]);
        }
    }
}

/// A recording is reported broken exactly when its timestamps, walked in display
/// order, step back somewhere.
pub proof fn broken_means_out_of_display_order(analysis: Analysis, frames: Seq<LoadedFrame>)
    requires
        describes(analysis, frames),
    ensures
        analysis.broken() <==> !non_decreasing(display_times(frames)),
{
    no_inversion_means_non_decreasing(display_times(frames));
}

/// The largest step back is 0 exactly when there is no inversion.
pub proof fn step_back_needs_an_inversion(series: Seq<int>)
    ensures
        largest_step_back(series) >= 0,
        largest_step_back(series) == 0 <==> inversions(series) == 0,
    decreases series.len(),
{
    if series.len() >= 2 {
        step_back_needs_an_inversion(series.drop_last());
    }
}

/// Does the container play the recording back over the same length of time it
/// took to capture?
///
/// Compared as spans rather than per frame, because a container is entitled to
/// differ from the capture times frame by frame.
#[derive(Debug, Clone, Copy, PartialEq, Eq, Structural)]
pub struct CadenceCheck {
    pub container_span_ns: i64,
    pub sei_span_ns: i64,
    /// Mean capture interval: one frame's worth of time.
    pub mean_interval_ns: i64,
}

/// The pieces of a cadence description that are rounded for display.
pub struct CadenceFigures {
    /// Rate error in percent.
    pub rate_percent: String,
    /// Length of the container's timeline in milliseconds.
    pub container_ms: String,
    /// Length of the capture in milliseconds.
    pub sei_ms: String,
    /// Difference between the two in milliseconds.
    pub drift_ms: String,
    /// The same difference in frames.
    pub drift_frames: String,
}

impl CadenceCheck {
    /// How far the container's total timeline is from the captured one.
    pub open spec fn drift(self) -> int {
        let d = self.container_span_ns - self.sei_span_ns;
        if d < 0 {
            -d
        } else {
            d
        }
    }

    /// The whole timeline is out by more than half a frame.
    pub open spec fn broken(self) -> bool {
        self.mean_interval_ns >= 0 && self.drift() * 2 > self.mean_interval_ns
    }

    /// How far the container's total timeline is from the captured one.
    pub fn drift_ns(&self) -> (ns: i64)
        requires
            self.drift() <= i64::MAX,
        ensures
            ns == self.drift(),
    {
        if self.container_span_ns < self.sei_span_ns {
            self.sei_span_ns - self.container_span_ns
        } else {
            self.container_span_ns - self.sei_span_ns
        }
    }

    /// Broken once the whole timeline is out by more than half a frame.
    pub fn is_broken(&self) -> (broken: bool)
        requires
            self.mean_interval_ns >= 0 ==> self.drift() <= i64::MAX,
        ensures
            broken == self.broken(),
    {
        self.mean_interval_ns >= 0 && self.drift_ns() as i128 * 2 > self.mean_interval_ns as i128
    }

    /// The one-line description of `self`, given the rounded figures.
    pub open spec fn description(self, figures: CadenceFigures) -> Seq<char> {
        "container plays "@ + figures.rate_percent@ + "% too "@ + (if self.container_span_ns
            < self.sei_span_ns {
            "fast"@
        } else {
            "slow"@
        }) + ": its timeline spans "@ + figures.container_ms@ + "ms against "@ + figures.sei_ms@
            + "ms of capture, a drift of "@ + figures.drift_ms@ + "ms (~"@ + figures.drift_frames@
            + " frames)"@
    }

    /// Describes the fault in one line.
    pub fn describe(&self, figures: &CadenceFigures) -> (line: String)
        ensures
            line@ == self.description(*figures),
    {
        let faster_or_slower = if self.container_span_ns < self.sei_span_ns {
            "fast"
        } else {
            "slow"
        };
        let mut line = "container plays ".to_owned();
        line.append(figures.rate_percent.as_str());
        line.append("% too ");
        line.append(faster_or_slower);
        line.append(": its timeline spans ");
        line.append(figures.container_ms.as_str());
        line.append("ms against ");
        line.append(figures.sei_ms.as_str());
        line.append("ms of capture, a drift of ");
        line.append(figures.drift_ms.as_str());
        line.append("ms (~");
        line.append(figures.drift_frames.as_str());
        line.append(" frames)");
        line
    }
}

/// The cadence comparison of a container series and a capture series, absent
/// when there is no cadence to speak of.
pub open spec fn cadence_of(container: Seq<LoadedFrame>, sei: Seq<LoadedFrame>) -> Option<
    (int, int, int),
> {
    if container.len() != sei.len() || container.len() < 2 || span(sei) <= 0 {
        None
    } else {
        Some((span(container), span(sei), span(sei) / (sei.len() - 1)))
    }
}

/// The spans that a cadence comparison computes fit their counters.
pub open spec fn cadence_fits(container: Seq<LoadedFrame>, sei: Seq<LoadedFrame>) -> bool {
    container.len() == sei.len() && container.len() >= 2 ==> {
        &&& sei.len() <= i64::MAX
        &&& span(sei) <= i64::MAX
        &&& span(sei) > 0 ==> span(container) <= i64::MAX
    }
}

/// Can [`cadence_check`] compare these two series within its counters' range?
pub fn is_cadence_in_range(container: &[LoadedFrame], sei: &[LoadedFrame]) -> (fits: bool)
    ensures
        fits == cadence_fits(container@, sei@),
{
    if container.len() != sei.len() || container.len() < 2 {
        return true;
    }
    if sei.len() as u64 > i64::MAX as u64 || !span_fits(sei) {
        return false;
    }
    span_ns(sei) <= 0 || span_fits(container)
}

/// Builds a [`CadenceCheck`], or `None` when there is no cadence to speak of.
pub fn cadence_check(container: &[LoadedFrame], sei: &[LoadedFrame]) -> (check: Option<
    CadenceCheck,
>)
    requires
        cadence_fits(container@, sei@),
    ensures
        check is Some <==> cadence_of(container@, sei@) is Some,
        check matches Some(c) ==> cadence_of(container@, sei@) == Some(
            (c.container_span_ns as int, c.sei_span_ns as int, c.mean_interval_ns as int),
        ) && c.drift() <= i64::MAX,
{
    // Mismatched counts mean something more basic is wrong than the rate.
    if container.len() != sei.len() || container.len() < 2 {
        return None;
    }
    let sei_span_ns = span_ns(sei);
    // A recording with no elapsed capture time has no rate to compare.
    if sei_span_ns <= 0 {
        return None;
    }
    Some(
        CadenceCheck {
            container_span_ns: span_ns(container),
            sei_span_ns,
            mean_interval_ns: sei_span_ns / (sei.len() as i64 - 1),
        },
    )
}

/// Broken means out by more than half a frame, a frame being the exact mean interval
/// of the `n` samples: rounding that down to whole nanoseconds changes nothing.
pub proof fn broken_means_more_than_half_a_frame(check: CadenceCheck, n: int)
    requires
        n >= 2,
        check.sei_span_ns >= 0,
        check.mean_interval_ns == check.sei_span_ns as int / (n - 1),
    ensures
        check.broken() <==> 2 * check.drift() * (n - 1) > check.sei_span_ns,
{
    let s = check.sei_span_ns as int;
    let m = check.mean_interval_ns as int;
    let k = check.drift() * 2;
    let p = n - 1;
    assert(m * p <= s < (m + 1) * p && m >= 0) by (nonlinear_arith)
        requires
            p >= 1,
            s >= 0,
            m == s / p,
    ;
    if k > m {
        assert(k * p >= (m + 1) * p) by (nonlinear_arith)
            requires
                k >= m + 1,
                p >= 1,
        ;
    } else {
        assert(k * p <= m * p) by (nonlinear_arith)
            requires
                k <= m,
                p >= 1,
        ;
    }
    assert(2 * check.drift() * (n - 1) == k * p);
}

/// A container that spans exactly the captured time is never a rate fault,
/// wherever its individual frames lie.
pub proof fn equal_spans_are_not_broken(check: CadenceCheck)
    requires
        check.container_span_ns == check.sei_span_ns,
    ensures
        !check.broken(),
{
}

/// A timeline compressed by `(n-1)/n`, as if `n` sample durations covered the
/// `n-1` captured intervals, is reported at any recording length: its drift is
/// about one frame. (It takes three frames for the drift to exceed half a frame.)
pub proof fn compressed_timeline_is_broken(check: CadenceCheck, n: int)
    requires
        n >= 3,
        check.sei_span_ns >= 1,
        check.mean_interval_ns == check.sei_span_ns as int / (n - 1),
        check.container_span_ns == check.sei_span_ns * (n - 1) / n,
    ensures
        check.broken(),
{
    let s = check.sei_span_ns as int;
    let c = s * (n - 1) / n;
    assert(c * n <= s * (n - 1)) by (nonlinear_arith)
        requires
            n >= 3,
            c == s * (n - 1) / n,
    ;
    assert(c <= s) by (nonlinear_arith)
        requires
            c * n <= s * (n - 1),
            n >= 3,
            s >= 1,
    ;
    let d = s - c;
    // n * drift >= s, and 2 * (n - 1) > n
    assert(2 * d * (n - 1) > s) by (nonlinear_arith)
        requires
            n >= 3,
            s >= 1,
            d == s - c,
            c * n <= s * (n - 1),
    {
        assert(d * n >= s);
        assert(d >= 1);
        assert(2 * d * (n - 1) == d * n + d * (n - 2));
        assert(d * (n - 2) >= 1);
    }
    broken_means_more_than_half_a_frame(check, n);
}

/// Display order goes by the coded video sequence first, by the picture order count
/// within it, and by the place in the file where both are equal. It lists every frame
/// once.
pub proof fn display_order_goes_by_sequence_and_count(frames: Seq<LoadedFrame>)
    ensures
        ({
            let shown = order::stable_order(keys(frames));
            &&& shown.len() == frames.len()
            &&& forall|r: int| 0 <= r < shown.len() ==> 0 <= #[trigger] shown[r] < frames.len()
            &&& forall|i: int| 0 <= i < frames.len() ==> #[trigger] shown.contains(i)
            &&& forall|r: int, s: int|
                #![trigger shown[r], shown[s]]
                0 <= r < s < shown.len() ==> {
                    ||| frames[shown[r]].cvs < frames[shown[s]].cvs
                    ||| frames[shown[r]].cvs == frames[shown[s]].cvs && frames[shown[r]].poc
                        < frames[shown[s]].poc
                    ||| frames[shown[r]].cvs == frames[shown[s]].cvs && frames[shown[r]].poc
                        == frames[shown[s]].poc && shown[r] < shown[s]
                }
        }),
{
    order::stable_order_is_stable(keys(frames));
    let shown = order::stable_order(keys(frames));
    assert forall|r: int, s: int|
        #![trigger shown[r], shown[s]]
        0 <= r < s < shown.len() implies {
        ||| frames[shown[r]].cvs < frames[shown[s]].cvs
        ||| frames[shown[r]].cvs == frames[shown[s]].cvs && frames[shown[r]].poc
            < frames[shown[s]].poc
        ||| frames[shown[r]].cvs == frames[shown[s]].cvs && frames[shown[r]].poc
            == frames[shown[s]].poc && shown[r] < shown[s]
    } by {
        assert(order::before(keys(frames), shown[r], shown[s]));
    }
}

/// There is one listing of the frames by sequence, count and place in the file.
proof fn lemma_listing_is_display_order(frames: Seq<LoadedFrame>, shown: Seq<int>)
    requires
        shown.len() == frames.len(),
        forall|r: int| 0 <= r < shown.len() ==> 0 <= #[trigger] shown[r] < frames.len(),
        forall|i: int| 0 <= i < frames.len() ==> #[trigger] shown.contains(i),
        forall|r: int, s: int|
            #![trigger shown[r], shown[s]]
            0 <= r < s < shown.len() ==> {
                ||| frames[shown[r]].cvs < frames[shown[s]].cvs
                ||| frames[shown[r]].cvs == frames[shown[s]].cvs && frames[shown[r]].poc
                    < frames[shown[s]].poc
                ||| frames[shown[r]].cvs == frames[shown[s]].cvs && frames[shown[r]].poc
                    == frames[shown[s]].poc && shown[r] < shown[s]
            },
    ensures
        shown == order::stable_order(keys(frames)),
{
    order::stable_order_is_stable(keys(frames));
    assert forall|r: int, s: int|
        #![trigger shown[r], shown[s]]
        0 <= r < s < shown.len() implies order::before(keys(frames), shown[r], shown[s]) by {
        assert(frames[shown[r]].cvs <= frames[shown[s]].cvs);
    }
    assert(order::is_stable_order(keys(frames), shown));
    order::stable_order_is_unique(keys(frames), shown, order::stable_order(keys(frames)));
}

/// The places in a series that hold less than the place just before.
pub open spec fn places_of_steps_back(series: Seq<int>) -> Set<int> {
    Set::new(|k: int| 0 < k < series.len() && series[k] < series[k - 1])
}

proof fn lemma_inversions_are_places(series: Seq<int>)
    ensures
        places_of_steps_back(series).finite(),
        places_of_steps_back(series).len() == inversions(series),
        forall|k: int|
            0 < k < series.len() ==> largest_step_back(series) >= series[k - 1] - #[trigger] series[k],
        largest_step_back(series) == 0 || exists|k: int|
            0 < k < series.len() && largest_step_back(series) == series[k - 1]
                - #[trigger] series[k],
    decreases series.len(),
{
    let places = places_of_steps_back(series);
    if series.len() < 2 {
        assert(places =~= Set::<int>::empty());
    } else {
        let shorter = series.drop_last();
        let n = series.len() - 1;
        lemma_inversions_are_places(shorter);
        let earlier = places_of_steps_back(shorter);
        assert forall|k: int| 0 <= k < n implies shorter[k] == series[k] by {}
        if series[n] < series[n - 1] {
            assert(places =~= earlier.insert(n));
            assert(!earlier.contains(n));
        } else {
            assert(places =~= earlier);
        }
        assert forall|k: int| 0 < k < series.len() implies largest_step_back(series) >= series[k
            - 1] - #[trigger] series[k] by {
            if k < n {
                assert(shorter[k] == series[k]);
            }
        }
        if largest_step_back(series) != 0 {
            if largest_step_back(series) == series[n - 1] - series[n] {
            } else {
                let k = choose|k: int|
                    0 < k < shorter.len() && largest_step_back(shorter) == shorter[k - 1]
                        - #[trigger] shorter[k];
                assert(largest_step_back(series) == series[k - 1] - series[k]);
            }
        }
    }
}

/// Analysis looks at every two frames shown one after the other. Given the frames as
/// they are shown (by sequence, then count, then place in the file), it counts those
/// stamped earlier than the one shown just before, and keeps the largest such step.
pub proof fn analysis_compares_neighbours_as_shown(
    analysis: Analysis,
    frames: Seq<LoadedFrame>,
    shown: Seq<int>,
)
    requires
        describes(analysis, frames),
        shown.len() == frames.len(),
        forall|r: int| 0 <= r < shown.len() ==> 0 <= #[trigger] shown[r] < frames.len(),
        forall|i: int| 0 <= i < frames.len() ==> #[trigger] shown.contains(i),
        forall|r: int, s: int|
            #![trigger shown[r], shown[s]]
            0 <= r < s < shown.len() ==> {
                ||| frames[shown[r]].cvs < frames[shown[s]].cvs
                ||| frames[shown[r]].cvs == frames[shown[s]].cvs && frames[shown[r]].poc
                    < frames[shown[s]].poc
                ||| frames[shown[r]].cvs == frames[shown[s]].cvs && frames[shown[r]].poc
                    == frames[shown[s]].poc && shown[r] < shown[s]
            },
    ensures
        analysis.num_frames == frames.len(),
        analysis.num_inversions == Set::new(
            |k: int|
                0 < k < frames.len() && frames[shown[k]].pts_ns < frames[shown[k - 1]].pts_ns,
        ).len(),
        forall|k: int|
            0 < k < frames.len() ==> analysis.max_inversion_ns >= frames[shown[k - 1]].pts_ns
                - frames[#[trigger] shown[k]].pts_ns,
        analysis.max_inversion_ns == 0 || exists|k: int|
            0 < k < frames.len() && analysis.max_inversion_ns == frames[shown[k - 1]].pts_ns
                - frames[#[trigger] shown[k]].pts_ns,
{
    lemma_listing_is_display_order(frames, shown);
    let series = display_times(frames);
    lemma_inversions_are_places(series);
    assert forall|k: int| 0 <= k < frames.len() implies series[k]
        == frames[#[trigger] shown[k]].pts_ns by {}
    let raw = Set::new(
        |k: int| 0 < k < frames.len() && frames[shown[k]].pts_ns < frames[shown[k - 1]].pts_ns,
    );
    assert(places_of_steps_back(series) =~= raw) by {
        assert forall|k: int| raw.contains(k) <==> places_of_steps_back(series).contains(k) by {
            if 0 < k < frames.len() {
                assert(series[k] == frames[shown[k]].pts_ns);
                assert(series[k - 1] == frames[shown[k - 1]].pts_ns);
            }
        }
    }
    assert forall|k: int| 0 < k < frames.len() implies analysis.max_inversion_ns
        >= frames[shown[k - 1]].pts_ns - frames[#[trigger] shown[k]].pts_ns by {
        assert(series[k] == frames[shown[k]].pts_ns);
        assert(series[k - 1] == frames[shown[k - 1]].pts_ns);
    }
    if analysis.max_inversion_ns != 0 {
        let k = choose|k: int|
            0 < k < series.len() && largest_step_back(series) == series[k - 1]
                - #[trigger] series[k];
        assert(series[k] == frames[shown[k]].pts_ns);
        assert(series[k - 1] == frames[shown[k - 1]].pts_ns);
    }
}

/// A recording is reported broken exactly when two of its frames contradict each
/// other: one comes first in display order, by sequence or by count within a sequence
/// (or by place in the file where both are equal), and is stamped later.
pub proof fn broken_means_two_frames_contradict(analysis: Analysis, frames: Seq<LoadedFrame>)
    requires
        describes(analysis, frames),
    ensures
        analysis.num_inversions > 0 <==> exists|i: int, j: int|
            #![trigger frames[i], frames[j]]
            0 <= i < frames.len() && 0 <= j < frames.len() && frames[i].pts_ns > frames[j].pts_ns
                && (frames[i].cvs < frames[j].cvs || (frames[i].cvs == frames[j].cvs
                && frames[i].poc < frames[j].poc) || (frames[i].cvs == frames[j].cvs
                && frames[i].poc == frames[j].poc && i < j)),
{
    let shown = order::stable_order(keys(frames));
    let series = display_times(frames);
    display_order_goes_by_sequence_and_count(frames);
    broken_means_out_of_display_order(analysis, frames);
    if !non_decreasing(series) {
        let (r, s) = choose|r: int, s: int|
            0 <= r <= s < series.len() && !(series[r] <= series[s]);
        let i = shown[r];
        let j = shown[s];
        assert(series[r] == frames[i].pts_ns && series[s] == frames[j].pts_ns);
    }
    if exists|i: int, j: int|
        #![trigger frames[i], frames[j]]
        0 <= i < frames.len() && 0 <= j < frames.len() && frames[i].pts_ns > frames[j].pts_ns && (
        frames[i].cvs < frames[j].cvs || (frames[i].cvs == frames[j].cvs && frames[i].poc
            < frames[j].poc) || (frames[i].cvs == frames[j].cvs && frames[i].poc == frames[j].poc
            && i < j)) {
        let (i, j) = choose|i: int, j: int|
            #![trigger frames[i], frames[j]]
            0 <= i < frames.len() && 0 <= j < frames.len() && frames[i].pts_ns > frames[j].pts_ns
                && (frames[i].cvs < frames[j].cvs || (frames[i].cvs == frames[j].cvs
                && frames[i].poc < frames[j].poc) || (frames[i].cvs == frames[j].cvs
                && frames[i].poc == frames[j].poc && i < j));
        assert(shown.contains(i) && shown.contains(j));
        let r = choose|r: int| 0 <= r < shown.len() && shown[r] == i;
        let s = choose|s: int| 0 <= s < shown.len() && shown[s] == j;
        assert(shown[r] == i && shown[s] == j);
        assert(r < s);
        assert(series[r] == frames[i].pts_ns && series[s] == frames[j].pts_ns);
        assert(!(series[r] <= series[s]));
    }
}

/// The span of a series is the widest difference between any two of its times.
pub proof fn span_is_the_widest_difference(frames: Seq<LoadedFrame>)
    ensures
        frames.len() == 0 ==> span(frames) == 0,
        forall|i: int, j: int|
            0 <= i < frames.len() && 0 <= j < frames.len() ==> (#[trigger] frames[i]).pts_ns - (
            #[trigger] frames[j]).pts_ns <= span(frames),
        frames.len() > 0 ==> exists|i: int, j: int|
            0 <= i < frames.len() && 0 <= j < frames.len() && (#[trigger] frames[i]).pts_ns - (
            #[trigger] frames[j]).pts_ns == span(frames),
{
    if frames.len() > 0 {
        let ts = times(frames);
        ts.max_ensures();
        ts.min_ensures();
        assert forall|i: int, j: int|
            0 <= i < frames.len() && 0 <= j < frames.len() implies (#[trigger] frames[i]).pts_ns - (
        #[trigger] frames[j]).pts_ns <= span(frames) by {
            assert(ts[i] == frames[i].pts_ns && ts[j] == frames[j].pts_ns);
            assert(ts.contains(ts[i]) && ts.contains(ts[j]));
        }
        let i = choose|i: int| 0 <= i < ts.len() && ts[i] == ts.max();
        let j = choose|j: int| 0 <= j < ts.len() && ts[j] == ts.min();
        assert(ts[i] == frames[i].pts_ns && ts[j] == frames[j].pts_ns);
        assert(frames[i].pts_ns - frames[j].pts_ns == span(frames));
    }
}

/// A recording has a rate to compare exactly when both series have the same number of
/// frames, two at least, and two capture times differ. The interval is the captured
/// span over the number of intervals, rounded down.
pub proof fn cadence_compares_whole_spans(container: Seq<LoadedFrame>, sei: Seq<LoadedFrame>)
    ensures
        cadence_of(container, sei) is Some <==> container.len() == sei.len() && sei.len() >= 2
            && exists|i: int, j: int|
            0 <= i < sei.len() && 0 <= j < sei.len() && (#[trigger] sei[i]).pts_ns > (
            #[trigger] sei[j]).pts_ns,
        cadence_of(container, sei) matches Some((played, captured, interval)) ==> {
            &&& played == span(container)
            &&& captured == span(sei)
            &&& interval * (sei.len() - 1) <= captured < (interval + 1) * (sei.len() - 1)
        },
{
    span_is_the_widest_difference(sei);
    if sei.len() > 0 && span(sei) > 0 {
        let (i, j) = choose|i: int, j: int|
            0 <= i < sei.len() && 0 <= j < sei.len() && (#[trigger] sei[i]).pts_ns - (
            #[trigger] sei[j]).pts_ns == span(sei);
        assert(sei[i].pts_ns > sei[j].pts_ns);
    }
    if cadence_of(container, sei) is Some {
        let s = span(sei);
        let p = sei.len() - 1;
        let m = s / p;
        assert(m * p <= s < (m + 1) * p) by (nonlinear_arith)
            requires
                p >= 1,
                m == s / p,
        ;
    }
}

/// A container is off by more than half a frame, on either side of the captured time,
/// exactly when the check says so.
pub proof fn off_by_half_a_frame_on_either_side(check: CadenceCheck, n: int)
    requires
        n >= 2,
        check.sei_span_ns >= 0,
        check.mean_interval_ns == check.sei_span_ns as int / (n - 1),
    ensures
        check.broken() <==> 2 * (check.container_span_ns - check.sei_span_ns) * (n - 1)
            > check.sei_span_ns || 2 * (check.sei_span_ns - check.container_span_ns) * (n - 1)
            > check.sei_span_ns,
        check.drift() >= check.container_span_ns - check.sei_span_ns,
        check.drift() >= check.sei_span_ns - check.container_span_ns,
        check.drift() == check.container_span_ns - check.sei_span_ns || check.drift()
            == check.sei_span_ns - check.container_span_ns,
{
    broken_means_more_than_half_a_frame(check, n);
    let d = check.container_span_ns - check.sei_span_ns;
    let p = n - 1;
    assert(d >= 0 ==> 2 * (-d) * p <= 0) by (nonlinear_arith)
        requires
            p >= 1,
    ;
    assert(d <= 0 ==> 2 * d * p <= 0) by (nonlinear_arith)
        requires
            p >= 1,
    ;
}

/// The description of a rate fault calls the container fast exactly when its timeline
/// is the shorter one; otherwise nothing but the figures differs.
pub proof fn a_shorter_timeline_is_fast(a: CadenceCheck, b: CadenceCheck, figures: CadenceFigures)
    requires
        a.container_span_ns < a.sei_span_ns,
        b.container_span_ns >= b.sei_span_ns,
    ensures
        exists|head: Seq<char>, tail: Seq<char>|
            #![trigger head + tail]
            head == "container plays "@ + figures.rate_percent@ + "% too "@ && a.description(
                figures,
            ) == head + "fast"@ + tail && b.description(figures) == head + "slow"@ + tail && tail
                == ": its timeline spans "@ + figures.container_ms@ + "ms against "@
                + figures.sei_ms@ + "ms of capture, a drift of "@ + figures.drift_ms@ + "ms (~"@
                + figures.drift_frames@ + " frames)"@,
{
    let head = "container plays "@ + figures.rate_percent@ + "% too "@;
    let tail = ": its timeline spans "@ + figures.container_ms@ + "ms against "@ + figures.sei_ms@
        + "ms of capture, a drift of "@ + figures.drift_ms@ + "ms (~"@ + figures.drift_frames@
        + " frames)"@;
    assert(head + tail == head + tail);
    assert(a.description(figures) =~= head + "fast"@ + tail);
    assert(b.description(figures) =~= head + "slow"@ + tail);
}

/// Whatever the interval, the timeline is out by more than half of it exactly if twice
/// the difference, to either side, exceeds it. A negative interval is none to compare
/// with.
pub proof fn more_than_half_an_interval_is_broken(check: CadenceCheck)
    ensures
        check.mean_interval_ns < 0 ==> !check.broken(),
        check.mean_interval_ns >= 0 ==> (check.broken() <==> 2 * check.container_span_ns - 2
            * check.sei_span_ns > check.mean_interval_ns || 2 * check.sei_span_ns - 2
            * check.container_span_ns > check.mean_interval_ns),
{
}

/// Two series cannot be compared only where a counter of 64 bits cannot hold what is
/// compared: the number of frames, or the difference between two times of a series.
pub proof fn only_wide_series_are_out_of_range(
    container: Seq<LoadedFrame>,
    sei: Seq<LoadedFrame>,
)
    ensures
        !cadence_fits(container, sei) ==> container.len() == sei.len() && sei.len() >= 2 && (
        sei.len() >= 0x8000_0000_0000_0000 || (exists|i: int, j: int|
            0 <= i < sei.len() && 0 <= j < sei.len() && (#[trigger] sei[i]).pts_ns - (
            #[trigger] sei[j]).pts_ns >= 0x8000_0000_0000_0000) || (exists|i: int, j: int|
            0 <= i < container.len() && 0 <= j < container.len() && (
            #[trigger] container[i]).pts_ns - (#[trigger] container[j]).pts_ns
                >= 0x8000_0000_0000_0000)),
{
    span_is_the_widest_difference(container);
    span_is_the_widest_difference(sei);
    if !cadence_fits(container, sei) {
        let (i, j) = choose|i: int, j: int|
            0 <= i < sei.len() && 0 <= j < sei.len() && (#[trigger] sei[i]).pts_ns - (
            #[trigger] sei[j]).pts_ns == span(sei);
        let (k, l) = choose|k: int, l: int|
            0 <= k < container.len() && 0 <= l < container.len() && (
            #[trigger] container[k]).pts_ns - (#[trigger] container[l]).pts_ns == span(container);
        assert(sei[i].pts_ns - sei[j].pts_ns == span(sei));
        assert(container[k].pts_ns - container[l].pts_ns == span(container));
    }
}

} // verus!
