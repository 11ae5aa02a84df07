//! What a repaired file is written from: its samples, rid of the timestamps that
//! were wrong and given the right ones.

use crate::clock;
use crate::clock::CaptureTime;
use crate::fix::{FixFrame, RepairedTiming};
use crate::nal;
use vstd::prelude::*;

verus! {

/// A whole file loaded for repair.
#[derive(Debug)]
pub struct Loaded {
    pub frames: Vec<FixFrame>,
    pub width: u32,
    pub height: u32,
    /// Parameter sets kept by the container (MP4). `None` for Annex B, whose
    /// parameter sets ride inline in the samples and are written again as they are.
    pub first_sps: Option<Vec<u8>>,
    pub first_pps: Option<Vec<u8>>,
    pub frame0_time: CaptureTime,
}

impl Loaded {
    /// Are there parameter sets to pass through to the new file?
    pub fn passes_parameter_sets(&self) -> (passes: bool)
        ensures
            passes == (self.first_sps is Some || self.first_pps is Some),
    {
        self.first_sps.is_some() || self.first_pps.is_some()
    }
}

/// A sample to be written to the repaired file.
#[derive(Debug)]
pub struct RepairedSample {
    pub nals: Vec<Vec<u8>>,
    /// Decode duration, nanoseconds.
    pub decode_duration_ns: u64,
    /// Composition offset, nanoseconds.
    pub composition_offset_ns: i64,
    /// Capture time to write into the sample.
    pub sei_timestamp: CaptureTime,
}

/// The units that are no precision-timestamp SEI, in their order.
pub open spec fn kept_units(nals: Seq<Seq<u8>>) -> Seq<Seq<u8>> {
    nals.filter(|n: Seq<u8>| !nal::is_timestamp_sei(n))
}

/// Every unit has a header byte.
pub open spec fn all_have_headers(nals: Seq<Seq<u8>>) -> bool {
    forall|i: int| 0 <= i < nals.len() ==> (#[trigger] nals[i]).len() > 0
}

/// Does every unit have a header byte?
pub fn have_headers(nals: &Vec<Vec<u8>>) -> (yes: bool)
    ensures
        yes == all_have_headers(nal::units(nals@)),
{
    let ghost all = nal::units(nals@);
    let mut i: usize = 0;
    while i < nals.len()
        invariant
            all == nal::units(nals@),
            i <= nals.len(),
            forall|j: int| 0 <= j < i ==> (#[trigger] all[j]).len() > 0,
        decreases nals.len() - i,
    {
        assert(all[i as int] == nals@[i as int]@);
        if nals[i].len() == 0 {
            return false;
        }
        i += 1;
    }
    true
}

fn copy_bytes(bytes: &Vec<u8>) -> (copy: Vec<u8>)
    ensures
        copy@ == bytes@,
{
    let mut copy: Vec<u8> = Vec::new();
    let mut i: usize = 0;
    while i < bytes.len()
        invariant
            i <= bytes.len(),
            copy@ =~= bytes@.take(i as int),
        decreases bytes.len() - i,
    {
        copy.push(bytes[i]);
        i += 1;
    }
    assert(copy@ =~= bytes@);
    copy
}

/// Copies the units that are no precision-timestamp SEI.
fn keep_units(nals: &Vec<Vec<u8>>) -> (kept: Vec<Vec<u8>>)
    requires
        all_have_headers(nal::units(nals@)),
    ensures
        nal::units(kept@) == kept_units(nal::units(nals@)),
{
    let ghost all = nal::units(nals@);
    let ghost keeps = |n: Seq<u8>| !nal::is_timestamp_sei(n);
    let mut kept: Vec<Vec<u8>> = Vec::new();
    let mut i: usize = 0;
    proof {
        reveal(Seq::filter);
        assert(all.take(0).filter(keeps) =~= seq![]);
        assert(nal::units(kept@) =~= seq![]);
    }
    while i < nals.len()
        invariant
            all == nal::units(nals@),
            all_have_headers(all),
            keeps == (|n: Seq<u8>| !nal::is_timestamp_sei(n)),
            i <= nals.len(),
            nal::units(kept@) == all.take(i as int).filter(keeps),
        decreases nals.len() - i,
    {
        proof {
            reveal(Seq::filter);
            assert(all[i as int] == nals@[i as int]@);
            assert(all.take(i + 1).drop_last() =~= all.take(i as int));
            assert(all.take(i + 1).last() == all[i as int]);
        }
        let ghost before = kept@;
        if !nal::is_precision_timestamp_sei(nals[i].as_slice()) {
            let copy = copy_bytes(&nals[i]);
            kept.push(copy);
            assert(nal::units(kept@) =~= nal::units(before).push(all[i as int]));
        }
        i += 1;
    }
    assert(all.take(nals@.len() as int) =~= all);
    kept
}

/// The sample to write for `frame` with its repaired timing, in a recording that
/// starts at `frame0_time`. `None` if the capture time lies beyond the calendar.
///
/// The (mistagged) precision-timestamp SEI of the file is dropped, so that the
/// corrected one written with the sample is the only one; otherwise a reader would
/// still pick up the stale timestamp.
pub fn repaired_sample(
    frame: &FixFrame,
    timing: &RepairedTiming,
    frame0_time: CaptureTime,
) -> (sample: Option<RepairedSample>)
    requires
        all_have_headers(nal::units(frame.nals@)),
        frame0_time.wf(),
    ensures
        sample is Some <==> clock::in_calendar(frame0_time.ns() + timing.corrected_pts_ns),
        sample matches Some(s) ==> {
            &&& nal::units(s.nals@) == kept_units(nal::units(frame.nals@))
            &&& s.decode_duration_ns == timing.decode_duration_ns
            &&& s.composition_offset_ns == timing.composition_offset_ns
            &&& s.sei_timestamp.wf()
            &&& s.sei_timestamp.ns() == frame0_time.ns() + timing.corrected_pts_ns
            &&& s.sei_timestamp.secs * 1_000_000_000 + s.sei_timestamp.subsec_ns
                == frame0_time.secs * 1_000_000_000 + frame0_time.subsec_ns
                + timing.corrected_pts_ns
        },
{
    match frame0_time.after_ns(timing.corrected_pts_ns) {
        Some(sei_timestamp) => Some(
            RepairedSample {
                nals: keep_units(&frame.nals),
                decode_duration_ns: timing.decode_duration_ns,
                composition_offset_ns: timing.composition_offset_ns,
                sei_timestamp,
            },
        ),
        None => None,
    }
}

/// No stale timestamp stays behind, and nothing else is lost: the units kept are
/// exactly those that are no precision-timestamp SEI, each as often as before.
pub proof fn only_stale_timestamps_are_dropped(nals: Seq<Seq<u8>>, unit: Seq<u8>)
    ensures
        kept_units(nals).contains(unit) ==> !nal::is_timestamp_sei(unit),
        nal::is_timestamp_sei(unit) ==> kept_units(nals).to_multiset().count(unit) == 0,
        !nal::is_timestamp_sei(unit) ==> kept_units(nals).to_multiset().count(unit)
            == nals.to_multiset().count(unit),
{
    broadcast use vstd::seq_lib::group_to_multiset_ensures;

    let keeps = |n: Seq<u8>| !nal::is_timestamp_sei(n);
    lemma_filter_counts(nals, keeps, unit);
}

proof fn lemma_filter_counts(nals: Seq<Seq<u8>>, keeps: spec_fn(Seq<u8>) -> bool, unit: Seq<u8>)
    ensures
        nals.filter(keeps).to_multiset().count(unit) == if keeps(unit) {
            nals.to_multiset().count(unit)
        } else {
            0
        },
        nals.filter(keeps).contains(unit) ==> keeps(unit),
    decreases nals.len(),
{
    broadcast use vstd::seq_lib::group_to_multiset_ensures;

    reveal(Seq::filter);
    if nals.len() > 0 {
        let shorter = nals.drop_last();
        lemma_filter_counts(shorter, keeps, unit);
        assert(nals =~= shorter.push(nals.last()));
    }
}

/// A unit of supplemental information that holds the text `MISPmicrosectime` anywhere
/// is not among the units of the repaired sample.
pub proof fn marked_sei_is_not_kept(nals: Seq<Seq<u8>>, unit: Seq<u8>, at: int)
    requires
        unit.len() > 0,
        unit[0] < 128,
        unit[0] % 32 == 6,
        0 <= at,
        at + 16 <= unit.len(),
        unit[at] == 0x4d && unit[at + 1] == 0x49 && unit[at + 2] == 0x53 && unit[at + 3] == 0x50,
        unit[at + 4] == 0x6d && unit[at + 5] == 0x69 && unit[at + 6] == 0x63 && unit[at + 7]
            == 0x72,
        unit[at + 8] == 0x6f && unit[at + 9] == 0x73 && unit[at + 10] == 0x65 && unit[at + 11]
            == 0x63,
        unit[at + 12] == 0x74 && unit[at + 13] == 0x69 && unit[at + 14] == 0x6d && unit[at + 15]
            == 0x65,
    ensures
        !kept_units(nals).contains(unit),
{
    nal::marked_sei_is_a_timestamp(unit, at);
    only_stale_timestamps_are_dropped(nals, unit);
}

/// The units kept stand in the order they had: `from` tells where each of them stood,
/// and every other unit was supplemental information.
pub proof fn kept_units_keep_their_order(nals: Seq<Seq<u8>>) -> (from: Seq<int>)
    requires
        all_have_headers(nals),
    ensures
        from.len() == kept_units(nals).len(),
        forall|k: int|
            0 <= k < from.len() ==> 0 <= #[trigger] from[k] < nals.len() && kept_units(nals)[k]
                == nals[from[k]],
        forall|k: int, m: int| 0 <= k < m < from.len() ==> from[k] < from[m],
        forall|i: int|
            0 <= i < nals.len() && !from.contains(i) ==> (#[trigger] nals[i])[0] < 128 && nals[i][0]
                % 32 == 6 && nals[i].len() > 16,
    decreases nals.len(),
{
    reveal(Seq::filter);
    let keeps = |n: Seq<u8>| !nal::is_timestamp_sei(n);
    if nals.len() == 0 {
        seq![]
    } else {
        let shorter = nals.drop_last();
        let last = nals.len() - 1;
        assert forall|i: int| 0 <= i < shorter.len() implies (#[trigger] shorter[i]).len() > 0 by {
            assert(shorter[i] == nals[i]);
        }
        let earlier = kept_units_keep_their_order(shorter);
        let from = if keeps(nals.last()) {
            earlier.push(last)
        } else {
            earlier
        };
        assert(kept_units(nals) == if keeps(nals.last()) {
            kept_units(shorter).push(nals.last())
        } else {
            kept_units(shorter)
        });
        assert forall|i: int| 0 <= i < nals.len() && !from.contains(i) implies (
        #[trigger] nals[i])[0] < 128 && nals[i][0] % 32 == 6 && nals[i].len() > 16 by {
            if i < last {
                assert(shorter[i] == nals[i]);
                if earlier.contains(i) {
                    let k = choose|k: int| 0 <= k < earlier.len() && earlier[k] == i;
                    assert(from[k] == i);
                }
            } else {
                if keeps(nals.last()) {
                    assert(from[earlier.len() as int] == i);
                }
                let at = nal::timestamp_is_a_marked_sei(nals[i]);
                if at == 0 {
                    assert(nals[i][0] == 0x4d);
                    assert(0x4du8 % 32 == 13);
                }
            }
        }
        from
    }
}

/// One byte is enough of a header, and only an empty unit has none.
pub proof fn only_an_empty_unit_has_no_header(nals: Seq<Seq<u8>>)
    ensures
        all_have_headers(nals) <==> !nals.contains(Seq::<u8>::empty()),
{
    if nals.contains(Seq::<u8>::empty()) {
        let i = choose|i: int| 0 <= i < nals.len() && nals[i] == Seq::<u8>::empty();
        assert(nals[i].len() == 0);
    }
    if !all_have_headers(nals) {
        let i = choose|i: int| 0 <= i < nals.len() && (#[trigger] nals[i]).len() == 0;
        assert(nals[i] =~= Seq::<u8>::empty());
    }
}

} // verus!
