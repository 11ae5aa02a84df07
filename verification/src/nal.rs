//! What the tools need to know of H.264 NAL units: where a coded video sequence
//! starts, and which units carry a precision timestamp.

use h264_reader::nal::{Nal, RefNal};
use vstd::prelude::*;

verus! {

/// NAL unit type of a coded slice of an IDR picture.
pub const IDR_SLICE: u8 = 5;

/// NAL unit type of supplemental enhancement information.
pub const SEI: u8 = 6;

/// Length of the precision-timestamp marker.
pub const MARKER_LEN: usize = 16;

/// The unit type a NAL header byte names, `None` if its forbidden bit is set.
pub open spec fn header_type(header: u8) -> Option<u8> {
    if header >= 128 {
        None
    } else {
        Some((header % 32) as u8)
    }
}

/// The unit type of a NAL unit.
pub open spec fn unit_type_of(nal: Seq<u8>) -> Option<u8> {
    header_type(nal[0])
}

/// `nal` is a slice of an IDR picture.
pub open spec fn is_idr(nal: Seq<u8>) -> bool {
    unit_type_of(nal) == Some(IDR_SLICE)
}

/// The 16-byte UUID marking a MISB ST 0604 precision-timestamp SEI, which is the
/// ASCII text `MISPmicrosectime`.
pub open spec fn misp_marker() -> Seq<u8> {
    seq![
        0x4d, 0x49, 0x53, 0x50, 0x6d, 0x69, 0x63, 0x72, 0x6f, 0x73, 0x65, 0x63, 0x74, 0x69, 0x6d,
        0x65,
    ]
}

/// The marker occurs in `bytes` at `at`.
pub open spec fn marker_at(bytes: Seq<u8>, at: int) -> bool {
    &&& 0 <= at
    &&& at + MARKER_LEN <= bytes.len()
    &&& bytes.subrange(at, at + MARKER_LEN) == misp_marker()
}

/// `nal` is a precision-timestamp SEI NAL unit.
pub open spec fn is_timestamp_sei(nal: Seq<u8>) -> bool {
    unit_type_of(nal) == Some(SEI) && exists|at: int| marker_at(nal, at)
}

/// The NAL units of a sample as byte sequences.
pub open spec fn units(nals: Seq<Vec<u8>>) -> Seq<Seq<u8>> {
    nals.map_values(|n: Vec<u8>| n@)
}

/// A sample starts a coded video sequence: one of its units is an IDR slice.
pub open spec fn starts_sequence(nals: Seq<Seq<u8>>) -> bool {
    exists|i: int| 0 <= i < nals.len() && is_idr(#[trigger] nals[i])
}

/// Every unit looked at while searching for an IDR slice has a header byte.
pub open spec fn searchable(nals: Seq<Seq<u8>>) -> bool {
    forall|i: int|
        0 <= i < nals.len() && #[trigger] nals[i].len() == 0 ==> starts_sequence(nals.take(i))
}

/// Reads a NAL unit's type through `h264_reader`: `RefNal::new` on the whole unit,
/// its `header` and that header's `nal_unit_type`.
///
/// Relied on: the header is the first byte; it is refused exactly when its top
/// bit is set, and otherwise its low five bits are the type's number. `RefNal::new`
/// panics on an empty unit, so there must be a first byte.
#[verifier::external_body]
fn unit_type(nal: &[u8]) -> (id: Option<u8>)
    requires
        nal@.len() > 0,
    ensures
        id == unit_type_of(nal@),
{
    RefNal::new(nal, &[], true).header().ok().map(|h| h.nal_unit_type().id())
}

/// Can [`starts_coded_video_sequence`] look through these units? It cannot get
/// past an empty one.
pub fn is_searchable(nals: &Vec<Vec<u8>>) -> (ok: bool)
    ensures
        ok == searchable(units(nals@)),
{
    let ghost all = units(nals@);
    let mut i: usize = 0;
    while i < nals.len()
        invariant
            all == units(nals@),
            i <= nals.len(),
            forall|j: int| 0 <= j < i ==> (#[trigger] all[j]).len() > 0 && !is_idr(all[j]),
        decreases nals.len() - i,
    {
        assert(all[i as int] == nals@[i as int]@);
        if nals[i].len() == 0 {
            proof {
                assert forall|j: int| 0 <= j < i implies !is_idr(#[trigger] all.take(i as int)[j]) by {
                    assert(all.take(i as int)[j] == all[j]);
                }
                assert(!starts_sequence(all.take(i as int)));
            }
            return false;
        }
        if is_idr_unit(nals[i].as_slice()) {
            proof {
                assert forall|k: int| 0 <= k < all.len() && #[trigger] all[k].len() == 0 implies
                    starts_sequence(all.take(k)) by {
                    assert(k > i);
                    assert(all.take(k)[i as int] == all[i as int]);
                }
            }
            return true;
        }
        i += 1;
    }
    true
}

fn is_idr_unit(nal: &[u8]) -> (yes: bool)
    requires
        nal@.len() > 0,
    ensures
        yes == is_idr(nal@),
{
    match unit_type(nal) {
        Some(id) => id == IDR_SLICE,
        None => false,
    }
}

/// Does this sample start a new coded video sequence? An IDR resets POC, so it
/// is where the display-order sort key has to be bumped.
pub fn starts_coded_video_sequence(nals: &Vec<Vec<u8>>) -> (starts: bool)
    requires
        searchable(units(nals@)),
    ensures
        starts == starts_sequence(units(nals@)),
        starts <==> exists|i: int|
            0 <= i < nals@.len() && (#[trigger] nals@[i])@.len() > 0 && nals@[i]@[0] < 128
                && nals@[i]@[0] % 32 == 5,
{
    proof {
        sequence_starts_with_an_idr_slice(units(nals@));
        assert forall|i: int| 0 <= i < nals@.len() implies units(nals@)[i]
            == (#[trigger] nals@[i])@ by {}
        if starts_sequence(units(nals@)) {
            let k = choose|k: int|
                0 <= k < units(nals@).len() && (#[trigger] units(nals@)[k]).len() > 0 && units(
                    nals@,
                )[k][0] < 128 && units(nals@)[k][0] % 32 == 5;
            assert(nals@[k]@.len() > 0);
        }
    }
    let ghost all = units(nals@);
    let mut i: usize = 0;
    while i < nals.len()
        invariant
            all == units(nals@),
            searchable(all),
            i <= nals.len(),
            forall|j: int| 0 <= j < i ==> !is_idr(#[trigger] all[j]),
        decreases nals.len() - i,
    {
        proof {
            assert(all[i as int] == nals@[i as int]@);
            if all[i as int].len() == 0 {
                assert(starts_sequence(all.take(i as int)));
                let j = choose|j: int| 0 <= j < i && is_idr(#[trigger] all.take(i as int)[j]);
                assert(all.take(i as int)[j] == all[j]);
            }
        }
        if is_idr_unit(nals[i].as_slice()) {
            return true;
        }
        i += 1;
    }
    false
}

fn matches_marker(bytes: &[u8], at: usize) -> (yes: bool)
    requires
        at + MARKER_LEN <= bytes@.len(),
    ensures
        yes == marker_at(bytes@, at as int),
{
    let marker: [u8; 16] = [
        0x4d, 0x49, 0x53, 0x50, 0x6d, 0x69, 0x63, 0x72, 0x6f, 0x73, 0x65, 0x63, 0x74, 0x69, 0x6d,
        0x65,
    ];
    assert(marker@ =~= misp_marker());
    let len: usize = bytes.len();
    let mut k: usize = 0;
    while k < 16
        invariant
            marker@ == misp_marker(),
            len == bytes@.len(),
            at + MARKER_LEN <= len,
            k <= 16,
            forall|j: int| 0 <= j < k ==> bytes@[at + j] == marker@[j],
        decreases 16 - k,
    {
        if bytes[at + k] != marker[k] {
            assert(bytes@.subrange(at as int, at + MARKER_LEN)[k as int] != misp_marker()[k as int]);
            return false;
        }
        k += 1;
    }
    assert(bytes@.subrange(at as int, at + MARKER_LEN) =~= misp_marker());
    true
}

/// Is `nal_bytes` a precision-timestamp SEI NAL? The marker is plain ASCII with
/// no `00 00` runs, so emulation prevention never splits it and a raw byte search
/// of the NAL is reliable.
pub fn is_precision_timestamp_sei(nal_bytes: &[u8]) -> (yes: bool)
    requires
        nal_bytes@.len() > 0,
    ensures
        yes == is_timestamp_sei(nal_bytes@),
{
    let is_sei = match unit_type(nal_bytes) {
        Some(id) => id == SEI,
        None => false,
    };
    if !is_sei || nal_bytes.len() < MARKER_LEN {
        return false;
    }
    let mut at: usize = 0;
    while at <= nal_bytes.len() - MARKER_LEN
        invariant
            MARKER_LEN <= nal_bytes@.len(),
            at <= nal_bytes@.len() - MARKER_LEN + 1,
            unit_type_of(nal_bytes@) == Some(SEI),
            forall|j: int| 0 <= j < at ==> !marker_at(nal_bytes@, j),
        decreases nal_bytes@.len() - at,
    {
        if matches_marker(nal_bytes, at) {
            return true;
        }
        at += 1;
    }
    false
}

/// A sample starts a coded video sequence exactly when the first byte of one of its
/// units is below 128 and has 5 in its low five bits. Units of any other type (slices,
/// supplemental information, parameter sets, delimiters) do not make it start one.
pub proof fn sequence_starts_with_an_idr_slice(nals: Seq<Seq<u8>>)
    requires
        searchable(nals),
    ensures
        starts_sequence(nals) <==> exists|i: int|
            0 <= i < nals.len() && (#[trigger] nals[i]).len() > 0 && nals[i][0] < 128 && nals[i][0]
                % 32 == 5,
{
    if starts_sequence(nals) {
        lemma_first_idr(nals);
    }
    if exists|i: int|
        0 <= i < nals.len() && (#[trigger] nals[i]).len() > 0 && nals[i][0] < 128 && nals[i][0]
            % 32 == 5 {
        let i = choose|i: int|
            0 <= i < nals.len() && (#[trigger] nals[i]).len() > 0 && nals[i][0] < 128 && nals[i][0]
                % 32 == 5;
        assert(is_idr(nals[i]));
    }
}

/// Where the search for an IDR slice succeeds, it does so on a unit with a header.
proof fn lemma_first_idr(nals: Seq<Seq<u8>>)
    requires
        searchable(nals),
        starts_sequence(nals),
    ensures
        exists|i: int|
            0 <= i < nals.len() && (#[trigger] nals[i]).len() > 0 && nals[i][0] < 128 && nals[i][0]
                % 32 == 5,
    decreases nals.len(),
{
    let i = choose|i: int| 0 <= i < nals.len() && is_idr(#[trigger] nals[i]);
    if nals[i].len() == 0 {
        let earlier = nals.take(i);
        assert forall|k: int| 0 <= k < earlier.len() && #[trigger] earlier[k].len() == 0 implies
            starts_sequence(earlier.take(k)) by {
            assert(nals[k].len() == 0);
            assert(earlier.take(k) =~= nals.take(k));
        }
        lemma_first_idr(earlier);
        let k = choose|k: int|
            0 <= k < earlier.len() && (#[trigger] earlier[k]).len() > 0 && earlier[k][0] < 128
                && earlier[k][0] % 32 == 5;
        assert(nals[k] == earlier[k]);
        assert(nals[k].len() > 0);
    } else {
        assert(nals[i].len() > 0);
    }
}

/// A unit of supplemental information that holds the text `MISPmicrosectime` anywhere,
/// whatever stands before it and however much follows, is a precision timestamp.
pub proof fn marked_sei_is_a_timestamp(nal: Seq<u8>, at: int)
    requires
        nal.len() > 0,
        nal[0] < 128,
        nal[0] % 32 == 6,
        0 <= at,
        at + 16 <= nal.len(),
        nal[at] == 0x4d && nal[at + 1] == 0x49 && nal[at + 2] == 0x53 && nal[at + 3] == 0x50,
        nal[at + 4] == 0x6d && nal[at + 5] == 0x69 && nal[at + 6] == 0x63 && nal[at + 7] == 0x72,
        nal[at + 8] == 0x6f && nal[at + 9] == 0x73 && nal[at + 10] == 0x65 && nal[at + 11] == 0x63,
        nal[at + 12] == 0x74 && nal[at + 13] == 0x69 && nal[at + 14] == 0x6d && nal[at + 15]
            == 0x65,
    ensures
        is_timestamp_sei(nal),
{
    assert(nal.subrange(at, at + 16) =~= misp_marker());
    assert(marker_at(nal, at));
}

/// Nothing else is a precision timestamp: one is a unit of supplemental information and
/// holds that text, at the place returned.
pub proof fn timestamp_is_a_marked_sei(nal: Seq<u8>) -> (at: int)
    requires
        nal.len() > 0,
        is_timestamp_sei(nal),
    ensures
        nal[0] < 128,
        nal[0] % 32 == 6,
        0 <= at,
        at + 16 <= nal.len(),
        nal[at] == 0x4d && nal[at + 1] == 0x49 && nal[at + 2] == 0x53 && nal[at + 3] == 0x50,
        nal[at + 4] == 0x6d && nal[at + 5] == 0x69 && nal[at + 6] == 0x63 && nal[at + 7] == 0x72,
        nal[at + 8] == 0x6f && nal[at + 9] == 0x73 && nal[at + 10] == 0x65 && nal[at + 11] == 0x63,
        nal[at + 12] == 0x74 && nal[at + 13] == 0x69 && nal[at + 14] == 0x6d && nal[at + 15]
            == 0x65,
{
    let at = choose|at: int| marker_at(nal, at);
    let found = nal.subrange(at, at + 16);
    assert(found == misp_marker());
    assert forall|k: int| 0 <= k < 16 implies #[trigger] nal[at + k] == misp_marker()[k] by {
        assert(found[k] == nal[at + k]);
    }
    assert(nal[at + 0] == misp_marker()[0]);
    assert(nal[at + 1] == misp_marker()[1]);
    assert(nal[at + 2] == misp_marker()[2]);
    assert(nal[at + 3] == misp_marker()[3]);
    assert(nal[at + 4] == misp_marker()[4]);
    assert(nal[at + 5] == misp_marker()[5]);
    assert(nal[at + 6] == misp_marker()[6]);
    assert(nal[at + 7] == misp_marker()[7]);
    assert(nal[at + 8] == misp_marker()[8]);
    assert(nal[at + 9] == misp_marker()[9]);
    assert(nal[at + 10] == misp_marker()[10]);
    assert(nal[at + 11] == misp_marker()[11]);
    assert(nal[at + 12] == misp_marker()[12]);
    assert(nal[at + 13] == misp_marker()[13]);
    assert(nal[at + 14] == misp_marker()[14]);
    assert(nal[at + 15] == misp_marker()[15]);
    at
}

/// The units of a sample are its byte strings, one by one.
pub proof fn units_are_the_bytes(nals: Seq<Vec<u8>>)
    ensures
        units(nals).len() == nals.len(),
        forall|i: int| 0 <= i < nals.len() ==> #[trigger] units(nals)[i] == nals[i]@,
{
}

/// Only an empty unit stops the search for an IDR slice, and only if no unit before it
/// is one: a first byte below 128 with 5 in its low five bits.
pub proof fn only_an_empty_unit_stops_the_search(nals: Seq<Seq<u8>>)
    ensures
        searchable(nals) <==> forall|k: int|
            0 <= k < nals.len() && (#[trigger] nals[k]).len() == 0 ==> exists|i: int|
                0 <= i < k && (#[trigger] nals[i]).len() > 0 && nals[i][0] < 128 && nals[i][0] % 32
                    == 5,
{
    if searchable(nals) {
        assert forall|k: int| 0 <= k < nals.len() && (#[trigger] nals[k]).len() == 0 implies exists|
            i: int,
        |
            0 <= i < k && (#[trigger] nals[i]).len() > 0 && nals[i][0] < 128 && nals[i][0] % 32
                == 5 by {
            let earlier = nals.take(k);
            assert forall|m: int| 0 <= m < earlier.len() && #[trigger] earlier[m].len() == 0 implies
                starts_sequence(earlier.take(m)) by {
                assert(nals[m].len() == 0);
                assert(earlier.take(m) =~= nals.take(m));
            }
            lemma_first_idr(earlier);
            let i = choose|i: int|
                0 <= i < earlier.len() && (#[trigger] earlier[i]).len() > 0 && earlier[i][0] < 128
                    && earlier[i][0] % 32 == 5;
            assert(nals[i] == earlier[i]);
            assert(nals[i].len() > 0);
        }
    }
    if forall|k: int|
        0 <= k < nals.len() && (#[trigger] nals[k]).len() == 0 ==> exists|i: int|
            0 <= i < k && (#[trigger] nals[i]).len() > 0 && nals[i][0] < 128 && nals[i][0] % 32
                == 5 {
        assert forall|k: int| 0 <= k < nals.len() && #[trigger] nals[k].len() == 0 implies
            starts_sequence(nals.take(k)) by {
            let i = choose|i: int|
                0 <= i < k && (#[trigger] nals[i]).len() > 0 && nals[i][0] < 128 && nals[i][0] % 32
                    == 5;
            assert(nals.take(k)[i] == nals[i]);
            assert(is_idr(nals.take(k)[i]));
        }
    }
}

} // verus!
