//! Walking the top-level boxes of an MP4 file, to see whether it was finalized.
//!
//! Each box starts with a 32-bit size (of the whole box, header included) and a
//! four-character type, ISO/IEC 14496-12 §4.2.

use crate::error::Error;
use vstd::prelude::*;

verus! {

/// Length of a box header: size and type.
pub const HEADER_LEN: u64 = 8;

/// What to do next while walking a file's boxes.
#[derive(Debug, Clone, Copy, PartialEq, Eq, Structural)]
pub enum Walk {
    /// Read the eight bytes of the box header at this position.
    ReadHeader { at: u64 },
    /// Read the eight bytes that follow the header read last: the 64-bit size of
    /// the box that starts at `at`.
    ReadLargeSize { at: u64 },
    /// The walk has ended; `moov` tells whether there is a `moov` box.
    Ended { moov: bool },
}

/// `bytes` as a number, most significant byte first.
pub open spec fn big_endian(bytes: Seq<u8>) -> nat
    decreases bytes.len(),
{
    if bytes.len() == 0 {
        0
    } else {
        256 * big_endian(bytes.drop_last()) + bytes.last() as nat
    }
}

/// The four characters `moov`.
pub open spec fn moov_type() -> Seq<u8> {
    seq![0x6d, 0x6f, 0x6f, 0x76]
}

/// The walk goes on to a box at `at`, or ends without a `moov` box if a file of
/// `file_size` bytes has no room for a header there.
pub open spec fn walk_to(at: int, file_size: int) -> Walk {
    if at + HEADER_LEN <= file_size {
        Walk::ReadHeader { at: at as u64 }
    } else {
        Walk::Ended { moov: false }
    }
}

/// What follows the header `header` read at `at`.
pub open spec fn after_header(at: int, header: Seq<u8>, file_size: int) -> Walk {
    let size = big_endian(header.subrange(0, 4));
    if header.subrange(4, 8) == moov_type() {
        Walk::Ended { moov: true }
    } else if size == 1 {
        // the real size is in the 64 bits that follow; without them nothing does
        if at + 16 <= file_size {
            Walk::ReadLargeSize { at: at as u64 }
        } else {
            Walk::Ended { moov: false }
        }
    } else if size < HEADER_LEN {
        // 0 means that the box extends to the end of the file, so there is nothing
        // after it; otherwise a box cannot be smaller than its header
        Walk::Ended { moov: false }
    } else {
        walk_to(at + size, file_size)
    }
}

/// What follows the 64-bit size `large` of the box at `at`.
pub open spec fn after_large_size(at: int, large: Seq<u8>, file_size: int) -> Walk {
    let size = big_endian(large);
    if size < HEADER_LEN {
        Walk::Ended { moov: false }
    } else {
        walk_to(at + size, file_size)
    }
}

proof fn lemma_big_endian_bound(bytes: Seq<u8>)
    ensures
        bytes.len() <= 4 ==> big_endian(bytes) <= u32::MAX,
        bytes.len() <= 8 ==> big_endian(bytes) <= u64::MAX,
{
    if bytes.len() <= 4 {
        lemma_big_endian_small(bytes);
    } else if bytes.len() <= 8 {
        lemma_big_endian_large(bytes);
    }
}

proof fn lemma_big_endian_small(bytes: Seq<u8>)
    requires
        bytes.len() <= 4,
    ensures
        bytes.len() == 0 ==> big_endian(bytes) == 0,
        bytes.len() <= 1 ==> big_endian(bytes) < 0x100,
        bytes.len() <= 2 ==> big_endian(bytes) < 0x1_0000,
        bytes.len() <= 3 ==> big_endian(bytes) < 0x100_0000,
        big_endian(bytes) < 0x1_0000_0000,
    decreases bytes.len(),
{
    if bytes.len() > 0 {
        lemma_big_endian_small(bytes.drop_last());
    }
}

proof fn lemma_big_endian_large(bytes: Seq<u8>)
    requires
        4 <= bytes.len() <= 8,
    ensures
        bytes.len() <= 4 ==> big_endian(bytes) < 0x1_0000_0000,
        bytes.len() <= 5 ==> big_endian(bytes) < 0x100_0000_0000,
        bytes.len() <= 6 ==> big_endian(bytes) < 0x1_0000_0000_0000,
        bytes.len() <= 7 ==> big_endian(bytes) < 0x100_0000_0000_0000,
        big_endian(bytes) < 0x1_0000_0000_0000_0000,
    decreases bytes.len(),
{
    if bytes.len() > 4 {
        lemma_big_endian_large(bytes.drop_last());
    } else {
        lemma_big_endian_small(bytes);
    }
}

/// Reads a number of at most eight bytes, most significant first.
fn number(bytes: &[u8]) -> (n: u64)
    requires
        bytes@.len() <= 8,
    ensures
        n == big_endian(bytes@),
{
    let mut n: u64 = 0;
    let mut i: usize = 0;
    assert(bytes@.take(0) =~= seq![]);
    while i < bytes.len()
        invariant
            bytes@.len() <= 8,
            i <= bytes@.len(),
            n == big_endian(bytes@.take(i as int)),
        decreases bytes@.len() - i,
    {
        proof {
            assert(bytes@.take(i + 1).drop_last() =~= bytes@.take(i as int));
            lemma_big_endian_bound(bytes@.take(i + 1));
        }
        n = 256 * n + bytes[i] as u64;
        i += 1;
    }
    assert(bytes@.take(bytes@.len() as int) =~= bytes@);
    n
}

/// Starts walking a file of `file_size` bytes.
pub fn start_walk(file_size: u64) -> (next: Walk)
    ensures
        next == walk_to(0, file_size as int),
{
    go_to(0, 0, file_size)
}

/// Goes on to the box `size` bytes after `at`.
fn go_to(at: u64, size: u64, file_size: u64) -> (next: Walk)
    ensures
        next == walk_to(at + size, file_size as int),
{
    if file_size < HEADER_LEN || at > file_size - HEADER_LEN || size > file_size - HEADER_LEN - at {
        Walk::Ended { moov: false }
    } else {
        Walk::ReadHeader { at: at + size }
    }
}

/// Goes on from the header read at `at`.
pub fn take_header(at: u64, header: [u8; 8], file_size: u64) -> (next: Walk)
    ensures
        next == after_header(at as int, header@, file_size as int),
{
    let size: u64 = number(vstd::slice::slice_subrange(header.as_slice(), 0, 4));
    assert(moov_type() =~= header@.subrange(4, 8) <==> header@[4] == 0x6d && header@[5] == 0x6f
        && header@[6] == 0x6f && header@[7] == 0x76) by {
        let kind = header@.subrange(4, 8);
        assert(kind[0] == header@[4] && kind[1] == header@[5] && kind[2] == header@[6] && kind[3]
            == header@[7]);
    }
    if header[4] == 0x6d && header[5] == 0x6f && header[6] == 0x6f && header[7] == 0x76 {
        Walk::Ended { moov: true }
    } else if size == 1 {
        if file_size >= 16 && at <= file_size - 16 {
            Walk::ReadLargeSize { at }
        } else {
            Walk::Ended { moov: false }
        }
    } else if size < HEADER_LEN {
        Walk::Ended { moov: false }
    } else {
        go_to(at, size, file_size)
    }
}

/// Goes on from the 64-bit size of the box at `at`.
pub fn take_large_size(at: u64, large: [u8; 8], file_size: u64) -> (next: Walk)
    ensures
        next == after_large_size(at as int, large@, file_size as int),
{
    let size: u64 = number(large.as_slice());
    if size < HEADER_LEN {
        Walk::Ended { moov: false }
    } else {
        go_to(at, size, file_size)
    }
}

/// The eight bytes of `file` at `at`.
pub open spec fn eight(file: Seq<u8>, at: int) -> Seq<u8> {
    file.subrange(at, at + 8)
}

/// The size of the box whose header is at `at`; 0 if its 64-bit size is cut off.
pub open spec fn box_size(file: Seq<u8>, at: int) -> nat {
    let size = big_endian(file.subrange(at, at + 4));
    if size != 1 {
        size
    } else if at + 16 <= file.len() {
        big_endian(eight(file, at + 8))
    } else {
        0
    }
}

/// How many bytes of `file` there are from `at` on.
pub open spec fn remaining(file: Seq<u8>, at: int) -> nat {
    if at < file.len() {
        (file.len() - at) as nat
    } else {
        0
    }
}

/// The walk over the boxes of `file` comes upon a `moov` box from `at` on.
pub open spec fn has_moov(file: Seq<u8>, at: int) -> bool
    decreases remaining(file, at),
{
    if at + HEADER_LEN > file.len() {
        false
    } else if file.subrange(at + 4, at + 8) == moov_type() {
        true
    } else {
        box_size(file, at) >= HEADER_LEN && has_moov(file, at + box_size(file, at))
    }
}

fn read_eight(file: &[u8], at: usize) -> (bytes: [u8; 8])
    requires
        at + 8 <= file@.len(),
    ensures
        bytes@ == eight(file@, at as int),
{
    let bytes: [u8; 8] = [
        file[at],
        file[at + 1],
        file[at + 2],
        file[at + 3],
        file[at + 4],
        file[at + 5],
        file[at + 6],
        file[at + 7],
    ];
    assert(bytes@ =~= eight(file@, at as int));
    bytes
}

/// Does this MP4 have the `moov` box that holds its sample index?
///
/// `moov` is written when the file is closed, so its absence means the file was
/// never finalized. Only the top-level box headers are read, so this works on a
/// file whose `mdat` is truncated.
pub fn is_mp4_finalized(file: &[u8]) -> (finalized: Result<bool, Error>)
    ensures
        finalized == Ok::<bool, Error>(has_moov(file@, 0)),
{
    let len: usize = file.len();
    let size: u64 = len as u64;
    let mut next = start_walk(size);
    let ghost mut at: int = 0;
    loop
        invariant
            len == file@.len(),
            size == len,
            at >= 0,
            has_moov(file@, 0) == has_moov(file@, at),
            next == walk_to(at, len as int) || (next matches Walk::Ended { moov } && has_moov(
                file@,
                at,
            ) == moov),
        decreases
            remaining(file@, at),
            if next is Ended {
                0int
            } else {
                1int
            },
    {
        match next {
            Walk::ReadHeader { at: pos } => {
                let header = read_eight(file, pos as usize);
                proof {
                    assert(header@.subrange(0, 4) =~= file@.subrange(at, at + 4));
                    assert(header@.subrange(4, 8) =~= file@.subrange(at + 4, at + 8));
                    lemma_big_endian_bound(header@.subrange(0, 4));
                }
                next = take_header(pos, header, size);
                if let Walk::ReadLargeSize { at: again } = next {
                    let large = read_eight(file, pos as usize + 8);
                    next = take_large_size(again, large, size);
                }
                proof {
                    let n = box_size(file@, at);
                    if file@.subrange(at + 4, at + 8) != moov_type() && n >= HEADER_LEN {
                        at = at + n;
                    }
                }
            },
            Walk::Ended { moov } => {
                return Ok(moov);
            },
            Walk::ReadLargeSize { .. } => {
                return Ok(false);
            },
        }
    }
}

/// What has been appended to a file never hides its `moov` box.
pub proof fn growing_keeps_moov(file: Seq<u8>, more: Seq<u8>, at: int)
    requires
        at >= 0,
        has_moov(file, at),
    ensures
        has_moov(file + more, at),
    decreases remaining(file, at),
{
    let grown = file + more;
    assert(grown.subrange(at + 4, at + 8) =~= file.subrange(at + 4, at + 8));
    assert(grown.subrange(at, at + 4) =~= file.subrange(at, at + 4));
    if file.subrange(at + 4, at + 8) != moov_type() {
        if big_endian(file.subrange(at, at + 4)) == 1 {
            assert(eight(grown, at + 8) =~= eight(file, at + 8));
        }
        growing_keeps_moov(file, more, at + box_size(file, at));
    }
}

/// `at` is where the walk of `file` from `from` on comes upon a `moov` box.
pub open spec fn moov_found_at(file: Seq<u8>, from: int, at: int) -> bool
    decreases remaining(file, from),
{
    if from + HEADER_LEN > file.len() {
        false
    } else if file.subrange(from + 4, from + 8) == moov_type() {
        from == at
    } else {
        box_size(file, from) >= HEADER_LEN && moov_found_at(file, from + box_size(file, from), at)
    }
}

/// A file cut off before the end of its `moov` header is not taken for a
/// finalized one, which is what protects a recording still in progress.
pub proof fn cut_before_moov_is_not_finalized(file: Seq<u8>, from: int, at: int, cut: int)
    requires
        from >= 0,
        moov_found_at(file, from, at),
        0 <= cut < at + HEADER_LEN,
        cut <= file.len(),
    ensures
        !has_moov(file.take(cut), from),
    decreases remaining(file, from),
{
    let short = file.take(cut);
    if from + HEADER_LEN <= cut {
        assert(short.subrange(from + 4, from + 8) =~= file.subrange(from + 4, from + 8));
        assert(short.subrange(from, from + 4) =~= file.subrange(from, from + 4));
        if from + 16 <= cut {
            assert(eight(short, from + 8) =~= eight(file, from + 8));
        }
        if file.subrange(from + 4, from + 8) != moov_type() {
            cut_before_moov_is_not_finalized(file, from + box_size(file, from), at, cut);
        }
    }
}

/// Where the box after the one at `at` starts, by the bytes of `file`: a size of eight
/// or more in four bytes, or a 1 there and a size of eight or more in the eight bytes
/// behind the type. `None` if no box follows.
pub open spec fn next_box(file: Seq<u8>, at: int) -> Option<int> {
    let short = file[at] * 0x100_0000 + file[at + 1] * 0x1_0000 + file[at + 2] * 0x100 + file[at
        + 3];
    let long = file[at + 8] * 0x100_0000_0000_0000 + file[at + 9] * 0x1_0000_0000_0000 + file[at
        + 10] * 0x100_0000_0000 + file[at + 11] * 0x1_0000_0000 + file[at + 12] * 0x100_0000
        + file[at + 13] * 0x1_0000 + file[at + 14] * 0x100 + file[at + 15];
    if at + 8 > file.len() {
        None
    } else if short >= 8 {
        Some(at + short)
    } else if short == 1 && at + 16 <= file.len() && long >= 8 {
        Some(at + long)
    } else {
        None
    }
}

proof fn lemma_four_bytes(bytes: Seq<u8>)
    requires
        bytes.len() == 4,
    ensures
        big_endian(bytes) == bytes[0] * 0x100_0000 + bytes[1] * 0x1_0000 + bytes[2] * 0x100
            + bytes[3],
{
    reveal_with_fuel(big_endian, 5);
    let b3 = bytes.drop_last();
    let b2 = b3.drop_last();
    let b1 = b2.drop_last();
    assert(b1.drop_last() =~= seq![]);
    assert(b1.last() == bytes[0] && b2.last() == bytes[1] && b3.last() == bytes[2]);
}

proof fn lemma_eight_bytes(bytes: Seq<u8>)
    requires
        bytes.len() == 8,
    ensures
        big_endian(bytes) == bytes[0] * 0x100_0000_0000_0000 + bytes[1] * 0x1_0000_0000_0000
            + bytes[2] * 0x100_0000_0000 + bytes[3] * 0x1_0000_0000 + bytes[4] * 0x100_0000
            + bytes[5] * 0x1_0000 + bytes[6] * 0x100 + bytes[7],
{
    reveal_with_fuel(big_endian, 5);
    let head = bytes.take(4);
    lemma_four_bytes(head);
    let b7 = bytes.drop_last();
    let b6 = b7.drop_last();
    let b5 = b6.drop_last();
    let b4 = b5.drop_last();
    assert(b4 =~= head);
    assert(b5.last() == bytes[4] && b6.last() == bytes[5] && b7.last() == bytes[6]);
    assert(head[0] == bytes[0] && head[1] == bytes[1] && head[2] == bytes[2] && head[3]
        == bytes[3]);
    assert(big_endian(b5) == 256 * big_endian(b4) + bytes[4]);
    assert(big_endian(b6) == 256 * big_endian(b5) + bytes[5]);
    assert(big_endian(b7) == 256 * big_endian(b6) + bytes[6]);
    assert(big_endian(bytes) == 256 * big_endian(b7) + bytes[7]);
}

proof fn lemma_next_box(file: Seq<u8>, at: int)
    requires
        0 <= at,
        at + 8 <= file.len(),
    ensures
        next_box(file, at) == if box_size(file, at) >= 8 {
            Some(at + box_size(file, at))
        } else {
            None
        },
{
    let short = file.subrange(at, at + 4);
    lemma_four_bytes(short);
    assert(short[0] == file[at] && short[1] == file[at + 1] && short[2] == file[at + 2] && short[3]
        == file[at + 3]);
    if at + 16 <= file.len() {
        let long = eight(file, at + 8);
        lemma_eight_bytes(long);
        assert(long[0] == file[at + 8] && long[1] == file[at + 9] && long[2] == file[at + 10]
            && long[3] == file[at + 11] && long[4] == file[at + 12] && long[5] == file[at + 13]
            && long[6] == file[at + 14] && long[7] == file[at + 15]);
    }
}

proof fn lemma_moov_bytes(file: Seq<u8>, at: int)
    requires
        0 <= at,
        at + 8 <= file.len(),
    ensures
        file.subrange(at + 4, at + 8) == moov_type() <==> file[at + 4] == 0x6d && file[at + 5]
            == 0x6f && file[at + 6] == 0x6f && file[at + 7] == 0x76,
{
    let kind = file.subrange(at + 4, at + 8);
    assert(kind[0] == file[at + 4] && kind[1] == file[at + 5] && kind[2] == file[at + 6] && kind[3]
        == file[at + 7]);
    if kind[0] == 0x6d && kind[1] == 0x6f && kind[2] == 0x6f && kind[3] == 0x76 {
        assert(kind =~= moov_type());
    }
}

/// A file is finalized where its boxes, followed from the start of the file each to the
/// next, lead to one whose type is `moov`, whatever the boxes are and however many.
pub proof fn boxes_lead_to_moov(file: Seq<u8>, places: Seq<int>)
    requires
        places.len() > 0,
        places[0] >= 0,
        forall|k: int|
            0 <= k < places.len() - 1 ==> next_box(file, #[trigger] places[k]) == Some(
                places[k + 1],
            ),
        places.last() + 8 <= file.len(),
        file[places.last() + 4] == 0x6d && file[places.last() + 5] == 0x6f && file[places.last()
            + 6] == 0x6f && file[places.last() + 7] == 0x76,
    ensures
        has_moov(file, places[0]),
    decreases places.len(),
{
    let at = places[0];
    if places.len() == 1 {
        lemma_moov_bytes(file, at);
    } else {
        assert(next_box(file, places[0]) == Some(places[1]));
        let later = places.skip(1);
        assert(later.last() == places.last());
        assert forall|k: int| 0 <= k < later.len() - 1 implies next_box(file, #[trigger] later[k])
            == Some(later[k + 1]) by {
            assert(later[k] == places[k + 1] && later[k + 1] == places[k + 2]);
        }
        lemma_next_box(file, at);
        boxes_lead_to_moov(file, later);
    }
}

/// Only then is a file finalized: the places returned lead from box to box to one whose
/// type is `moov`.
pub proof fn moov_is_led_to_by_boxes(file: Seq<u8>, at: int) -> (places: Seq<int>)
    requires
        at >= 0,
        has_moov(file, at),
    ensures
        places.len() > 0,
        places[0] == at,
        forall|k: int|
            0 <= k < places.len() - 1 ==> next_box(file, #[trigger] places[k]) == Some(
                places[k + 1],
            ),
        places.last() + 8 <= file.len(),
        file[places.last() + 4] == 0x6d && file[places.last() + 5] == 0x6f && file[places.last()
            + 6] == 0x6f && file[places.last() + 7] == 0x76,
    decreases remaining(file, at),
{
    lemma_moov_bytes(file, at);
    if file.subrange(at + 4, at + 8) == moov_type() {
        seq![at]
    } else {
        lemma_next_box(file, at);
        let later = moov_is_led_to_by_boxes(file, at + box_size(file, at));
        let places = seq![at] + later;
        assert(places.last() == later.last());
        assert forall|k: int|
            0 <= k < places.len() - 1 implies next_box(file, #[trigger] places[k]) == Some(
            places[k + 1],
        ) by {
            if k > 0 {
                assert(places[k] == later[k - 1] && places[k + 1] == later[k]);
            }
        }
        places
    }
}

} // verus!
