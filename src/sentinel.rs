//! Scans for the float32 sentinel values that delimit the header.
//!
//! Near 357.0 and 299.0 adjacent float32 values lie 2^-15 apart, far more
//! than `f32::EPSILON`, so a window is within epsilon of a marker exactly when
//! its four bytes are the marker's own bit pattern. The scans therefore
//! compare little-endian words.
use vstd::prelude::*;
use crate::decode::{i32u, le_u32};

verus! {

/// Bit pattern of the float32 value 357.0, which ends the header.
pub const HEADER_MARKER: u32 = 0x43B2_8000;

/// Bit pattern of the float32 value 299.0, which marks a zone.
pub const ZONE_MARKER: u32 = 0x4395_8000;

/// The little-endian word of the `k`-th 4-byte window of `b`.
pub open spec fn word_at(b: Seq<u8>, k: int) -> int {
    le_u32(b.subrange(4 * k, 4 * k + 4))
}

/// Offset just past the first header marker at window `k` or later, or the
/// length of `b` when there is none.
pub open spec fn end_of_header_from(b: Seq<u8>, k: int) -> int
    decreases b.len() - 4 * k,
{
    if k < 0 || 4 * k + 4 > b.len() {
        b.len() as int
    } else if word_at(b, k) == HEADER_MARKER {
        4 * k + 4
    } else {
        end_of_header_from(b, k + 1)
    }
}

/// Start offsets, in order, of the zone markers at window `k` or later whose
/// windows end by `e` and within `b`.
pub open spec fn zones_from(b: Seq<u8>, e: int, k: int) -> Seq<usize>
    decreases b.len() - 4 * k,
{
    if k < 0 || 4 * k + 4 > e || 4 * k + 4 > b.len() {
        Seq::empty()
    } else {
        (if word_at(b, k) == ZONE_MARKER {
            seq![(4 * k) as usize]
        } else {
            Seq::empty()
        }) + zones_from(b, e, k + 1)
    }
}

proof fn lemma_end_of_header_bounds(b: Seq<u8>, k: int)
    requires
        0 <= k,
    ensures
        end_of_header_from(b, k) <= b.len(),
        4 * k + 4 <= b.len() ==> 4 * k + 4 <= end_of_header_from(b, k),
    decreases b.len() - 4 * k,
{
    if 4 * k + 4 <= b.len() && word_at(b, k) != HEADER_MARKER {
        lemma_end_of_header_bounds(b, k + 1);
    }
}

proof fn lemma_zones_bounds(b: Seq<u8>, e: int, k: int)
    requires
        0 <= k,
        b.len() <= usize::MAX,
    ensures
        forall|i: int|
            0 <= i < zones_from(b, e, k).len() ==> 4 * k <= #[trigger] zones_from(b, e, k)[i]
                && zones_from(b, e, k)[i] + 4 <= e,
    decreases b.len() - 4 * k,
{
    if !(4 * k + 4 > e || 4 * k + 4 > b.len()) {
        lemma_zones_bounds(b, e, k + 1);
        let z = zones_from(b, e, k);
        let head = if word_at(b, k) == ZONE_MARKER {
            seq![(4 * k) as usize]
        } else {
            Seq::<usize>::empty()
        };
        let tail = zones_from(b, e, k + 1);
        assert forall|i: int| 0 <= i < z.len() implies 4 * k <= #[trigger] z[i] && z[i] + 4 <= e by {
            if i >= head.len() {
                assert(z[i] == tail[i - head.len()]);
            }
        }
    }
}

proof fn lemma_single_header_marker_from(b: Seq<u8>, k: int, j: int)
    requires
        0 <= j <= k,
        4 * k + 4 <= b.len(),
        word_at(b, k) == HEADER_MARKER,
        forall|i: int| 0 <= i < k ==> #[trigger] word_at(b, i) != HEADER_MARKER,
    ensures
        end_of_header_from(b, j) == 4 * (k + 1),
    decreases k - j,
{
    if j < k {
        lemma_single_header_marker_from(b, k, j + 1);
    }
}

/// A stream whose only header marker is the window at stride `k` ends its
/// header at `4 * (k + 1)`.
pub proof fn single_header_marker_ends_header(b: Seq<u8>, k: int)
    requires
        0 <= k,
        4 * k + 4 <= b.len(),
        word_at(b, k) == HEADER_MARKER,
        forall|i: int|
            0 <= i && 4 * i + 4 <= b.len() && i != k ==> #[trigger] word_at(b, i) != HEADER_MARKER,
    ensures
        end_of_header_from(b, 0) == 4 * (k + 1),
{
    lemma_single_header_marker_from(b, k, 0);
}

/// Every zone marker found before the end of the header starts before it.
pub proof fn zone_markers_precede_end_of_header(b: Seq<u8>)
    requires
        b.len() <= usize::MAX,
    ensures
        forall|i: int|
            0 <= i < zones_from(b, end_of_header_from(b, 0), 0).len() ==> #[trigger] zones_from(
                b,
                end_of_header_from(b, 0),
                0,
            )[i] < end_of_header_from(b, 0),
{
    lemma_zones_bounds(b, end_of_header_from(b, 0), 0);
}

/// Offset just past the first 4-byte window that holds 357.0, or the length
/// of the slice when none does.
pub fn find_end_of_header(bytes: &[u8]) -> (r: usize)
    ensures
        r as int == end_of_header_from(bytes@, 0),
        r <= bytes@.len(),
{
    let len = bytes.len();
    proof {
        lemma_end_of_header_bounds(bytes@, 0);
    }
    let mut counter: usize = 0;
    while 4 <= len - counter * 4
        invariant
            len == bytes@.len(),
            4 * counter <= len,
            end_of_header_from(bytes@, 0) == end_of_header_from(bytes@, counter as int),
        decreases len - 4 * counter,
    {
        let start = counter * 4;
        let word = i32u(&bytes[start..start + 4]);
        if word == HEADER_MARKER {
            return start + 4;
        }
        counter += 1;
    }
    len
}

/// Start offsets of the 4-byte windows ending by `eo_header` that hold 299.0.
pub fn find_zones(bytes: &[u8], eo_header: usize) -> (r: Vec<usize>)
    ensures
        r@ == zones_from(bytes@, eo_header as int, 0),
        forall|i: int| 0 <= i < r@.len() ==> #[trigger] r@[i] < eo_header,
{
    let len = bytes.len();
    proof {
        lemma_zones_bounds(bytes@, eo_header as int, 0);
    }
    let mut result: Vec<usize> = Vec::new();
    let mut counter: usize = 0;
    while 4 <= len - counter * 4 && counter * 4 <= eo_header && 4 <= eo_header - counter * 4
        invariant
            len == bytes@.len(),
            4 * counter <= len,
            zones_from(bytes@, eo_header as int, 0) == result@ + zones_from(
                bytes@,
                eo_header as int,
                counter as int,
            ),
        decreases len - 4 * counter,
    {
        let start = counter * 4;
        let word = i32u(&bytes[start..start + 4]);
        let ghost before = result@;
        if word == ZONE_MARKER {
            result.push(start);
        }
        assert(before + zones_from(bytes@, eo_header as int, counter as int) =~= result@
            + zones_from(bytes@, eo_header as int, counter + 1));
        counter += 1;
    }
    assert(result@ + Seq::<usize>::empty() =~= result@);
    result
}

} // verus!
