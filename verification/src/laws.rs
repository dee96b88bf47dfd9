//! What holds of every redaction, stated over the functions that the
//! scanner's contracts use.
use vstd::prelude::*;
use crate::model::{MemoryRegionDescriptor, PointerWidth};
use crate::scanner::{
    redacted, redacted_all, scanned, window, window_count, window_kept, window_of,
    window_start, zeroed_windows, zeros,
};

verus! {

/// Every region lies inside a buffer of `len` bytes.
pub open spec fn all_fit(regions: Seq<MemoryRegionDescriptor>, len: int) -> bool {
    forall|j: int| 0 <= j < regions.len() ==> (#[trigger] regions[j]).fits(len)
}

/// No two regions of the list share a byte.
pub open spec fn pairwise_apart(regions: Seq<MemoryRegionDescriptor>) -> bool {
    forall|a: int, b: int|
        0 <= a < b < regions.len() ==> (#[trigger] regions[a]).apart_from(#[trigger] regions[b])
}

/// The byte at `offset` belongs to some region of the list.
pub open spec fn in_some_region(regions: Seq<MemoryRegionDescriptor>, offset: int) -> bool {
    exists|j: int| 0 <= j < regions.len() && (#[trigger] regions[j]).holds(offset)
}

/// The byte at `offset` lies in a whole window of some region of the list.
pub open spec fn scanned_by_some(
    regions: Seq<MemoryRegionDescriptor>,
    width: PointerWidth,
    offset: int,
) -> bool {
    exists|j: int| 0 <= j < regions.len() && scanned(#[trigger] regions[j], width, offset)
}

/// What a window holds after the scan, given what it held before: itself
/// where its value is a covered address, zero bytes where it is not.
pub open spec fn window_outcome(
    buf: Seq<u8>,
    region: MemoryRegionDescriptor,
    width: PointerWidth,
    covered: Set<int>,
    k: int,
) -> Seq<u8> {
    if window_kept(buf, region, width, covered, k) {
        window(buf, region, width, k)
    } else {
        zeros(width.byte_count())
    }
}

/// Scanning one region keeps the length of the buffer.
pub proof fn law_region_keeps_length(
    buf: Seq<u8>,
    region: MemoryRegionDescriptor,
    width: PointerWidth,
    covered: Set<int>,
)
    ensures
        redacted(buf, region, width, covered).len() == buf.len(),
{
}

/// Scanning one region changes no byte outside its whole windows: neither a
/// byte outside the region nor one of the bytes that are left after the last
/// whole window.
pub proof fn law_region_unscanned_unchanged(
    buf: Seq<u8>,
    region: MemoryRegionDescriptor,
    width: PointerWidth,
    covered: Set<int>,
    offset: int,
)
    requires
        0 <= offset < buf.len(),
        !scanned(region, width, offset),
    ensures
        redacted(buf, region, width, covered)[offset] == buf[offset],
{
}

/// A byte that lies in a whole window of a region belongs to the region.
pub proof fn lemma_scanned_is_held(
    region: MemoryRegionDescriptor,
    width: PointerWidth,
    offset: int,
)
    requires
        scanned(region, width, offset),
    ensures
        region.holds(offset),
        region.size > 0,
        0 <= window_of(region, width, offset) < window_count(region, width),
        window_start(region, width, window_of(region, width, offset)) <= offset < window_start(
            region,
            width,
            window_of(region, width, offset) + 1,
        ),
{
}

/// After one region was scanned, each of its whole windows is unchanged if
/// its value was a covered address, and all zero if it was not.
pub proof fn law_region_window_outcome(
    buf: Seq<u8>,
    region: MemoryRegionDescriptor,
    width: PointerWidth,
    covered: Set<int>,
    k: int,
)
    requires
        region.fits(buf.len() as int),
        0 <= k < window_count(region, width),
    ensures
        window(redacted(buf, region, width, covered), region, width, k) == window_outcome(
            buf,
            region,
            width,
            covered,
            k,
        ),
{
    let out = redacted(buf, region, width, covered);
    let start = window_start(region, width, k);
    assert forall|i: int| start <= i < start + width.byte_count() implies #[trigger] window_of(
        region,
        width,
        i,
    ) == k by {}
    assert(window(out, region, width, k) =~= window_outcome(buf, region, width, covered, k));
}

/// After one region was scanned, the bytes of the region that follow its
/// last whole window are unchanged.
pub proof fn law_region_remainder_unchanged(
    buf: Seq<u8>,
    region: MemoryRegionDescriptor,
    width: PointerWidth,
    covered: Set<int>,
    offset: int,
)
    requires
        region.fits(buf.len() as int),
        window_start(region, width, window_count(region, width)) <= offset < region.end(),
    ensures
        redacted(buf, region, width, covered)[offset] == buf[offset],
{
}

/// No more windows are zeroed than were scanned.
pub proof fn lemma_zeroed_windows_bounded(
    buf: Seq<u8>,
    region: MemoryRegionDescriptor,
    width: PointerWidth,
    covered: Set<int>,
    n: int,
)
    requires
        0 <= n,
    ensures
        0 <= zeroed_windows(buf, region, width, covered, n) <= n,
    decreases n,
{
    if n > 0 {
        lemma_zeroed_windows_bounded(buf, region, width, covered, n - 1);
    }
}

/// Scanning a list of regions keeps the length of the buffer.
pub proof fn law_keeps_length(
    buf: Seq<u8>,
    regions: Seq<MemoryRegionDescriptor>,
    width: PointerWidth,
    covered: Set<int>,
)
    ensures
        redacted_all(buf, regions, width, covered).len() == buf.len(),
    decreases regions.len(),
{
    if regions.len() > 0 {
        law_keeps_length(buf, regions.drop_last(), width, covered);
    }
}

/// A byte that lies in no whole window of any region is unchanged by the
/// scan of the list.
pub proof fn law_unscanned_unchanged(
    buf: Seq<u8>,
    regions: Seq<MemoryRegionDescriptor>,
    width: PointerWidth,
    covered: Set<int>,
    offset: int,
)
    requires
        0 <= offset < buf.len(),
        !scanned_by_some(regions, width, offset),
    ensures
        redacted_all(buf, regions, width, covered)[offset] == buf[offset],
    decreases regions.len(),
{
    if regions.len() > 0 {
        let init = regions.drop_last();
        assert forall|j: int| 0 <= j < init.len() implies !scanned(
            #[trigger] init[j],
            width,
            offset,
        ) by {
            assert(init[j] == regions[j]);
        }
        law_unscanned_unchanged(buf, init, width, covered, offset);
        law_keeps_length(buf, init, width, covered);
        assert(!scanned(regions[regions.len() - 1], width, offset));
    }
}

/// A byte that no memory region covers is unchanged by the scan of the list.
pub proof fn law_outside_regions_unchanged(
    buf: Seq<u8>,
    regions: Seq<MemoryRegionDescriptor>,
    width: PointerWidth,
    covered: Set<int>,
    offset: int,
)
    requires
        0 <= offset < buf.len(),
        !in_some_region(regions, offset),
    ensures
        redacted_all(buf, regions, width, covered)[offset] == buf[offset],
{
    assert forall|j: int| 0 <= j < regions.len() implies !scanned(
        #[trigger] regions[j],
        width,
        offset,
    ) by {
        if scanned(regions[j], width, offset) {
            lemma_scanned_is_held(regions[j], width, offset);
        }
    }
    law_unscanned_unchanged(buf, regions, width, covered, offset);
}

/// Where the regions share no byte, a byte of one region lies in no whole
/// window of another.
proof fn lemma_held_by_one(
    regions: Seq<MemoryRegionDescriptor>,
    width: PointerWidth,
    j: int,
    other: int,
    offset: int,
)
    requires
        pairwise_apart(regions),
        0 <= j < regions.len(),
        0 <= other < regions.len(),
        j != other,
        regions[j].holds(offset),
    ensures
        !scanned(regions[other], width, offset),
{
    if scanned(regions[other], width, offset) {
        lemma_scanned_is_held(regions[other], width, offset);
        if j < other {
            assert(regions[j].apart_from(regions[other]));
        } else {
            assert(regions[other].apart_from(regions[j]));
        }
    }
}

/// Where the regions lie inside the buffer and share no byte: after the
/// scan of the list, each whole window of each region is unchanged if its
/// value was a covered address, and all zero if it was not.
pub proof fn law_window_outcome(
    buf: Seq<u8>,
    regions: Seq<MemoryRegionDescriptor>,
    width: PointerWidth,
    covered: Set<int>,
    j: int,
    k: int,
)
    requires
        all_fit(regions, buf.len() as int),
        pairwise_apart(regions),
        0 <= j < regions.len(),
        0 <= k < window_count(regions[j], width),
    ensures
        window(redacted_all(buf, regions, width, covered), regions[j], width, k) == window_outcome(
            buf,
            regions[j],
            width,
            covered,
            k,
        ),
    decreases regions.len(),
{
    let m = regions.len() - 1;
    let init = regions.drop_last();
    let last = regions[m];
    let prev = redacted_all(buf, init, width, covered);
    let out = redacted_all(buf, regions, width, covered);
    let region = regions[j];
    let lo = window_start(region, width, k);
    let hi = window_start(region, width, k + 1);
    law_keeps_length(buf, init, width, covered);
    assert(region.fits(buf.len() as int));
    assert(last.fits(buf.len() as int));
    assert forall|a: int| 0 <= a < init.len() implies init[a] == regions[a] by {}
    if j == m {
        assert forall|i: int| lo <= i < hi implies prev[i] == buf[i] by {
            assert forall|a: int| 0 <= a < init.len() implies !scanned(
                #[trigger] init[a],
                width,
                i,
            ) by {
                lemma_held_by_one(regions, width, j, a, i);
            }
            law_unscanned_unchanged(buf, init, width, covered, i);
        }
        assert(window(prev, region, width, k) =~= window(buf, region, width, k));
        law_region_window_outcome(prev, region, width, covered, k);
    } else {
        assert(all_fit(init, buf.len() as int));
        assert(pairwise_apart(init));
        law_window_outcome(buf, init, width, covered, j, k);
        assert forall|i: int| lo <= i < hi implies out[i] == prev[i] by {
            lemma_held_by_one(regions, width, j, m, i);
        }
        assert(window(out, region, width, k) =~= window(prev, region, width, k));
    }
}

/// Where the regions lie inside the buffer and share no byte: the bytes of
/// a region that follow its last whole window are unchanged by the scan of
/// the list.
pub proof fn law_remainder_unchanged(
    buf: Seq<u8>,
    regions: Seq<MemoryRegionDescriptor>,
    width: PointerWidth,
    covered: Set<int>,
    j: int,
    offset: int,
)
    requires
        all_fit(regions, buf.len() as int),
        pairwise_apart(regions),
        0 <= j < regions.len(),
        window_start(regions[j], width, window_count(regions[j], width)) <= offset
            < regions[j].end(),
    ensures
        redacted_all(buf, regions, width, covered)[offset] == buf[offset],
{
    assert(regions[j].fits(buf.len() as int));
    assert forall|a: int| 0 <= a < regions.len() implies !scanned(
        #[trigger] regions[a],
        width,
        offset,
    ) by {
        if a != j {
            lemma_held_by_one(regions, width, j, a, offset);
        }
    }
    law_unscanned_unchanged(buf, regions, width, covered, offset);
}

/// Where the regions lie inside the buffer and share no byte: scanning the
/// result of a scan once more, with the same regions, width and covered
/// addresses, changes nothing.
pub proof fn law_idempotent(
    buf: Seq<u8>,
    regions: Seq<MemoryRegionDescriptor>,
    width: PointerWidth,
    covered: Set<int>,
)
    requires
        all_fit(regions, buf.len() as int),
        pairwise_apart(regions),
    ensures
        redacted_all(redacted_all(buf, regions, width, covered), regions, width, covered)
            == redacted_all(buf, regions, width, covered),
{
    let out = redacted_all(buf, regions, width, covered);
    let again = redacted_all(out, regions, width, covered);
    law_keeps_length(buf, regions, width, covered);
    law_keeps_length(out, regions, width, covered);
    assert forall|i: int| 0 <= i < out.len() implies again[i] == out[i] by {
        if scanned_by_some(regions, width, i) {
            let j = choose|j: int|
                0 <= j < regions.len() && scanned(#[trigger] regions[j], width, i);
            let region = regions[j];
            let k = window_of(region, width, i);
            lemma_scanned_is_held(region, width, i);
            law_window_outcome(buf, regions, width, covered, j, k);
            law_window_outcome(out, regions, width, covered, j, k);
            let before = window(out, region, width, k);
            let after = window(again, region, width, k);
            assert(region.fits(buf.len() as int));
            if !window_kept(out, region, width, covered, k) {
                assert(before == zeros(width.byte_count()));
            }
            assert(after == before);
            let d = i - window_start(region, width, k);
            assert(after[d] == again[i]);
            assert(before[d] == out[i]);
        } else {
            law_unscanned_unchanged(out, regions, width, covered, i);
        }
    }
    assert(again =~= out);
}

} // verus!
