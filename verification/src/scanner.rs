//! The zeroing pass over the memory regions of a dump.
//!
//! A region is read as a row of windows, each one pointer wide, starting at
//! the region's first byte. A window whose little-endian value is not a
//! covered address is overwritten with zero bytes. What is left of the region
//! after its last whole window is never read nor written.
use vstd::prelude::*;
use crate::address_index::AddressIndex;
use crate::laws::{
    all_fit, in_some_region, law_outside_regions_unchanged,
    law_region_window_outcome, law_window_outcome, lemma_zeroed_windows_bounded, pairwise_apart,
    window_outcome,
};
use crate::model::{MemoryRegionDescriptor, PointerWidth};

verus! {

/// The number that `bytes` spell, least significant byte first.
pub open spec fn le_value(bytes: Seq<u8>) -> nat
    decreases bytes.len(),
{
    if bytes.len() == 0 {
        0
    } else {
        bytes[0] as nat + 256 * le_value(bytes.drop_first())
    }
}

/// How many whole windows the region holds.
pub open spec fn window_count(region: MemoryRegionDescriptor, width: PointerWidth) -> int {
    width.windows_in(region.size as int)
}

/// The buffer offset at which window `k` of the region starts.
pub open spec fn window_start(region: MemoryRegionDescriptor, width: PointerWidth, k: int) -> int {
    region.rva + width.times(k)
}

/// The bytes of window `k` of the region.
pub open spec fn window(
    buf: Seq<u8>,
    region: MemoryRegionDescriptor,
    width: PointerWidth,
    k: int,
) -> Seq<u8> {
    buf.subrange(window_start(region, width, k), window_start(region, width, k + 1))
}

/// Window `k` of the region holds a covered address.
pub open spec fn window_kept(
    buf: Seq<u8>,
    region: MemoryRegionDescriptor,
    width: PointerWidth,
    covered: Set<int>,
    k: int,
) -> bool {
    covered.contains(le_value(window(buf, region, width, k)) as int)
}

/// The byte at `offset` lies in a whole window of the region.
pub open spec fn scanned(region: MemoryRegionDescriptor, width: PointerWidth, offset: int) -> bool {
    region.rva <= offset < window_start(region, width, window_count(region, width))
}

/// The window of the region that the byte at `offset` lies in.
pub open spec fn window_of(region: MemoryRegionDescriptor, width: PointerWidth, offset: int) -> int {
    width.windows_in(offset - region.rva)
}

/// `n` zero bytes.
pub open spec fn zeros(n: int) -> Seq<u8> {
    Seq::new(n as nat, |i: int| 0u8)
}

/// The buffer after the first `n` windows of the region were scanned.
pub open spec fn redacted_upto(
    buf: Seq<u8>,
    region: MemoryRegionDescriptor,
    width: PointerWidth,
    covered: Set<int>,
    n: int,
) -> Seq<u8> {
    Seq::new(
        buf.len(),
        |i: int|
            if region.rva <= i < window_start(region, width, n) && !window_kept(
                buf,
                region,
                width,
                covered,
                window_of(region, width, i),
            ) {
                0u8
            } else {
                buf[i]
            },
    )
}

/// The buffer after the region was scanned.
pub open spec fn redacted(
    buf: Seq<u8>,
    region: MemoryRegionDescriptor,
    width: PointerWidth,
    covered: Set<int>,
) -> Seq<u8> {
    redacted_upto(buf, region, width, covered, window_count(region, width))
}

/// How many of the first `n` windows of the region hold no covered address.
pub open spec fn zeroed_windows(
    buf: Seq<u8>,
    region: MemoryRegionDescriptor,
    width: PointerWidth,
    covered: Set<int>,
    n: int,
) -> int
    decreases n,
{
    if n <= 0 {
        0
    } else {
        zeroed_windows(buf, region, width, covered, n - 1) + if window_kept(
            buf,
            region,
            width,
            covered,
            n - 1,
        ) {
            0int
        } else {
            1int
        }
    }
}

/// The number of bytes that scanning the region overwrites.
pub open spec fn zeroed_bytes(
    buf: Seq<u8>,
    region: MemoryRegionDescriptor,
    width: PointerWidth,
    covered: Set<int>,
) -> int {
    width.times(zeroed_windows(buf, region, width, covered, window_count(region, width)))
}

/// The buffer after the regions were scanned one after the other, in list
/// order.
pub open spec fn redacted_all(
    buf: Seq<u8>,
    regions: Seq<MemoryRegionDescriptor>,
    width: PointerWidth,
    covered: Set<int>,
) -> Seq<u8>
    decreases regions.len(),
{
    if regions.len() == 0 {
        buf
    } else {
        redacted(
            redacted_all(buf, regions.drop_last(), width, covered),
            regions.last(),
            width,
            covered,
        )
    }
}

/// The number of bytes that the scan of region `j` of the list overwrites,
/// the regions before it having been scanned.
pub open spec fn zeroed_in(
    buf: Seq<u8>,
    regions: Seq<MemoryRegionDescriptor>,
    width: PointerWidth,
    covered: Set<int>,
    j: int,
) -> int {
    zeroed_bytes(redacted_all(buf, regions.take(j), width, covered), regions[j], width, covered)
}

/// 256 to the power `n`.
spec fn le_limit(n: nat) -> nat
    decreases n,
{
    if n == 0 {
        1
    } else {
        256 * le_limit((n - 1) as nat)
    }
}

proof fn lemma_le_value_below_limit(bytes: Seq<u8>)
    ensures
        le_value(bytes) < le_limit(bytes.len()),
    decreases bytes.len(),
{
    if bytes.len() > 0 {
        lemma_le_value_below_limit(bytes.drop_first());
    }
}

proof fn lemma_le_limit_grows(a: nat, b: nat)
    requires
        a <= b,
    ensures
        le_limit(a) <= le_limit(b),
    decreases b,
{
    if a < b {
        lemma_le_limit_grows(a, (b - 1) as nat);
    }
}

proof fn lemma_le_limit_of_eight()
    ensures
        le_limit(8) == 0x1_0000_0000_0000_0000,
{
    reveal_with_fuel(le_limit, 9);
}

/// The value of at most eight bytes fits in 64 bits.
pub proof fn lemma_le_value_fits(bytes: Seq<u8>)
    requires
        bytes.len() <= 8,
    ensures
        le_value(bytes) <= u64::MAX,
{
    lemma_le_value_below_limit(bytes);
    lemma_le_limit_grows(bytes.len(), 8);
    lemma_le_limit_of_eight();
}

/// Reads the `width` bytes at `at` as a little-endian number.
fn read_window(buf: &[u8], at: usize, width: PointerWidth) -> (value: u64)
    requires
        at + width.byte_count() <= buf@.len(),
    ensures
        value == le_value(buf@.subrange(at as int, at + width.byte_count())),
{
    let w: usize = width.bytes();
    let len: usize = buf.len();
    let ghost end: int = at + w;
    let mut i: usize = w;
    let mut value: u64 = 0;
    assert(buf@.subrange(end, end).len() == 0);
    while i > 0
        invariant
            w == width.byte_count(),
            end == at + w,
            end <= buf@.len() == len,
            i <= w,
            value == le_value(buf@.subrange(at + i, end)),
        decreases i,
    {
        let ghost rest: Seq<u8> = buf@.subrange(at + i, end);
        i -= 1;
        let byte: u8 = buf[at + i];
        proof {
            let more: Seq<u8> = buf@.subrange(at + i, end);
            assert(more.drop_first() =~= rest);
            assert(more[0] == byte);
            lemma_le_value_fits(more);
        }
        value = value * 256 + byte as u64;
    }
    value
}

/// Overwrites the `width` bytes at `at` with zero.
fn zero_window(buf: &mut [u8], at: usize, width: PointerWidth)
    requires
        at + width.byte_count() <= old(buf)@.len(),
    ensures
        final(buf)@ == Seq::new(
            old(buf)@.len(),
            |j: int|
                if at <= j < at + width.byte_count() {
                    0u8
                } else {
                    old(buf)@[j]
                },
        ),
{
    let w: usize = width.bytes();
    let len: usize = buf.len();
    let ghost before: Seq<u8> = buf@;
    let mut i: usize = 0;
    while i < w
        invariant
            w == width.byte_count(),
            at + w <= before.len() == len,
            i <= w,
            buf@ == Seq::new(
                before.len(),
                |j: int|
                    if at <= j < at + i {
                        0u8
                    } else {
                        before[j]
                    },
            ),
        decreases w - i,
    {
        buf[at + i] = 0;
        i += 1;
    }
}

/// Scans one region of `output`: every whole window whose value is not a
/// covered address is zeroed, and the number of bytes zeroed is returned.
///
/// The region has to lie inside the buffer.
pub fn redact_region(
    output: &mut [u8],
    region: MemoryRegionDescriptor,
    width: PointerWidth,
    index: &AddressIndex,
) -> (zeroed: u64)
    requires
        region.fits(old(output)@.len() as int),
    ensures
        final(output)@ == redacted(old(output)@, region, width, index@),
        final(output)@.len() == old(output)@.len(),
        zeroed == zeroed_bytes(old(output)@, region, width, index@),
        zeroed <= region.size,
        forall|k: int|
            0 <= k < window_count(region, width) ==> #[trigger] window(
                final(output)@,
                region,
                width,
                k,
            ) == window_outcome(old(output)@, region, width, index@, k),
        forall|i: int|
            0 <= i < old(output)@.len() && !scanned(region, width, i) ==> #[trigger] final(output)@[i] == old(output)@[i],
{
    let ghost before: Seq<u8> = output@;
    let w: usize = width.bytes();
    let len: usize = output.len();
    let end: usize = region.rva as usize + region.size as usize;
    let mut at: usize = region.rva as usize;
    let mut zeroed: u64 = 0;
    let ghost mut k: int = 0;
    while end - at >= w
        invariant
            w == width.byte_count(),
            end == region.end(),
            end <= before.len() == len,
            0 <= k <= window_count(region, width),
            at == window_start(region, width, k),
            at <= end,
            output@ == redacted_upto(before, region, width, index@, k),
            zeroed == width.times(zeroed_windows(before, region, width, index@, k)),
            zeroed <= width.times(k),
        decreases end - at,
    {
        proof {
            lemma_zeroed_windows_bounded(before, region, width, index@, k);
        }
        assert(k < window_count(region, width));
        assert(output@.subrange(at as int, at + w) =~= window(before, region, width, k));
        let value: u64 = read_window(output, at, width);
        if !index.contains(value) {
            zero_window(output, at, width);
            zeroed += w as u64;
        }
        assert(output@ =~= redacted_upto(before, region, width, index@, k + 1));
        at += w;
        proof {
            k = k + 1;
        }
    }
    assert(k == window_count(region, width));
    proof {
        assert forall|j: int| 0 <= j < window_count(region, width) implies #[trigger] window(
            output@,
            region,
            width,
            j,
        ) == window_outcome(before, region, width, index@, j) by {
            law_region_window_outcome(before, region, width, index@, j);
        }
    }
    zeroed
}

/// Scans the regions of `output` one after the other, in list order, and
/// returns for each region the number of its bytes and the number of bytes
/// zeroed in it.
///
/// Every region has to lie inside the buffer. Regions are meant to share no
/// byte; where they do, each is still scanned as the buffer stands when its
/// turn comes.
pub fn redact_regions(
    output: &mut [u8],
    regions: &Vec<MemoryRegionDescriptor>,
    width: PointerWidth,
    index: &AddressIndex,
) -> (results: Vec<(u64, u64)>)
    requires
        all_fit(regions@, old(output)@.len() as int),
    ensures
        final(output)@ == redacted_all(old(output)@, regions@, width, index@),
        final(output)@.len() == old(output)@.len(),
        results@.len() == regions@.len(),
        forall|j: int|
            0 <= j < regions@.len() ==> (#[trigger] results@[j]).0 == regions@[j].size
                && results@[j].1 == zeroed_in(old(output)@, regions@, width, index@, j),
        forall|j: int| 0 <= j < regions@.len() ==> (#[trigger] results@[j]).1 <= results@[j].0,
        forall|i: int|
            0 <= i < old(output)@.len() && !in_some_region(regions@, i) ==> #[trigger] final(output)@[i] == old(output)@[i],
        pairwise_apart(regions@) ==> forall|j: int, k: int|
            0 <= j < regions@.len() && 0 <= k < window_count(regions@[j], width)
                ==> #[trigger] window(final(output)@, regions@[j], width, k) == window_outcome(
                old(output)@,
                regions@[j],
                width,
                index@,
                k,
            ),
{
    let ghost before: Seq<u8> = output@;
    let n: usize = regions.len();
    let mut results: Vec<(u64, u64)> = Vec::new();
    let mut i: usize = 0;
    assert(regions@.take(0) =~= Seq::<MemoryRegionDescriptor>::empty());
    while i < n
        invariant
            n == regions@.len(),
            i <= n,
            all_fit(regions@, before.len() as int),
            output@ == redacted_all(before, regions@.take(i as int), width, index@),
            output@.len() == before.len(),
            results@.len() == i,
            forall|j: int|
                0 <= j < i ==> (#[trigger] results@[j]).0 == regions@[j].size && results@[j].1
                    == zeroed_in(before, regions@, width, index@, j),
            forall|j: int| 0 <= j < i ==> (#[trigger] results@[j]).1 <= results@[j].0,
        decreases n - i,
    {
        let region: MemoryRegionDescriptor = regions[i];
        assert(regions@[i as int].fits(before.len() as int));
        let zeroed: u64 = redact_region(output, region, width, index);
        proof {
            let upto = regions@.take(i + 1);
            assert(upto.drop_last() =~= regions@.take(i as int));
            assert(upto.last() == region);
        }
        results.push((region.size as u64, zeroed));
        i += 1;
    }
    proof {
        assert(regions@.take(n as int) =~= regions@);
        assert forall|b: int| 0 <= b < before.len() && !in_some_region(regions@, b) implies output@[b]
            == before[b] by {
            law_outside_regions_unchanged(before, regions@, width, index@, b);
        }
        if pairwise_apart(regions@) {
            assert forall|j: int, k: int|
                0 <= j < regions@.len() && 0 <= k < window_count(
                    regions@[j],
                    width,
                ) implies #[trigger] window(output@, regions@[j], width, k) == window_outcome(
                before,
                regions@[j],
                width,
                index@,
                k,
            ) by {
                law_window_outcome(before, regions@, width, index@, j, k);
            }
        }
    }
    results
}

} // verus!
