//! The check that every thread stack is a listed memory region.
//!
//! The scan only reaches the bytes that the region list names. A stack that
//! the list does not name would stay unscrubbed, so such a dump is refused.
use std::collections::HashSet;
use vstd::prelude::*;
use crate::model::{InconsistentDump, MemoryRegionDescriptor, ThreadStackDescriptor};

verus! {

broadcast use vstd::std_specs::hash::group_hash_axioms;

/// Every stack of the list equals, in offset and size, some region.
pub open spec fn stacks_listed(
    threads: Seq<ThreadStackDescriptor>,
    regions: Seq<MemoryRegionDescriptor>,
) -> bool {
    forall|i: int| 0 <= i < threads.len() ==> regions.contains((#[trigger] threads[i]).stack)
}

/// `k` is the first thread of the list whose stack is no region.
pub open spec fn first_unlisted(
    threads: Seq<ThreadStackDescriptor>,
    regions: Seq<MemoryRegionDescriptor>,
    k: int,
) -> bool {
    &&& 0 <= k < threads.len()
    &&& !regions.contains(threads[k].stack)
    &&& forall|i: int| 0 <= i < k ==> regions.contains((#[trigger] threads[i]).stack)
}

/// Offset and size packed into one number, the offset in the upper half.
spec fn key_of(region: MemoryRegionDescriptor) -> int {
    region.rva * 0x1_0000_0000 + region.size
}

proof fn lemma_key_tells_region(a: MemoryRegionDescriptor, b: MemoryRegionDescriptor)
    requires
        key_of(a) == key_of(b),
    ensures
        a == b,
{
}

fn region_key(region: MemoryRegionDescriptor) -> (key: u64)
    ensures
        key == key_of(region),
{
    region.rva as u64 * 0x1_0000_0000 + region.size as u64
}

/// Checks every thread stack against the region list.
///
/// The check passes if every stack is a region of the list. Otherwise the
/// error holds the first stack, in list order, that is not.
pub fn verify_stacks(
    threads: &Vec<ThreadStackDescriptor>,
    regions: &Vec<MemoryRegionDescriptor>,
) -> (verified: Result<(), InconsistentDump>)
    ensures
        match verified {
            Ok(()) => stacks_listed(threads@, regions@),
            Err(e) => exists|k: int| #[trigger]
                first_unlisted(threads@, regions@, k) && e.stack == threads@[k].stack,
        },
{
    let mut keys: HashSet<u64> = HashSet::new();
    let n: usize = regions.len();
    let mut j: usize = 0;
    while j < n
        invariant
            n == regions@.len(),
            j <= n,
            forall|key: u64|
                keys@.contains(key) <==> exists|i: int|
                    0 <= i < j && key_of(#[trigger] regions@[i]) == key,
        decreases n - j,
    {
        let ghost before: Set<u64> = keys@;
        let added: u64 = region_key(regions[j]);
        keys.insert(added);
        assert forall|key: u64|
            keys@.contains(key) <==> exists|i: int|
                0 <= i < j + 1 && key_of(#[trigger] regions@[i]) == key by {
            if keys@.contains(key) {
                if before.contains(key) {
                    let i = choose|i: int| 0 <= i < j && key_of(#[trigger] regions@[i]) == key;
                    assert(0 <= i < j + 1 && key_of(regions@[i]) == key);
                } else {
                    assert(key_of(regions@[j as int]) == key);
                }
            }
            if exists|i: int| 0 <= i < j + 1 && key_of(#[trigger] regions@[i]) == key {
                let i = choose|i: int| 0 <= i < j + 1 && key_of(#[trigger] regions@[i]) == key;
                if i < j {
                    assert(before.contains(key));
                }
            }
        }
        j += 1;
    }
    let count: usize = threads.len();
    let mut t: usize = 0;
    while t < count
        invariant
            count == threads@.len(),
            n == regions@.len(),
            t <= count,
            forall|key: u64|
                keys@.contains(key) <==> exists|i: int|
                    0 <= i < n && key_of(#[trigger] regions@[i]) == key,
            forall|i: int| 0 <= i < t ==> regions@.contains((#[trigger] threads@[i]).stack),
        decreases count - t,
    {
        let stack: MemoryRegionDescriptor = threads[t].stack;
        let key: u64 = region_key(stack);
        let found: bool = keys.contains(&key);
        proof {
            if found {
                let i = choose|i: int| 0 <= i < n && key_of(#[trigger] regions@[i]) == key;
                lemma_key_tells_region(regions@[i], stack);
                assert(regions@.contains(stack));
            } else {
                if regions@.contains(stack) {
                    let i = choose|i: int| 0 <= i < n && regions@[i] == stack;
                    assert(key_of(regions@[i]) == key);
                }
            }
        }
        if !found {
            assert(first_unlisted(threads@, regions@, t as int));
            return Err(InconsistentDump { stack });
        }
        t += 1;
    }
    Ok(())
}

} // verus!
