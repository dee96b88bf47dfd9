//! A whole run: the two checks, then the scan, then the counts.
//!
//! The checks come first and touch nothing. Only a dump that passes both,
//! and whose module ranges are well formed, has its buffer scanned.
use vstd::prelude::*;
use crate::address_index::{AddressIndex, first_malformed};
use crate::consistency::{first_unlisted, stacks_listed, verify_stacks};
use crate::laws::{all_fit, in_some_region, pairwise_apart, window_outcome};
use crate::model::{
    MemoryRegionDescriptor, ModuleRecord, PointerWidth, RedactError, RedactionStats,
    ThreadStackDescriptor, module_cover,
};
use crate::report::{lemma_zeroed_within_considered, summarize, total_considered, total_zeroed};
use crate::scanner::{redact_regions, redacted_all, window, window_count, zeroed_in};
use crate::trust_gate::{all_trusted, check_modules, first_untrusted};

verus! {

/// The dump passes both checks and every module range is well formed.
pub open spec fn admitted(
    modules: Seq<ModuleRecord>,
    allow: Seq<String>,
    threads: Seq<ThreadStackDescriptor>,
    regions: Seq<MemoryRegionDescriptor>,
) -> bool {
    &&& all_trusted(modules, allow)
    &&& stacks_listed(threads, regions)
    &&& forall|i: int| 0 <= i < modules.len() ==> (#[trigger] modules[i]).well_formed()
}

/// `e` is the error that the dump is refused with: the first check that
/// fails decides, in the order allow-list, thread stacks, module ranges, and
/// within a check the first offender in list order.
pub open spec fn refused_with(
    e: RedactError,
    modules: Seq<ModuleRecord>,
    allow: Seq<String>,
    threads: Seq<ThreadStackDescriptor>,
    regions: Seq<MemoryRegionDescriptor>,
) -> bool {
    match e {
        RedactError::UntrustedModule(u) => exists|k: int| #[trigger]
            first_untrusted(modules, allow, k) && u.name@ == modules[k].name@,
        RedactError::InconsistentDump(d) => {
            &&& all_trusted(modules, allow)
            &&& exists|k: int| #[trigger]
                first_unlisted(threads, regions, k) && d.stack == threads[k].stack
        },
        RedactError::MalformedModuleData(m) => {
            &&& all_trusted(modules, allow)
            &&& stacks_listed(threads, regions)
            &&& exists|k: int|
                {
                    &&& #[trigger] first_malformed(modules, k)
                    &&& m.name@ == modules[k].name@
                    &&& m.base_address == modules[k].base_address
                    &&& m.size == modules[k].size
                }
        },
    }
}

/// The number of bytes in the first `n` regions of the list.
pub open spec fn region_bytes(regions: Seq<MemoryRegionDescriptor>, n: int) -> int
    decreases n,
{
    if n <= 0 {
        0
    } else {
        region_bytes(regions, n - 1) + regions[n - 1].size
    }
}

/// The number of bytes that the scan of the first `n` regions of the list
/// overwrites.
pub open spec fn zeroed_total(
    buf: Seq<u8>,
    regions: Seq<MemoryRegionDescriptor>,
    width: PointerWidth,
    covered: Set<int>,
    n: int,
) -> int
    decreases n,
{
    if n <= 0 {
        0
    } else {
        zeroed_total(buf, regions, width, covered, n - 1) + zeroed_in(
            buf,
            regions,
            width,
            covered,
            n - 1,
        )
    }
}

proof fn lemma_region_bytes_grow(regions: Seq<MemoryRegionDescriptor>, i: int, n: int)
    requires
        0 <= i <= n,
    ensures
        0 <= region_bytes(regions, i) <= region_bytes(regions, n),
    decreases n,
{
    if i < n {
        lemma_region_bytes_grow(regions, i, n - 1);
    } else if n > 0 {
        lemma_region_bytes_grow(regions, i - 1, n - 1);
    }
}

/// The sums of the per-region counts are the sums over the regions.
proof fn lemma_totals_of_results(
    results: Seq<(u64, u64)>,
    buf: Seq<u8>,
    regions: Seq<MemoryRegionDescriptor>,
    width: PointerWidth,
    covered: Set<int>,
    n: int,
)
    requires
        0 <= n <= regions.len(),
        results.len() == regions.len(),
        forall|j: int|
            0 <= j < regions.len() ==> (#[trigger] results[j]).0 == regions[j].size && results[j].1
                == zeroed_in(buf, regions, width, covered, j),
    ensures
        total_considered(results.take(n)) == region_bytes(regions, n),
        total_zeroed(results.take(n)) == zeroed_total(buf, regions, width, covered, n),
    decreases n,
{
    if n > 0 {
        lemma_totals_of_results(results, buf, regions, width, covered, n - 1);
        assert(results.take(n).drop_last() =~= results.take(n - 1));
        assert(results.take(n).last() == results[n - 1]);
    }
}

/// Whether the regions can be scanned in a buffer of `len` bytes: each one
/// lies inside the buffer, and their sizes add up to a number that fits in
/// 64 bits.
pub fn regions_admissible(regions: &Vec<MemoryRegionDescriptor>, len: usize) -> (ok: bool)
    ensures
        ok == (all_fit(regions@, len as int) && region_bytes(regions@, regions@.len() as int)
            <= u64::MAX),
{
    let n: usize = regions.len();
    let mut total: u64 = 0;
    let mut i: usize = 0;
    while i < n
        invariant
            n == regions@.len(),
            i <= n,
            total == region_bytes(regions@, i as int),
            forall|j: int| 0 <= j < i ==> (#[trigger] regions@[j]).fits(len as int),
        decreases n - i,
    {
        let region: MemoryRegionDescriptor = regions[i];
        if region.rva as u64 + region.size as u64 > len as u64 {
            assert(!regions@[i as int].fits(len as int));
            return false;
        }
        match total.checked_add(region.size as u64) {
            None => {
                proof {
                    lemma_region_bytes_grow(regions@, i + 1, n as int);
                }
                return false;
            },
            Some(sum) => {
                total = sum;
            },
        }
        i += 1;
    }
    true
}

/// Runs the checks that decide whether a dump may be redacted, and builds
/// the address index of its modules.
///
/// The allow-list check comes first, then the thread stacks, then the module
/// ranges. The first one that fails gives the error.
pub fn validate_dump(
    modules: &Vec<ModuleRecord>,
    allow: &Vec<String>,
    threads: &Vec<ThreadStackDescriptor>,
    regions: &Vec<MemoryRegionDescriptor>,
) -> (validated: Result<AddressIndex, RedactError>)
    ensures
        match validated {
            Ok(index) => admitted(modules@, allow@, threads@, regions@) && index@ == module_cover(
                modules@,
            ),
            Err(e) => refused_with(e, modules@, allow@, threads@, regions@),
        },
{
    match check_modules(modules, allow) {
        Err(e) => {
            return Err(RedactError::UntrustedModule(e));
        },
        Ok(()) => {},
    }
    match verify_stacks(threads, regions) {
        Err(e) => {
            return Err(RedactError::InconsistentDump(e));
        },
        Ok(()) => {},
    }
    match AddressIndex::build(modules) {
        Err(e) => Err(RedactError::MalformedModuleData(e)),
        Ok(index) => Ok(index),
    }
}

/// Redacts a dump in place.
///
/// `output` holds a copy of the dump. If a check fails, the error says
/// which, and no byte of the buffer is changed. Otherwise every region is
/// scanned, in list order, against the addresses that the modules cover, and
/// the byte counts of the run are returned.
///
/// Every region has to lie inside the buffer, and the sizes of the regions
/// have to add up to a number that fits in 64 bits.
pub fn redact_dump(
    output: &mut [u8],
    modules: &Vec<ModuleRecord>,
    allow: &Vec<String>,
    threads: &Vec<ThreadStackDescriptor>,
    regions: &Vec<MemoryRegionDescriptor>,
    width: PointerWidth,
) -> (done: Result<RedactionStats, RedactError>)
    requires
        all_fit(regions@, old(output)@.len() as int),
        region_bytes(regions@, regions@.len() as int) <= u64::MAX,
    ensures
        final(output)@.len() == old(output)@.len(),
        match done {
            Ok(stats) => {
                &&& admitted(modules@, allow@, threads@, regions@)
                &&& final(output)@ == redacted_all(
                    old(output)@,
                    regions@,
                    width,
                    module_cover(modules@),
                )
                &&& stats.bytes_considered == region_bytes(regions@, regions@.len() as int)
                &&& stats.bytes_zeroed == zeroed_total(
                    old(output)@,
                    regions@,
                    width,
                    module_cover(modules@),
                    regions@.len() as int,
                )
                &&& stats.bytes_zeroed <= stats.bytes_considered
                &&& stats.total_output_len == old(output)@.len()
            },
            Err(e) => {
                &&& refused_with(e, modules@, allow@, threads@, regions@)
                &&& final(output)@ == old(output)@
            },
        },
        forall|i: int|
            0 <= i < old(output)@.len() && !in_some_region(regions@, i) ==> #[trigger] final(output)@[i] == old(output)@[i],
        done is Ok && pairwise_apart(regions@) ==> forall|j: int, k: int|
            0 <= j < regions@.len() && 0 <= k < window_count(regions@[j], width)
                ==> #[trigger] window(final(output)@, regions@[j], width, k) == window_outcome(
                old(output)@,
                regions@[j],
                width,
                module_cover(modules@),
                k,
            ),
{
    let ghost before: Seq<u8> = output@;
    let len: usize = output.len();
    match validate_dump(modules, allow, threads, regions) {
        Err(e) => Err(e),
        Ok(index) => {
            let results: Vec<(u64, u64)> = redact_regions(output, regions, width, &index);
            proof {
                lemma_totals_of_results(
                    results@,
                    before,
                    regions@,
                    width,
                    index@,
                    regions@.len() as int,
                );
                assert(results@.take(regions@.len() as int) =~= results@);
                lemma_zeroed_within_considered(results@);
            }
            let stats: RedactionStats = summarize(&results, len as u64);
            Ok(stats)
        },
    }
}

} // verus!
