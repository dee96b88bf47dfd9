//! Which addresses lie inside a loaded module.
//!
//! The index keeps the mapped ranges of the modules as a sorted list of
//! ranges with a gap between any two of them, so that one binary search
//! answers a query, however the modules overlap.
use vstd::prelude::*;
use crate::model::{MalformedModuleData, ModuleRecord, module_cover};

verus! {

/// The addresses `start <= a < end`.
#[derive(Clone, Copy, Debug)]
struct AddressRange {
    start: u64,
    end: u64,
}

impl AddressRange {
    spec fn has(self, addr: int) -> bool {
        self.start <= addr < self.end
    }
}

/// `addr` lies in `[lo, hi)`.
spec fn spans(lo: u64, hi: u64, addr: int) -> bool {
    lo <= addr < hi
}

/// The addresses that lie in at least one of `ranges`.
spec fn cover_of(ranges: Seq<AddressRange>) -> Set<int> {
    Set::new(|addr: int| exists|i: int| 0 <= i < ranges.len() && #[trigger] ranges[i].has(addr))
}

/// No range is empty, and each one ends before the next one starts.
spec fn separated(ranges: Seq<AddressRange>) -> bool {
    &&& forall|i: int| 0 <= i < ranges.len() ==> (#[trigger] ranges[i]).start < ranges[i].end
    &&& forall|i: int, j: int|
        0 <= i < j < ranges.len() ==> (#[trigger] ranges[i]).end < (#[trigger] ranges[j]).start
}

/// A lookup structure over the mapped ranges of a module list.
#[derive(Debug)]
pub struct AddressIndex {
    ranges: Vec<AddressRange>,
}

impl View for AddressIndex {
    type V = Set<int>;

    /// The set of covered addresses.
    closed spec fn view(&self) -> Set<int> {
        cover_of(self.ranges@)
    }
}

/// `k` is the first module of `modules` whose range overflows.
pub open spec fn first_malformed(modules: Seq<ModuleRecord>, k: int) -> bool {
    &&& 0 <= k < modules.len()
    &&& !modules[k].well_formed()
    &&& forall|i: int| 0 <= i < k ==> (#[trigger] modules[i]).well_formed()
}

/// Adds `[start, end)` to a separated list, merging it with every range it
/// overlaps or touches.
fn insert_range(ranges: &Vec<AddressRange>, start: u64, end: u64) -> (out: Vec<AddressRange>)
    requires
        separated(ranges@),
        start < end,
    ensures
        separated(out@),
        forall|addr: int|
            cover_of(out@).contains(addr) <==> (cover_of(ranges@).contains(addr) || start <= addr
                < end),
{
    let n: usize = ranges.len();
    let mut out: Vec<AddressRange> = Vec::new();
    let mut i: usize = 0;
    while i < n && ranges[i].end < start
        invariant
            n == ranges@.len(),
            i <= n,
            out@ =~= ranges@.take(i as int),
            forall|j: int| 0 <= j < i ==> (#[trigger] ranges@[j]).end < start,
        decreases n - i,
    {
        out.push(ranges[i]);
        i += 1;
    }
    let p: usize = i;
    let mut lo: u64 = start;
    let mut hi: u64 = end;
    assert forall|j: int| p <= j < n implies (#[trigger] ranges@[j]).end >= start by {
        if j > p {
            assert(ranges@[p as int].end < ranges@[j].start);
        }
    }
    while i < n && ranges[i].start <= hi
        invariant
            n == ranges@.len(),
            separated(ranges@),
            p <= i <= n,
            lo <= start < end <= hi,
            forall|j: int| 0 <= j < p ==> (#[trigger] ranges@[j]).end < lo,
            forall|j: int| p <= j < n ==> (#[trigger] ranges@[j]).end >= start,
            forall|j: int| p <= j < i ==> lo <= (#[trigger] ranges@[j]).start && ranges@[j].end <= hi,
            forall|addr: int| #[trigger]
                spans(lo, hi, addr) ==> (start <= addr < end || exists|j: int|
                    p <= j < i && #[trigger] ranges@[j].has(addr)),
        decreases n - i,
    {
        let r: AddressRange = ranges[i];
        let ghost old_lo: u64 = lo;
        let ghost old_hi: u64 = hi;
        if r.start < lo {
            lo = r.start;
        }
        if r.end > hi {
            hi = r.end;
        }
        assert forall|j: int| 0 <= j < p implies (#[trigger] ranges@[j]).end < lo by {
            assert(ranges@[j].end < ranges@[i as int].start);
        }
        assert forall|addr: int| #[trigger] spans(lo, hi, addr) implies (start <= addr < end
            || exists|j: int| p <= j < i + 1 && #[trigger] ranges@[j].has(addr)) by {
            if spans(old_lo, old_hi, addr) {
                if !(start <= addr < end) {
                    let j = choose|j: int| p <= j < i && #[trigger] ranges@[j].has(addr);
                    assert(p <= j < i + 1 && ranges@[j].has(addr));
                }
            } else {
                assert(ranges@[i as int].has(addr));
            }
        }
        i += 1;
    }
    let q: usize = i;
    out.push(AddressRange { start: lo, end: hi });
    let ghost merged: Seq<AddressRange> = out@;
    while i < n
        invariant
            n == ranges@.len(),
            q <= i <= n,
            merged.len() == p + 1,
            out@ =~= merged + ranges@.subrange(q as int, i as int),
        decreases n - i,
    {
        out.push(ranges[i]);
        i += 1;
    }
    proof {
        let tail = ranges@.subrange(q as int, n as int);
        assert(out@ =~= merged + tail);
        assert(merged =~= ranges@.take(p as int).push(AddressRange { start: lo, end: hi }));
        assert forall|j: int| 0 <= j < p implies out@[j] == ranges@[j] by {}
        assert(out@[p as int] == AddressRange { start: lo, end: hi });
        assert forall|j: int| p < j < out@.len() implies out@[j] == ranges@[q + (j - p - 1)] by {
            assert(out@[j] == tail[j - p - 1]);
        }
        assert forall|j: int| q <= j < n implies hi < (#[trigger] ranges@[j]).start by {
            if j > q {
                assert(ranges@[q as int].end < ranges@[j].start);
            }
        }
        assert forall|a: int, b: int| 0 <= a < b < out@.len() implies (#[trigger] out@[a]).end < (
        #[trigger] out@[b]).start by {
            if b < p {
                assert(ranges@[a].end < ranges@[b].start);
            } else if b == p {
                assert(ranges@[a].end < lo);
            } else if a < p {
                assert(ranges@[a].end < lo);
                assert(hi < ranges@[q + (b - p - 1)].start);
            } else if a == p {
                assert(hi < ranges@[q + (b - p - 1)].start);
            } else {
                assert(ranges@[q + (a - p - 1)].end < ranges@[q + (b - p - 1)].start);
            }
        }
        assert forall|j: int| 0 <= j < out@.len() implies (#[trigger] out@[j]).start < out@[j].end by {
            if j < p {
                assert(ranges@[j].start < ranges@[j].end);
            } else if j > p {
                assert(ranges@[q + (j - p - 1)].start < ranges@[q + (j - p - 1)].end);
            }
        }
        assert forall|addr: int|
            cover_of(out@).contains(addr) <==> (cover_of(ranges@).contains(addr) || start <= addr
                < end) by {
            if cover_of(out@).contains(addr) {
                let j = choose|j: int| 0 <= j < out@.len() && #[trigger] out@[j].has(addr);
                if j < p {
                    assert(ranges@[j].has(addr));
                } else if j == p {
                    assert(spans(lo, hi, addr));
                    if !(start <= addr < end) {
                        let m = choose|m: int| p <= m < q && #[trigger] ranges@[m].has(addr);
                        assert(ranges@[m].has(addr));
                    }
                } else {
                    assert(ranges@[q + (j - p - 1)].has(addr));
                }
            }
            if cover_of(ranges@).contains(addr) {
                let m = choose|m: int| 0 <= m < n && #[trigger] ranges@[m].has(addr);
                if m < p {
                    assert(out@[m].has(addr));
                } else if m < q {
                    assert(out@[p as int].has(addr));
                } else {
                    assert(out@[p + 1 + (m - q)] == ranges@[m]);
                    assert(out@[p + 1 + (m - q)].has(addr));
                }
            }
            if start <= addr < end {
                assert(out@[p as int].has(addr));
            }
        }
    }
    out
}

impl AddressIndex {
    #[verifier::type_invariant]
    spec fn ordered(self) -> bool {
        separated(self.ranges@)
    }

    /// Builds the index of `modules`.
    ///
    /// A module whose range `[base_address, base_address + size)` does not
    /// end inside the 64-bit address space is reported, the first such
    /// module in list order. Otherwise the index covers exactly the
    /// addresses that some module covers, whether or not ranges overlap.
    pub fn build(modules: &Vec<ModuleRecord>) -> (built: Result<AddressIndex, MalformedModuleData>)
        ensures
            match built {
                Ok(index) => {
                    &&& forall|i: int|
                        0 <= i < modules@.len() ==> (#[trigger] modules@[i]).well_formed()
                    &&& index@ == module_cover(modules@)
                },
                Err(e) => exists|k: int|
                    {
                        &&& #[trigger] first_malformed(modules@, k)
                        &&& e.name@ == modules@[k].name@
                        &&& e.base_address == modules@[k].base_address
                        &&& e.size == modules@[k].size
                    },
            },
    {
        let n: usize = modules.len();
        let mut ranges: Vec<AddressRange> = Vec::new();
        let mut i: usize = 0;
        while i < n
            invariant
                n == modules@.len(),
                i <= n,
                separated(ranges@),
                forall|j: int| 0 <= j < i ==> (#[trigger] modules@[j]).well_formed(),
                forall|addr: int|
                    cover_of(ranges@).contains(addr) <==> exists|j: int|
                        0 <= j < i && #[trigger] modules@[j].covers(addr),
            decreases n - i,
        {
            let module: &ModuleRecord = &modules[i];
            match module.base_address.checked_add(module.size) {
                None => {
                    let e = MalformedModuleData {
                        name: module.name.clone(),
                        base_address: module.base_address,
                        size: module.size,
                    };
                    assert(first_malformed(modules@, i as int));
                    return Err(e);
                },
                Some(end) => {
                    if module.size > 0 {
                        let ghost before: Seq<AddressRange> = ranges@;
                        ranges = insert_range(&ranges, module.base_address, end);
                        assert forall|addr: int|
                            cover_of(ranges@).contains(addr) <==> exists|j: int|
                                0 <= j < i + 1 && #[trigger] modules@[j].covers(addr) by {
                            if cover_of(ranges@).contains(addr) {
                                if cover_of(before).contains(addr) {
                                    let j = choose|j: int|
                                        0 <= j < i && #[trigger] modules@[j].covers(addr);
                                    assert(0 <= j < i + 1 && modules@[j].covers(addr));
                                } else {
                                    assert(modules@[i as int].covers(addr));
                                }
                            }
                            if exists|j: int| 0 <= j < i + 1 && #[trigger] modules@[j].covers(addr) {
                                let j = choose|j: int|
                                    0 <= j < i + 1 && #[trigger] modules@[j].covers(addr);
                                if j < i {
                                    assert(cover_of(before).contains(addr));
                                }
                            }
                        }
                    } else {
                        assert forall|addr: int|
                            cover_of(ranges@).contains(addr) <==> exists|j: int|
                                0 <= j < i + 1 && #[trigger] modules@[j].covers(addr) by {
                            if cover_of(ranges@).contains(addr) {
                                let j = choose|j: int|
                                    0 <= j < i && #[trigger] modules@[j].covers(addr);
                                assert(0 <= j < i + 1 && modules@[j].covers(addr));
                            }
                            if exists|j: int| 0 <= j < i + 1 && #[trigger] modules@[j].covers(addr) {
                                let j = choose|j: int|
                                    0 <= j < i + 1 && #[trigger] modules@[j].covers(addr);
                                assert(j < i);
                            }
                        }
                    }
                },
            }
            i += 1;
        }
        let index = AddressIndex { ranges };
        assert(index@ =~= module_cover(modules@));
        Ok(index)
    }

    /// Whether `addr` lies inside the mapped range of some module.
    pub fn contains(&self, addr: u64) -> (found: bool)
        ensures
            found == self@.contains(addr as int),
    {
        proof {
            use_type_invariant(self);
        }
        let n: usize = self.ranges.len();
        let mut lo: usize = 0;
        let mut hi: usize = n;
        while lo < hi
            invariant
                n == self.ranges@.len(),
                separated(self.ranges@),
                lo <= hi <= n,
                forall|j: int| 0 <= j < lo ==> (#[trigger] self.ranges@[j]).start <= addr,
                forall|j: int| hi <= j < n ==> (#[trigger] self.ranges@[j]).start > addr,
            decreases hi - lo,
        {
            let mid: usize = lo + (hi - lo) / 2;
            if self.ranges[mid].start <= addr {
                assert forall|j: int| 0 <= j < mid + 1 implies (#[trigger] self.ranges@[j]).start
                    <= addr by {
                    if j < mid {
                        assert(self.ranges@[j].end < self.ranges@[mid as int].start);
                    }
                }
                lo = mid + 1;
            } else {
                assert forall|j: int| mid <= j < n implies (#[trigger] self.ranges@[j]).start
                    > addr by {
                    if j > mid {
                        assert(self.ranges@[mid as int].end < self.ranges@[j].start);
                    }
                }
                hi = mid;
            }
        }
        if lo == 0 {
            assert forall|j: int| 0 <= j < n implies !(#[trigger] self.ranges@[j].has(addr as int)) by {}
            false
        } else {
            let found: bool = addr < self.ranges[lo - 1].end;
            proof {
                let c: int = lo - 1;
                if found {
                    assert(self.ranges@[c].has(addr as int));
                } else {
                    assert forall|j: int| 0 <= j < n implies !(#[trigger] self.ranges@[j].has(
                        addr as int,
                    )) by {
                        if j < c {
                            assert(self.ranges@[j].end < self.ranges@[c].start);
                        }
                    }
                }
            }
            found
        }
    }
}

} // verus!
