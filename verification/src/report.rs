//! The byte counts of a run.
use vstd::prelude::*;
use crate::model::RedactionStats;

verus! {

/// The sum of the first numbers of the pairs: the bytes considered.
pub open spec fn total_considered(results: Seq<(u64, u64)>) -> int
    decreases results.len(),
{
    if results.len() == 0 {
        0
    } else {
        total_considered(results.drop_last()) + results.last().0
    }
}

/// The sum of the second numbers of the pairs: the bytes zeroed.
pub open spec fn total_zeroed(results: Seq<(u64, u64)>) -> int
    decreases results.len(),
{
    if results.len() == 0 {
        0
    } else {
        total_zeroed(results.drop_last()) + results.last().1
    }
}

/// The sums over a part of the list are no more than the sums over all of
/// it.
pub proof fn lemma_totals_grow(results: Seq<(u64, u64)>, i: int)
    requires
        0 <= i <= results.len(),
    ensures
        0 <= total_considered(results.take(i)) <= total_considered(results),
        0 <= total_zeroed(results.take(i)) <= total_zeroed(results),
    decreases results.len() - i,
{
    if i == results.len() {
        assert(results.take(i) =~= results);
        lemma_totals_at_least_zero(results);
    } else {
        lemma_totals_grow(results, i + 1);
        assert(results.take(i + 1).drop_last() =~= results.take(i));
        lemma_totals_at_least_zero(results.take(i));
    }
}

proof fn lemma_totals_at_least_zero(results: Seq<(u64, u64)>)
    ensures
        0 <= total_considered(results),
        0 <= total_zeroed(results),
    decreases results.len(),
{
    if results.len() > 0 {
        lemma_totals_at_least_zero(results.drop_last());
    }
}

/// Where no region had more bytes zeroed than it holds, the same is true of
/// the sums.
pub proof fn lemma_zeroed_within_considered(results: Seq<(u64, u64)>)
    requires
        forall|j: int| 0 <= j < results.len() ==> (#[trigger] results[j]).1 <= results[j].0,
    ensures
        0 <= total_zeroed(results) <= total_considered(results),
    decreases results.len(),
{
    if results.len() > 0 {
        let init = results.drop_last();
        assert forall|j: int| 0 <= j < init.len() implies (#[trigger] init[j]).1 <= init[j].0 by {
            assert(init[j] == results[j]);
        }
        lemma_zeroed_within_considered(init);
    }
}

/// Adds up the per-region counts of a run.
///
/// Both sums have to fit in 64 bits.
pub fn summarize(per_region: &Vec<(u64, u64)>, output_len: u64) -> (stats: RedactionStats)
    requires
        total_considered(per_region@) <= u64::MAX,
        total_zeroed(per_region@) <= u64::MAX,
    ensures
        stats.bytes_considered == total_considered(per_region@),
        stats.bytes_zeroed == total_zeroed(per_region@),
        stats.total_output_len == output_len,
{
    let n: usize = per_region.len();
    let mut considered: u64 = 0;
    let mut zeroed: u64 = 0;
    let mut i: usize = 0;
    while i < n
        invariant
            n == per_region@.len(),
            i <= n,
            considered == total_considered(per_region@.take(i as int)),
            zeroed == total_zeroed(per_region@.take(i as int)),
            total_considered(per_region@) <= u64::MAX,
            total_zeroed(per_region@) <= u64::MAX,
        decreases n - i,
    {
        proof {
            lemma_totals_grow(per_region@, i + 1);
            assert(per_region@.take(i + 1).drop_last() =~= per_region@.take(i as int));
        }
        let pair: (u64, u64) = per_region[i];
        considered = considered + pair.0;
        zeroed = zeroed + pair.1;
        i += 1;
    }
    assert(per_region@.take(n as int) =~= per_region@);
    RedactionStats { bytes_considered: considered, bytes_zeroed: zeroed, total_output_len: output_len }
}

impl RedactionStats {
    /// The bytes considered that were left as they were.
    ///
    /// No more bytes can have been zeroed than were considered.
    pub fn bytes_kept(&self) -> (kept: u64)
        requires
            self.bytes_zeroed <= self.bytes_considered,
        ensures
            kept == self.bytes_considered - self.bytes_zeroed,
    {
        self.bytes_considered - self.bytes_zeroed
    }
}

} // verus!
