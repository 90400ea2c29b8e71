//! Settings of the peak mergers: which rule collapses a group of close
//! peaks into one.
use vstd::prelude::*;
use crate::spectrum::Peak;

verus! {

/// How a group of close peaks becomes one peak.
#[derive(Debug, Clone, Copy, PartialEq, Eq, Structural)]
pub enum MergeStrategy {
    /// The most intense peak of the group, unchanged.
    MaxIntensity,
    /// Intensity-weighted mean m/z, mean intensity.
    AverageIntensity,
    /// Intensity-weighted mean m/z, summed intensity.
    SumIntensity,
    /// m/z weighted by intensity relative to the group maximum, maximum intensity.
    WeightedAverage,
}

/// Peak `i` opens a group: it is the first, or it is not joined to the
/// peak before it. `joins[i]` tells whether peak `i + 1` lies within the
/// tolerance of peak `i`; since every peak enters some group, the last peak
/// added to the current group is always the one just before.
pub open spec fn opens_group(joins: Seq<bool>, i: int) -> bool {
    i == 0 || !joins[i - 1]
}

/// The more intense of two peaks; the later one on a tie.
pub open spec fn stronger(a: Peak, b: Peak) -> Peak {
    if b.intensity >= a.intensity {
        b
    } else {
        a
    }
}

/// The most intense peak of each group, groups in order.
pub open spec fn strongest_of_groups(peaks: Seq<Peak>, joins: Seq<bool>) -> Seq<Peak>
    decreases peaks.len(),
{
    if peaks.len() <= 1 {
        peaks
    } else {
        let rest = strongest_of_groups(peaks.drop_last(), joins.drop_last());
        if joins.last() {
            rest.drop_last().push(stronger(rest.last(), peaks.last()))
        } else {
            rest.push(peaks.last())
        }
    }
}

/// There is one join decision between each two neighbouring peaks.
pub open spec fn joins_fit(n: nat, joins: Seq<bool>) -> bool {
    if n == 0 {
        joins.len() == 0
    } else {
        joins.len() == n - 1
    }
}

/// With no two neighbours joined, merging under the most-intense rule gives
/// the peaks back unchanged.
pub proof fn lemma_separated_peaks_unchanged(peaks: Seq<Peak>, joins: Seq<bool>)
    requires
        joins_fit(peaks.len(), joins),
        forall|i: int| 0 <= i < joins.len() ==> !(#[trigger] joins[i]),
    ensures
        strongest_of_groups(peaks, joins) == peaks,
    decreases peaks.len(),
{
    if peaks.len() > 1 {
        let j = joins.drop_last();
        assert forall|i: int| 0 <= i < j.len() implies !(#[trigger] j[i]) by {
            assert(j[i] == joins[i]);
        }
        lemma_separated_peaks_unchanged(peaks.drop_last(), j);
        assert(!joins[joins.len() - 1]);
        assert(peaks.drop_last().push(peaks.last()) =~= peaks);
    }
}

/// Positions of the peaks that open a group, ascending.
pub fn group_starts(n: usize, joins: &Vec<bool>) -> (r: Vec<usize>)
    requires
        joins_fit(n as nat, joins@),
    ensures
        forall|i: int| 0 <= i < r@.len() ==> (#[trigger] r@[i]) < n,
        forall|i: int, j: int| 0 <= i < j < r@.len() ==> r@[i] < r@[j],
        forall|k: int| 0 <= k < n ==> (r@.contains(k as usize) <==> opens_group(joins@, k)),
{
    let mut out: Vec<usize> = Vec::new();
    let mut k: usize = 0;
    while k < n
        invariant
            joins_fit(n as nat, joins@),
            k <= n,
            forall|i: int| 0 <= i < out@.len() ==> (#[trigger] out@[i]) < k,
            forall|i: int, j: int| 0 <= i < j < out@.len() ==> out@[i] < out@[j],
            forall|q: int| 0 <= q < k ==> (out@.contains(q as usize) <==> opens_group(joins@, q)),
        decreases n - k,
    {
        let ghost before = out@;
        if k == 0 || !joins[k - 1] {
            out.push(k);
            assert(out@[before.len() as int] == k);
        }
        assert forall|q: int| 0 <= q < k + 1 implies (out@.contains(q as usize) <==> opens_group(joins@, q)) by {
            if out@.contains(q as usize) {
                let w = choose|w: int| 0 <= w < out@.len() && out@[w] == q as usize;
                if w < before.len() {
                    assert(before[w] == q as usize);
                }
            }
            if q < k && before.contains(q as usize) {
                let w = choose|w: int| 0 <= w < before.len() && before[w] == q as usize;
                assert(out@[w] == q as usize);
            }
        }
        k = k + 1;
    }
    out
}

/// Collapses each group of peaks to its most intense member (the later one
/// of equally intense peaks). Peaks are taken in the given order, usually
/// ascending m/z.
pub fn merge_strongest(peaks: &Vec<Peak>, joins: &Vec<bool>) -> (r: Vec<Peak>)
    requires
        joins_fit(peaks@.len(), joins@),
    ensures
        r@ == strongest_of_groups(peaks@, joins@),
{
    let n = peaks.len();
    let mut out: Vec<Peak> = Vec::new();
    if n == 0 {
        return out;
    }
    let mut current = peaks[0];
    let mut i: usize = 1;
    assert(peaks@.take(1) =~= seq![peaks@[0]]);
    assert(joins@.take(0) =~= Seq::<bool>::empty());
    while i < n
        invariant
            n == peaks@.len(),
            joins_fit(n as nat, joins@),
            1 <= i <= n,
            out@.push(current) == strongest_of_groups(peaks@.take(i as int), joins@.take(i - 1)),
        decreases n - i,
    {
        let p = peaks[i];
        let ghost prefix = peaks@.take(i + 1);
        let ghost jprefix = joins@.take(i as int);
        assert(prefix.drop_last() =~= peaks@.take(i as int));
        assert(jprefix.drop_last() =~= joins@.take(i - 1));
        assert(prefix.last() == p);
        assert(jprefix.last() == joins@[i - 1]);
        let ghost rest = out@.push(current);
        assert(rest.drop_last() =~= out@);
        if joins[i - 1] {
            if p.intensity >= current.intensity {
                current = p;
            }
        } else {
            out.push(current);
            current = p;
        }
        i = i + 1;
    }
    assert(peaks@.take(n as int) =~= peaks@);
    assert(joins@.take(n - 1) =~= joins@);
    out.push(current);
    out
}

/// Merges peaks under one strategy.
pub struct PeakMerger {
    merge_strategy: MergeStrategy,
}

impl PeakMerger {
    pub closed spec fn spec_strategy(&self) -> MergeStrategy {
        self.merge_strategy
    }

    pub fn new(strategy: MergeStrategy) -> (r: PeakMerger)
        ensures
            r.spec_strategy() == strategy,
    {
        PeakMerger { merge_strategy: strategy }
    }

    /// A merger that keeps the most intense peak of each group.
    pub fn default() -> (r: PeakMerger)
        ensures
            r.spec_strategy() == MergeStrategy::MaxIntensity,
    {
        PeakMerger::new(MergeStrategy::MaxIntensity)
    }

    pub fn strategy(&self) -> (r: MergeStrategy)
        ensures
            r == self.spec_strategy(),
    {
        self.merge_strategy
    }
}

/// A merger that can also choose its strategy from the peaks themselves.
pub struct AdvancedPeakMerger {
    base_merger: PeakMerger,
}

impl AdvancedPeakMerger {
    pub closed spec fn spec_base_strategy(&self) -> MergeStrategy {
        self.base_merger.spec_strategy()
    }

    pub fn new(strategy: MergeStrategy) -> (r: AdvancedPeakMerger)
        ensures
            r.spec_base_strategy() == strategy,
    {
        AdvancedPeakMerger { base_merger: PeakMerger::new(strategy) }
    }

    pub fn base_merger(&self) -> (r: &PeakMerger)
        ensures
            r.spec_strategy() == self.spec_base_strategy(),
    {
        &self.base_merger
    }
}

} // verus!
