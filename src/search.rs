//! The flat variant of the bucketed index: all peaks in one m/z-sorted
//! array, and for each bin the index range of its peaks; and the vectorised
//! searcher.
use vstd::prelude::*;
use vstd::seq_lib::group_to_multiset_ensures;
use crate::index::{
    bounds_ok, indexed, lemma_at_most_descends, lemma_below_bound, lists_window, peak_at, peaks_of,
    valid_handle, PeakHandle,
};
use vstd::seq_lib::to_multiset_contains;
use crate::spectrum::{
    at_most, below, first_not_below, in_window, is_measure, lemma_measure_not_nan, lies_at_most,
    lies_below, sorted_by_mz, sorted_copy, Peak, Spectrum,
};

verus! {

/// The peaks of all spectra, spectrum after spectrum.
pub open spec fn all_peaks(spectra: Seq<Spectrum>) -> Seq<Peak>
    decreases spectra.len(),
{
    if spectra.len() == 0 {
        Seq::empty()
    } else {
        all_peaks(spectra.drop_last()) + spectra.last().spec_peaks()
    }
}

/// `p` is one of `peaks`, indexed by `bounds`, with `lo <= p.mz <= hi`.
pub open spec fn pooled_match(peaks: Seq<Peak>, bounds: Seq<u64>, p: Peak, lo: u64, hi: u64) -> bool {
    &&& exists|k: int| 0 <= k < peaks.len() && #[trigger] peaks[k] == p
    &&& indexed(bounds, p.mz)
    &&& in_window(p.mz, lo, hi)
}

/// `ks` lists, in ascending order, every position of `peaks` whose peak is
/// indexed by `bounds` and has `lo <= mz <= hi`, and no other.
pub open spec fn lists_positions(peaks: Seq<Peak>, bounds: Seq<u64>, lo: u64, hi: u64, ks: Seq<int>) -> bool {
    &&& forall|a: int, c: int| 0 <= a < c < ks.len() ==> ks[a] < ks[c]
    &&& forall|q: int|
        0 <= q < ks.len() ==> 0 <= #[trigger] ks[q] < peaks.len() && indexed(bounds, peaks[ks[q]].mz)
            && in_window(peaks[ks[q]].mz, lo, hi)
    &&& forall|k: int|
        0 <= k < peaks.len() && indexed(bounds, (#[trigger] peaks[k]).mz) && in_window(peaks[k].mz, lo, hi)
            ==> ks.contains(k)
}

/// The peaks at positions `ks`, in order.
pub open spec fn peaks_at(peaks: Seq<Peak>, ks: Seq<int>) -> Seq<Peak> {
    Seq::new(ks.len(), |q: int| peaks[ks[q]])
}

/// Peaks pooled from many spectra, sorted by m/z, with bins over them.
pub struct BinnedSpectra {
    peaks: Vec<Peak>,
    bounds: Vec<u64>,
    offsets: Vec<usize>,
}

impl BinnedSpectra {
    pub closed spec fn spec_peaks(&self) -> Seq<Peak> {
        self.peaks@
    }

    pub closed spec fn spec_bounds(&self) -> Seq<u64> {
        self.bounds@
    }

    pub closed spec fn spec_offsets(&self) -> Seq<usize> {
        self.offsets@
    }

    /// Peaks ascend by m/z; `offsets[j]` counts the peaks below `bounds[j]`,
    /// so bin `j` holds the peaks from `offsets[j]` up to `offsets[j + 1]`.
    pub open spec fn wf(&self) -> bool {
        let peaks = self.spec_peaks();
        let bounds = self.spec_bounds();
        let offsets = self.spec_offsets();
        &&& sorted_by_mz(peaks)
        &&& bounds_ok(bounds)
        &&& offsets.len() == bounds.len()
        &&& forall|j: int| 0 <= j < offsets.len() ==> #[trigger] offsets[j] <= peaks.len()
        &&& forall|j: int, i: int|
            0 <= j < offsets.len() && 0 <= i < peaks.len() ==> (i < #[trigger] offsets[j] <==> (
            #[trigger] peaks[i]).mz < bounds[j])
    }

    /// Pools the peaks of `spectra`, sorts them by m/z and bins them by
    /// `bounds`, which must ascend strictly and be finite and non-negative.
    pub fn from_spectra(spectra: &Vec<Spectrum>, bounds: Vec<u64>) -> (r: BinnedSpectra)
        requires
            bounds_ok(bounds@),
        ensures
            r.wf(),
            r.spec_peaks().to_multiset() == all_peaks(spectra@).to_multiset(),
            r.spec_bounds() == bounds@,
    {
        let mut pooled: Vec<Peak> = Vec::new();
        let mut s: usize = 0;
        while s < spectra.len()
            invariant
                s <= spectra@.len(),
                pooled@ == all_peaks(spectra@.take(s as int)),
            decreases spectra@.len() - s,
        {
            let peaks = spectra[s].peaks();
            let ghost start = pooled@;
            let mut p: usize = 0;
            while p < peaks.len()
                invariant
                    p <= peaks@.len(),
                    pooled@ == start + peaks@.take(p as int),
                decreases peaks@.len() - p,
            {
                pooled.push(peaks[p]);
                p = p + 1;
                assert(pooled@ =~= start + peaks@.take(p as int));
            }
            assert(peaks@.take(p as int) =~= peaks@);
            assert(spectra@.take(s + 1).drop_last() =~= spectra@.take(s as int));
            s = s + 1;
        }
        assert(spectra@.take(s as int) =~= spectra@);
        let peaks = sorted_copy(&pooled);
        let mut offsets: Vec<usize> = Vec::new();
        let mut j: usize = 0;
        while j < bounds.len()
            invariant
                j <= bounds@.len(),
                bounds_ok(bounds@),
                sorted_by_mz(peaks@),
                offsets@.len() == j,
                forall|k: int| 0 <= k < j ==> #[trigger] offsets@[k] <= peaks@.len(),
                forall|k: int, i: int|
                    0 <= k < j && 0 <= i < peaks@.len() ==> (i < #[trigger] offsets@[k] <==> (
                    #[trigger] peaks@[i]).mz < bounds@[k]),
            decreases bounds@.len() - j,
        {
            let b = bounds[j];
            proof {
                assert(is_measure(bounds@[j as int]));
                lemma_measure_not_nan(b);
            }
            let o = first_not_below(&peaks, b);
            let ghost earlier = offsets@;
            offsets.push(o);
            proof {
                assert forall|k: int, i: int|
                    0 <= k < j + 1 && 0 <= i < peaks@.len() implies (i < #[trigger] offsets@[k] <==> (
                    #[trigger] peaks@[i]).mz < bounds@[k]) by {
                    if k < j {
                        assert(offsets@[k] == earlier[k]);
                    } else {
                        assert(offsets@[k] == o);
                        if i < o {
                            assert(lies_below(peaks@[i].mz, b));
                        } else {
                            assert(!lies_below(peaks@[i].mz, b));
                        }
                    }
                }
            }
            j = j + 1;
        }
        BinnedSpectra { peaks, bounds, offsets }
    }

    /// Every indexed peak with `min_mz <= mz <= max_mz`, each once, in m/z
    /// order: the index ranges of the bins that meet the window, filtered by
    /// the exact bounds.
    pub fn search_range(&self, min_mz: u64, max_mz: u64) -> (r: Vec<Peak>)
        requires
            self.wf(),
        ensures
            sorted_by_mz(r@),
            exists|ks: Seq<int>|
                lists_positions(self.spec_peaks(), self.spec_bounds(), min_mz, max_mz, ks) && r@
                    == #[trigger] peaks_at(self.spec_peaks(), ks),
            forall|i: int|
                0 <= i < r@.len() ==> pooled_match(
                    self.spec_peaks(),
                    self.spec_bounds(),
                    #[trigger] r@[i],
                    min_mz,
                    max_mz,
                ),
            forall|k: int|
                0 <= k < self.spec_peaks().len() && indexed(
                    self.spec_bounds(),
                    (#[trigger] self.spec_peaks()[k]).mz,
                ) && in_window(self.spec_peaks()[k].mz, min_mz, max_mz) ==> r@.contains(
                    self.spec_peaks()[k],
                ),
    {
        let ghost peaks = self.peaks@;
        let ghost bounds = self.bounds@;
        let ghost offsets = self.offsets@;
        let mut out: Vec<Peak> = Vec::new();
        if self.bounds.len() < 2 {
            proof {
                let e = Seq::<int>::empty();
                assert(lists_positions(peaks, bounds, min_mz, max_mz, e));
                assert(out@ =~= peaks_at(self.spec_peaks(), e));
            }
            return out;
        }
        let nb = self.bounds.len() - 1;
        // first bin whose upper bound lies above min_mz
        let mut lo: usize = 0;
        let mut hi: usize = nb;
        while lo < hi
            invariant
                self.wf(),
                bounds == self.bounds@,
                nb == bounds.len() - 1,
                lo <= hi <= nb,
                forall|j: int| 0 <= j < lo ==> lies_at_most(#[trigger] bounds[j + 1], min_mz),
                forall|j: int| hi <= j < nb ==> !lies_at_most(#[trigger] bounds[j + 1], min_mz),
            decreases hi - lo,
        {
            let mid = lo + (hi - lo) / 2;
            if at_most(self.bounds[mid + 1], min_mz) {
                assert forall|j: int| 0 <= j <= mid implies lies_at_most(#[trigger] bounds[j + 1], min_mz) by {
                    lemma_at_most_descends(bounds[j + 1], bounds[mid + 1], min_mz);
                }
                lo = mid + 1;
            } else {
                assert forall|j: int| mid <= j < nb implies !lies_at_most(#[trigger] bounds[j + 1], min_mz) by {
                    if lies_at_most(bounds[j + 1], min_mz) {
                        lemma_at_most_descends(bounds[mid + 1], bounds[j + 1], min_mz);
                    }
                }
                hi = mid;
            }
        }
        let first_bin = lo;
        // first bound above max_mz, or the last bound
        let mut lo2: usize = 0;
        let mut hi2: usize = nb;
        while lo2 < hi2
            invariant
                self.wf(),
                bounds == self.bounds@,
                nb == bounds.len() - 1,
                lo2 <= hi2 <= nb,
                forall|j: int| 0 <= j < lo2 ==> lies_at_most(#[trigger] bounds[j], max_mz),
                forall|j: int| hi2 <= j < nb ==> !lies_at_most(#[trigger] bounds[j], max_mz),
            decreases hi2 - lo2,
        {
            let mid = lo2 + (hi2 - lo2) / 2;
            if at_most(self.bounds[mid], max_mz) {
                assert forall|j: int| 0 <= j <= mid implies lies_at_most(#[trigger] bounds[j], max_mz) by {
                    lemma_at_most_descends(bounds[j], bounds[mid as int], max_mz);
                }
                lo2 = mid + 1;
            } else {
                assert forall|j: int| mid <= j < nb implies !lies_at_most(#[trigger] bounds[j], max_mz) by {
                    if lies_at_most(bounds[j], max_mz) {
                        lemma_at_most_descends(bounds[mid as int], bounds[j], max_mz);
                    }
                }
                hi2 = mid;
            }
        }
        let end_bin = lo2;
        let begin = self.offsets[first_bin];
        let end = self.offsets[end_bin];
        proof {
            if begin < offsets[0] {
                let w = begin as int;
                assert(peaks[w].mz < bounds[0]);
                assert(!(peaks[w].mz < bounds[first_bin as int]));
                assert(bounds[0] <= bounds[first_bin as int]);
            }
            if offsets[nb as int] < end {
                let w = offsets[nb as int] as int;
                assert(peaks[w].mz < bounds[end_bin as int]);
                assert(!(peaks[w].mz < bounds[nb as int]));
                assert(bounds[end_bin as int] <= bounds[nb as int]);
            }
        }
        let ghost mut ks: Seq<int> = Seq::empty();
        let mut i: usize = begin;
        while i < end
            invariant
                self.wf(),
                peaks == self.peaks@,
                bounds == self.bounds@,
                offsets == self.offsets@,
                nb == bounds.len() - 1,
                first_bin <= nb,
                end_bin <= nb,
                forall|j: int| 0 <= j < first_bin ==> lies_at_most(#[trigger] bounds[j + 1], min_mz),
                forall|j: int| 0 <= j < end_bin ==> lies_at_most(#[trigger] bounds[j], max_mz),
                end_bin < nb ==> !lies_at_most(bounds[end_bin as int], max_mz),
                begin == offsets[first_bin as int],
                end == offsets[end_bin as int],
                offsets[0] <= begin,
                end <= offsets[nb as int],
                end <= peaks.len(),
                begin <= i,
                i <= end || begin > end,
                forall|q: int|
                    0 <= q < out@.len() ==> pooled_match(peaks, bounds, #[trigger] out@[q], min_mz, max_mz),
                out@ == peaks_at(peaks, ks),
                forall|a: int, c: int| 0 <= a < c < ks.len() ==> ks[a] < ks[c],
                forall|q: int|
                    0 <= q < ks.len() ==> begin <= #[trigger] ks[q] < i && ks[q] < peaks.len() && indexed(
                        bounds,
                        peaks[ks[q]].mz,
                    ) && in_window(peaks[ks[q]].mz, min_mz, max_mz),
                forall|k: int|
                    begin <= k < i && k < peaks.len() && in_window((#[trigger] peaks[k]).mz, min_mz, max_mz)
                        ==> ks.contains(k),
            decreases end - i,
        {
            let p = self.peaks[i];
            let ghost before = out@;
            let ghost ks0 = ks;
            if !below(p.mz, min_mz) && at_most(p.mz, max_mz) {
                proof {
                    assert(peaks[i as int] == p);
                    assert(!(p.mz < bounds[0]));
                    assert(p.mz < bounds[nb as int]);
                    ks = ks.push(i as int);
                }
                out.push(p);
                proof {
                    assert(out@ =~= peaks_at(peaks, ks));
                    assert(out@[before.len() as int] == p);
                    assert(pooled_match(peaks, bounds, p, min_mz, max_mz));
                    assert forall|q: int|
                        0 <= q < out@.len() implies pooled_match(peaks, bounds, #[trigger] out@[q], min_mz, max_mz) by {
                        if q < before.len() {
                            assert(out@[q] == before[q]);
                        } else {
                            assert(peaks[i as int] == out@[q]);
                        }
                    }
                    assert forall|q: int|
                        0 <= q < ks.len() implies begin <= #[trigger] ks[q] < i + 1 && ks[q] < peaks.len() && indexed(
                            bounds,
                            peaks[ks[q]].mz,
                        ) && in_window(peaks[ks[q]].mz, min_mz, max_mz) by {
                        if q < ks0.len() {
                            assert(ks[q] == ks0[q]);
                        }
                    }
                }
            }
            proof {
                assert forall|k: int|
                    begin <= k < i + 1 && k < peaks.len() && in_window((#[trigger] peaks[k]).mz, min_mz, max_mz)
                        implies ks.contains(k) by {
                    if k == i {
                        assert(ks[ks0.len() as int] == k);
                    } else {
                        let w = choose|w: int| 0 <= w < ks0.len() && ks0[w] == k;
                        assert(ks[w] == ks0[w]);
                    }
                }
            }
            i = i + 1;
        }
        proof {
            assert forall|k: int|
                0 <= k < peaks.len() && indexed(bounds, (#[trigger] peaks[k]).mz) && in_window(
                    peaks[k].mz,
                    min_mz,
                    max_mz,
                ) implies ks.contains(k) by {
                let m = peaks[k].mz;
                if k < begin {
                    if first_bin == 0 {
                        assert(m < bounds[0]);
                    } else {
                        assert(lies_at_most(bounds[(first_bin - 1) + 1], min_mz));
                        assert(m < bounds[first_bin as int]);
                        lemma_below_bound(m, bounds[first_bin as int], min_mz);
                    }
                } else if k >= end {
                    assert(!(m < bounds[end_bin as int]));
                    if end_bin < nb {
                        assert(!lies_at_most(bounds[end_bin as int], max_mz));
                        if lies_at_most(m, max_mz) {
                            lemma_at_most_descends(bounds[end_bin as int], m, max_mz);
                        }
                    } else {
                        assert(m >= bounds[nb as int]);
                    }
                }
            }
            assert(lists_positions(peaks, bounds, min_mz, max_mz, ks));
            assert(out@ == peaks_at(self.spec_peaks(), ks));
            assert forall|k: int|
                0 <= k < peaks.len() && indexed(bounds, (#[trigger] peaks[k]).mz) && in_window(
                    peaks[k].mz,
                    min_mz,
                    max_mz,
                ) implies out@.contains(peaks[k]) by {
                let w = choose|w: int| 0 <= w < ks.len() && ks[w] == k;
                assert(out@[w] == peaks[k]);
            }
            assert forall|a: int, c: int| 0 <= a < c < out@.len() implies out@[a].mz <= out@[c].mz by {
                assert(ks[a] < ks[c]);
                assert(out@[a] == peaks[ks[a]] && out@[c] == peaks[ks[c]]);
            }
        }
        out
    }
}

/// Every spectrum and every peak position can be named by a handle, as for
/// spectra held in vectors.
pub open spec fn fits_handles(spectra: Seq<Spectrum>) -> bool {
    spectra.len() <= usize::MAX && forall|i: int|
        0 <= i < spectra.len() ==> (#[trigger] spectra[i]).spec_peaks().len() <= usize::MAX
}

/// A peak occurs among the pooled peaks exactly when some handle names it.
proof fn lemma_pooled_contains(spectra: Seq<Spectrum>, p: Peak)
    requires
        fits_handles(spectra),
    ensures
        all_peaks(spectra).contains(p) <==> exists|h: PeakHandle|
            valid_handle(spectra, h) && #[trigger] peak_at(spectra, h) == p,
    decreases spectra.len(),
{
    if spectra.len() > 0 {
        let init = spectra.drop_last();
        let last = spectra.last().spec_peaks();
        assert forall|i: int| 0 <= i < init.len() implies (#[trigger] init[i]).spec_peaks().len() <= usize::MAX by {
            assert(init[i] == spectra[i]);
        }
        lemma_pooled_contains(init, p);
        let pooled = all_peaks(spectra);
        assert(last.len() <= usize::MAX);
        assert(pooled == all_peaks(init) + last);
        if pooled.contains(p) {
            let w = choose|w: int| 0 <= w < pooled.len() && pooled[w] == p;
            if w < all_peaks(init).len() {
                assert(all_peaks(init)[w] == p);
                let h = choose|h: PeakHandle| valid_handle(init, h) && #[trigger] peak_at(init, h) == p;
                assert(spectra[h.spectrum as int] == init[h.spectrum as int]);
                assert(peak_at(spectra, h) == p);
            } else {
                let h = PeakHandle { spectrum: (spectra.len() - 1) as usize, peak: (w - all_peaks(init).len()) as usize };
                assert(peak_at(spectra, h) == last[w - all_peaks(init).len()]);
            }
        }
        if exists|h: PeakHandle| valid_handle(spectra, h) && #[trigger] peak_at(spectra, h) == p {
            let h = choose|h: PeakHandle| valid_handle(spectra, h) && #[trigger] peak_at(spectra, h) == p;
            if h.spectrum < spectra.len() - 1 {
                assert(spectra[h.spectrum as int] == init[h.spectrum as int]);
                assert(valid_handle(init, h) && peak_at(init, h) == p);
                let w = choose|w: int| 0 <= w < all_peaks(init).len() && all_peaks(init)[w] == p;
                assert(pooled[w] == p);
            } else {
                let w = all_peaks(init).len() + h.peak;
                assert(pooled[w] == last[h.peak as int]);
            }
        }
    }
}

/// The two index variants, built over the same spectra with the same
/// bounds, find the same peaks for any window. This compares which peaks are
/// found, not how often each occurs.
pub proof fn lemma_variants_find_same_peaks(
    spectra: Seq<Spectrum>,
    bounds: Seq<u64>,
    pooled: Seq<Peak>,
    lo: u64,
    hi: u64,
    hs: Seq<PeakHandle>,
    ks: Seq<int>,
    p: Peak,
)
    requires
        fits_handles(spectra),
        pooled.to_multiset() == all_peaks(spectra).to_multiset(),
        lists_window(spectra, bounds, lo, hi, hs),
        lists_positions(pooled, bounds, lo, hi, ks),
    ensures
        peaks_of(spectra, hs).contains(p) <==> peaks_at(pooled, ks).contains(p),
{
    lemma_pooled_contains(spectra, p);
    to_multiset_contains(pooled, p);
    to_multiset_contains(all_peaks(spectra), p);
    let a = peaks_of(spectra, hs);
    let b = peaks_at(pooled, ks);
    if a.contains(p) {
        let w = choose|w: int| 0 <= w < a.len() && a[w] == p;
        assert(crate::index::qualifies(spectra, bounds, hs[w], lo, hi));
        assert(peak_at(spectra, hs[w]) == p);
        assert(all_peaks(spectra).contains(p));
        assert(pooled.contains(p));
        let k = choose|k: int| 0 <= k < pooled.len() && pooled[k] == p;
        assert(ks.contains(k));
        let q = choose|q: int| 0 <= q < ks.len() && ks[q] == k;
        assert(b[q] == p);
    }
    if b.contains(p) {
        let q = choose|q: int| 0 <= q < b.len() && b[q] == p;
        assert(0 <= ks[q] < pooled.len());
        assert(pooled[ks[q]] == p);
        assert(pooled.contains(p));
        assert(all_peaks(spectra).contains(p));
        let h = choose|h: PeakHandle| valid_handle(spectra, h) && #[trigger] peak_at(spectra, h) == p;
        assert(crate::index::qualifies(spectra, bounds, h, lo, hi));
        assert(hs.contains(h));
        let w = choose|w: int| 0 <= w < hs.len() && hs[w] == h;
        assert(a[w] == p);
    }
}

/// Searcher for vectorised range scans; it carries no state.
pub struct SIMDSearcher {}

impl SIMDSearcher {
    pub fn new() -> (r: SIMDSearcher) {
        SIMDSearcher {}
    }
}

} // verus!
