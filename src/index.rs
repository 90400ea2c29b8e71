//! A bucketed index over the peaks of many spectra, for m/z range queries.
//!
//! The index owns its spectra and never changes them. Bins are contiguous
//! half-open m/z intervals `[bounds[j], bounds[j + 1])`, given as binary64
//! bit patterns of finite non-negative values; each bin lists handles of the
//! peaks that fall in it. A peak at or above the last bound is not indexed.
use vstd::prelude::*;
use crate::spectrum::{
    at_most, in_window, is_measure, lies_at_most, lies_below, Peak, Spectrum,
};

verus! {

/// Where a peak lives: its spectrum and its position there.
#[derive(Debug, Clone, Copy, PartialEq, Eq, Structural)]
pub struct PeakHandle {
    pub spectrum: usize,
    pub peak: usize,
}

/// The handle names a peak of the spectra.
pub open spec fn valid_handle(spectra: Seq<Spectrum>, h: PeakHandle) -> bool {
    h.spectrum < spectra.len() && h.peak < spectra[h.spectrum as int].spec_peaks().len()
}

/// The peak a valid handle names.
pub open spec fn peak_at(spectra: Seq<Spectrum>, h: PeakHandle) -> Peak {
    spectra[h.spectrum as int].spec_peaks()[h.peak as int]
}

/// Bounds strictly ascend and are finite and non-negative.
pub open spec fn bounds_ok(bounds: Seq<u64>) -> bool {
    &&& forall|i: int, j: int| 0 <= i < j < bounds.len() ==> bounds[i] < bounds[j]
    &&& forall|i: int| 0 <= i < bounds.len() ==> is_measure(#[trigger] bounds[i])
}

/// Number of bins that the bounds delimit.
pub open spec fn bin_total(bounds: Seq<u64>) -> nat {
    if bounds.len() == 0 {
        0
    } else {
        (bounds.len() - 1) as nat
    }
}

/// `m` falls in bin `j`.
pub open spec fn in_bin(bounds: Seq<u64>, j: int, m: u64) -> bool {
    0 <= j && j + 1 < bounds.len() && bounds[j] <= m < bounds[j + 1]
}

/// `m` falls in some bin.
pub open spec fn indexed(bounds: Seq<u64>, m: u64) -> bool {
    bounds.len() >= 2 && bounds[0] <= m < bounds.last()
}

/// `p` is an indexed peak of the spectra with `lo <= p.mz <= hi`.
pub open spec fn found_peak(spectra: Seq<Spectrum>, bounds: Seq<u64>, p: Peak, lo: u64, hi: u64) -> bool {
    exists|h: PeakHandle|
        valid_handle(spectra, h) && indexed(bounds, peak_at(spectra, h).mz) && p == #[trigger] peak_at(
            spectra,
            h,
        ) && in_window(p.mz, lo, hi)
}

/// The handle names an indexed peak with `lo <= mz <= hi`.
pub open spec fn qualifies(spectra: Seq<Spectrum>, bounds: Seq<u64>, h: PeakHandle, lo: u64, hi: u64) -> bool {
    valid_handle(spectra, h) && indexed(bounds, peak_at(spectra, h).mz) && in_window(
        peak_at(spectra, h).mz,
        lo,
        hi,
    )
}

/// `hs` lists every qualifying handle exactly once, and nothing else.
pub open spec fn lists_window(
    spectra: Seq<Spectrum>,
    bounds: Seq<u64>,
    lo: u64,
    hi: u64,
    hs: Seq<PeakHandle>,
) -> bool {
    &&& hs.no_duplicates()
    &&& forall|i: int| 0 <= i < hs.len() ==> qualifies(spectra, bounds, #[trigger] hs[i], lo, hi)
    &&& forall|h: PeakHandle| qualifies(spectra, bounds, h, lo, hi) ==> #[trigger] hs.contains(h)
}

/// The peaks that the handles name, in order.
pub open spec fn peaks_of(spectra: Seq<Spectrum>, hs: Seq<PeakHandle>) -> Seq<Peak> {
    Seq::new(hs.len(), |i: int| peak_at(spectra, hs[i]))
}

/// A value falls in at most one bin.
proof fn lemma_one_bin(bounds: Seq<u64>, j1: int, j2: int, m: u64)
    requires
        bounds_ok(bounds),
        in_bin(bounds, j1, m),
        in_bin(bounds, j2, m),
    ensures
        j1 == j2,
{
    if j1 < j2 {
        assert(bounds[j1 + 1] <= bounds[j2]);
    } else if j2 < j1 {
        assert(bounds[j2 + 1] <= bounds[j1]);
    }
}

/// Number of peaks over all spectra.
pub open spec fn total_peaks(spectra: Seq<Spectrum>) -> nat
    decreases spectra.len(),
{
    if spectra.len() == 0 {
        0
    } else {
        total_peaks(spectra.drop_last()) + spectra.last().spec_peaks().len()
    }
}

pub(crate) proof fn lemma_at_most_descends(a: u64, b: u64, q: u64)
    requires
        a <= b,
        lies_at_most(b, q),
    ensures
        lies_at_most(a, q),
{
}

pub(crate) proof fn lemma_below_bound(m: u64, b: u64, q: u64)
    requires
        m < b,
        lies_at_most(b, q),
    ensures
        lies_below(m, q),
{
}

/// Index of the bin holding `m`.
fn bin_holding(bounds: &Vec<u64>, m: u64) -> (r: usize)
    requires
        bounds_ok(bounds@),
        indexed(bounds@, m),
    ensures
        in_bin(bounds@, r as int, m),
{
    // bounds[lo] <= m < bounds[hi]
    let mut lo: usize = 0;
    let mut hi: usize = bounds.len() - 1;
    while hi - lo > 1
        invariant
            bounds_ok(bounds@),
            lo < hi < bounds@.len(),
            bounds@[lo as int] <= m < bounds@[hi as int],
        decreases hi - lo,
    {
        let mid = lo + (hi - lo) / 2;
        if bounds[mid] <= m {
            lo = mid;
        } else {
            hi = mid;
        }
    }
    lo
}

/// An index over spectra, built once and read-only afterwards.
pub struct BinnedSpectraIndex {
    spectra: Vec<Spectrum>,
    bounds: Vec<u64>,
    bins: Vec<Vec<PeakHandle>>,
}

impl BinnedSpectraIndex {
    pub closed spec fn spec_spectra(&self) -> Seq<Spectrum> {
        self.spectra@
    }

    pub closed spec fn spec_bounds(&self) -> Seq<u64> {
        self.bounds@
    }

    pub closed spec fn spec_bins(&self) -> Seq<Seq<PeakHandle>> {
        Seq::new(self.bins@.len(), |j: int| self.bins@[j]@)
    }

    /// Bins match the bounds; every handle in bin `j` names a peak that falls
    /// in bin `j`; every peak that falls in a bin is listed there.
    pub open spec fn wf(&self) -> bool {
        let spectra = self.spec_spectra();
        let bounds = self.spec_bounds();
        let bins = self.spec_bins();
        &&& bounds_ok(bounds)
        &&& bins.len() == bin_total(bounds)
        &&& forall|j: int, k: int|
            0 <= j < bins.len() && 0 <= k < bins[j].len() ==> valid_handle(spectra, #[trigger] bins[j][k])
                && in_bin(bounds, j, peak_at(spectra, bins[j][k]).mz)
        &&& forall|h: PeakHandle|
            valid_handle(spectra, h) && indexed(bounds, #[trigger] peak_at(spectra, h).mz) ==> exists|
                j: int,
                k: int,
            | 0 <= j < bins.len() && 0 <= k < bins[j].len() && #[trigger] bins[j][k] == h
        &&& forall|j: int, k1: int, k2: int|
            0 <= j < bins.len() && 0 <= k1 < k2 < bins[j].len() ==> #[trigger] bins[j][k1]
                != #[trigger] bins[j][k2]
    }

    /// An index over no spectra.
    pub fn empty() -> (r: BinnedSpectraIndex)
        ensures
            r.wf(),
            r.spec_spectra().len() == 0,
            r.spec_bins().len() == 0,
    {
        let r = BinnedSpectraIndex { spectra: Vec::new(), bounds: Vec::new(), bins: Vec::new() };
        assert(r.spec_bins() =~= Seq::<Seq<PeakHandle>>::empty());
        r
    }

    /// Indexes `spectra` into the bins that `bounds` delimit: bin `j` covers
    /// `[bounds[j], bounds[j + 1])`. The bounds must ascend strictly and be
    /// finite and non-negative.
    pub fn from_bounds(spectra: Vec<Spectrum>, bounds: Vec<u64>) -> (r: BinnedSpectraIndex)
        requires
            bounds_ok(bounds@),
        ensures
            r.wf(),
            r.spec_spectra() == spectra@,
            r.spec_bounds() == bounds@,
    {
        let nbins: usize = if bounds.len() == 0 { 0 } else { bounds.len() - 1 };
        let mut bins: Vec<Vec<PeakHandle>> = Vec::new();
        let mut j: usize = 0;
        while j < nbins
            invariant
                j <= nbins,
                bins@.len() == j,
                forall|i: int| 0 <= i < j ==> (#[trigger] bins@[i])@.len() == 0,
            decreases nbins - j,
        {
            bins.push(Vec::new());
            j = j + 1;
        }
        let mut s: usize = 0;
        while s < spectra.len()
            invariant
                bounds_ok(bounds@),
                nbins == bin_total(bounds@),
                bins@.len() == nbins,
                s <= spectra@.len(),
                forall|j: int, k: int|
                    0 <= j < bins@.len() && 0 <= k < bins@[j]@.len() ==> valid_handle(
                        spectra@,
                        #[trigger] bins@[j]@[k],
                    ) && in_bin(bounds@, j, peak_at(spectra@, bins@[j]@[k]).mz),
                forall|h: PeakHandle|
                    valid_handle(spectra@, h) && h.spectrum < s && indexed(
                        bounds@,
                        #[trigger] peak_at(spectra@, h).mz,
                    ) ==> exists|j: int, k: int|
                        0 <= j < bins@.len() && 0 <= k < bins@[j]@.len() && #[trigger] bins@[j]@[k] == h,
                forall|j: int, k: int|
                    0 <= j < bins@.len() && 0 <= k < bins@[j]@.len() ==> (#[trigger] bins@[j]@[k]).spectrum < s,
                forall|j: int, k1: int, k2: int|
                    0 <= j < bins@.len() && 0 <= k1 < k2 < bins@[j]@.len() ==> #[trigger] bins@[j]@[k1]
                        != #[trigger] bins@[j]@[k2],
            decreases spectra@.len() - s,
        {
            let peaks = spectra[s].peaks();
            let mut p: usize = 0;
            while p < peaks.len()
                invariant
                    bounds_ok(bounds@),
                    nbins == bin_total(bounds@),
                    bins@.len() == nbins,
                    s < spectra@.len(),
                    peaks@ == spectra@[s as int].spec_peaks(),
                    p <= peaks@.len(),
                    forall|j: int, k: int|
                        0 <= j < bins@.len() && 0 <= k < bins@[j]@.len() ==> valid_handle(
                            spectra@,
                            #[trigger] bins@[j]@[k],
                        ) && in_bin(bounds@, j, peak_at(spectra@, bins@[j]@[k]).mz),
                    forall|h: PeakHandle|
                        valid_handle(spectra@, h) && (h.spectrum < s || (h.spectrum == s && h.peak < p))
                            && indexed(bounds@, #[trigger] peak_at(spectra@, h).mz) ==> exists|
                            j: int,
                            k: int,
                        | 0 <= j < bins@.len() && 0 <= k < bins@[j]@.len() && #[trigger] bins@[j]@[k] == h,
                    forall|j: int, k: int|
                        0 <= j < bins@.len() && 0 <= k < bins@[j]@.len() ==> (#[trigger] bins@[j]@[k]).spectrum < s
                            || (bins@[j]@[k].spectrum == s && bins@[j]@[k].peak < p),
                    forall|j: int, k1: int, k2: int|
                        0 <= j < bins@.len() && 0 <= k1 < k2 < bins@[j]@.len() ==> #[trigger] bins@[j]@[k1]
                            != #[trigger] bins@[j]@[k2],
                decreases peaks@.len() - p,
            {
                let m = peaks[p].mz;
                let h = PeakHandle { spectrum: s, peak: p };
                if bounds.len() >= 2 && bounds[0] <= m && m < bounds[bounds.len() - 1] {
                    let b = bin_holding(&bounds, m);
                    let ghost old_bins = bins@;
                    let mut bucket = Vec::new();
                    std::mem::swap(&mut bucket, &mut bins[b]);
                    bucket.push(h);
                    std::mem::swap(&mut bucket, &mut bins[b]);
                    proof {
                        assert(peak_at(spectra@, h) == peaks@[p as int]);
                        assert forall|j: int, k: int|
                            0 <= j < bins@.len() && 0 <= k < bins@[j]@.len() implies valid_handle(
                                spectra@,
                                #[trigger] bins@[j]@[k],
                            ) && in_bin(bounds@, j, peak_at(spectra@, bins@[j]@[k]).mz) by {
                            if j != b || k < old_bins[j]@.len() {
                                assert(bins@[j]@[k] == old_bins[j]@[k]);
                            }
                        }
                        assert forall|j: int, k: int|
                            0 <= j < bins@.len() && 0 <= k < bins@[j]@.len() implies (#[trigger] bins@[j]@[k]).spectrum
                                < s || (bins@[j]@[k].spectrum == s && bins@[j]@[k].peak < p + 1) by {
                            if j != b || k < old_bins[j]@.len() {
                                assert(bins@[j]@[k] == old_bins[j]@[k]);
                            }
                        }
                        assert forall|j: int, k1: int, k2: int|
                            0 <= j < bins@.len() && 0 <= k1 < k2 < bins@[j]@.len() implies #[trigger] bins@[j]@[k1]
                                != #[trigger] bins@[j]@[k2] by {
                            if j != b || k2 < old_bins[j]@.len() {
                                assert(bins@[j]@[k1] == old_bins[j]@[k1]);
                                assert(bins@[j]@[k2] == old_bins[j]@[k2]);
                            } else {
                                assert(bins@[j]@[k1] == old_bins[j]@[k1]);
                                assert(bins@[j]@[k2] == h);
                            }
                        }
                        assert forall|g: PeakHandle|
                            valid_handle(spectra@, g) && (g.spectrum < s || (g.spectrum == s && g.peak < p
                                + 1)) && indexed(bounds@, #[trigger] peak_at(spectra@, g).mz) implies exists|
                            j: int,
                            k: int,
                        | 0 <= j < bins@.len() && 0 <= k < bins@[j]@.len() && #[trigger] bins@[j]@[k] == g by {
                            if g == h {
                                assert(bins@[b as int]@[old_bins[b as int]@.len() as int] == h);
                            } else {
                                let (j, k) = choose|j: int, k: int|
                                    0 <= j < old_bins.len() && 0 <= k < old_bins[j]@.len()
                                        && #[trigger] old_bins[j]@[k] == g;
                                assert(bins@[j]@[k] == g);
                            }
                        }
                    }
                } else {
                    proof {
                        assert(peak_at(spectra@, h) == peaks@[p as int]);
                        assert(!indexed(bounds@, peak_at(spectra@, h).mz));
                    }
                }
                p = p + 1;
            }
            s = s + 1;
        }
        let r = BinnedSpectraIndex { spectra, bounds, bins };
        proof {
            let sb = r.spec_bins();
            assert forall|j: int, k: int|
                0 <= j < sb.len() && 0 <= k < sb[j].len() implies valid_handle(r.spec_spectra(), #[trigger] sb[j][k])
                    && in_bin(r.spec_bounds(), j, peak_at(r.spec_spectra(), sb[j][k]).mz) by {
                assert(sb[j][k] == r.bins@[j]@[k]);
            }
            assert forall|j: int, k1: int, k2: int|
                0 <= j < sb.len() && 0 <= k1 < k2 < sb[j].len() implies #[trigger] sb[j][k1] != #[trigger] sb[j][k2] by {
                assert(sb[j][k1] == r.bins@[j]@[k1]);
                assert(sb[j][k2] == r.bins@[j]@[k2]);
            }
            assert forall|h: PeakHandle|
                valid_handle(r.spec_spectra(), h) && indexed(r.spec_bounds(), #[trigger] peak_at(r.spec_spectra(), h).mz) implies exists|
                j: int,
                k: int,
            | 0 <= j < sb.len() && 0 <= k < sb[j].len() && #[trigger] sb[j][k] == h by {
                let (j, k) = choose|j: int, k: int|
                    0 <= j < r.bins@.len() && 0 <= k < r.bins@[j]@.len() && #[trigger] r.bins@[j]@[k] == h;
                assert(sb[j][k] == h);
            }
        }
        r
    }

    pub fn bin_count(&self) -> (r: usize)
        requires
            self.wf(),
        ensures
            r == self.spec_bins().len(),
    {
        self.bins.len()
    }

    pub fn spectrum_count(&self) -> (r: usize)
        ensures
            r == self.spec_spectra().len(),
    {
        self.spectra.len()
    }

    /// Number of peaks over all spectra, capped at the largest `usize`.
    pub fn total_peak_count(&self) -> (r: usize)
        ensures
            r == (if total_peaks(self.spec_spectra()) <= usize::MAX {
                total_peaks(self.spec_spectra())
            } else {
                usize::MAX as nat
            }),
    {
        let mut total: usize = 0;
        let mut capped = false;
        let mut i: usize = 0;
        while i < self.spectra.len()
            invariant
                i <= self.spectra@.len(),
                !capped ==> total == total_peaks(self.spectra@.take(i as int)),
                capped ==> total == usize::MAX && total_peaks(self.spectra@.take(i as int)) > usize::MAX,
            decreases self.spectra@.len() - i,
        {
            let n = self.spectra[i].peak_count();
            assert(self.spectra@.take(i + 1).drop_last() =~= self.spectra@.take(i as int));
            if !capped {
                if total > usize::MAX - n {
                    total = usize::MAX;
                    capped = true;
                } else {
                    total = total + n;
                }
            }
            i = i + 1;
        }
        assert(self.spectra@.take(i as int) =~= self.spectra@);
        total
    }

    /// Every indexed peak with `min_mz <= mz <= max_mz`, each once, in bin
    /// order (not sorted by m/z). The bins searched are those that meet the
    /// window; a reversed or empty window finds nothing.
    pub fn search_range(&self, min_mz: u64, max_mz: u64) -> (r: Vec<Peak>)
        requires
            self.wf(),
        ensures
            exists|hs: Seq<PeakHandle>|
                lists_window(self.spec_spectra(), self.spec_bounds(), min_mz, max_mz, hs) && r@
                    == #[trigger] peaks_of(self.spec_spectra(), hs),
            forall|i: int|
                0 <= i < r@.len() ==> found_peak(
                    self.spec_spectra(),
                    self.spec_bounds(),
                    #[trigger] r@[i],
                    min_mz,
                    max_mz,
                ),
            forall|h: PeakHandle|
                valid_handle(self.spec_spectra(), h) && indexed(
                    self.spec_bounds(),
                    #[trigger] peak_at(self.spec_spectra(), h).mz,
                ) && in_window(peak_at(self.spec_spectra(), h).mz, min_mz, max_mz) ==> r@.contains(
                    peak_at(self.spec_spectra(), h),
                ),
    {
        let ghost spectra = self.spectra@;
        let ghost bounds = self.bounds@;
        let ghost sbins = self.spec_bins();
        let mut out: Vec<Peak> = Vec::new();
        let nb = self.bins.len();
        assert(nb == sbins.len());
        if nb == 0 {
            proof {
                assert forall|h: PeakHandle|
                    valid_handle(spectra, h) && indexed(bounds, #[trigger] peak_at(spectra, h).mz)
                        implies false by {
                    let (j, k) = choose|j: int, k: int|
                        0 <= j < sbins.len() && 0 <= k < sbins[j].len() && #[trigger] sbins[j][k] == h;
                }
                let e = Seq::<PeakHandle>::empty();
                assert forall|h: PeakHandle| qualifies(spectra, bounds, h, min_mz, max_mz) implies #[trigger] e.contains(
                    h,
                ) by {
                    let (j, k) = choose|j: int, k: int|
                        0 <= j < sbins.len() && 0 <= k < sbins[j].len() && #[trigger] sbins[j][k] == h;
                }
                assert(lists_window(spectra, bounds, min_mz, max_mz, e));
                assert(out@ =~= peaks_of(self.spec_spectra(), e));
            }
            return out;
        }
        // first bin whose upper bound lies above min_mz
        let mut lo: usize = 0;
        let mut hi: usize = nb;
        while lo < hi
            invariant
                nb == bounds.len() - 1,
                bounds == self.bounds@,
                bounds_ok(bounds),
                lo <= hi <= nb,
                forall|j: int| 0 <= j < lo ==> lies_at_most(#[trigger] bounds[j + 1], min_mz),
                forall|j: int| hi <= j < nb ==> !lies_at_most(#[trigger] bounds[j + 1], min_mz),
            decreases hi - lo,
        {
            let mid = lo + (hi - lo) / 2;
            if at_most(self.bounds[mid + 1], min_mz) {
                assert forall|j: int| 0 <= j <= mid implies lies_at_most(#[trigger] bounds[j + 1], min_mz) by {
                    lemma_at_most_descends(bounds[j + 1], bounds[mid + 1], min_mz);
                }
                lo = mid + 1;
            } else {
                assert forall|j: int| mid <= j < nb implies !lies_at_most(#[trigger] bounds[j + 1], min_mz) by {
                    if lies_at_most(bounds[j + 1], min_mz) {
                        lemma_at_most_descends(bounds[mid + 1], bounds[j + 1], min_mz);
                    }
                }
                hi = mid;
            }
        }
        let start = lo;
        let ghost mut hs: Seq<PeakHandle> = Seq::empty();
        let ghost mut pos: Seq<(int, int)> = Seq::empty();
        let mut j: usize = start;
        while j < nb && at_most(self.bounds[j], max_mz)
            invariant
                nb == bounds.len() - 1,
                nb == sbins.len(),
                bounds == self.bounds@,
                spectra == self.spectra@,
                sbins == self.spec_bins(),
                self.wf(),
                start <= j <= nb,
                forall|i: int| 0 <= i < start ==> lies_at_most(#[trigger] bounds[i + 1], min_mz),
                out@ == peaks_of(spectra, hs),
                hs.len() == pos.len(),
                hs.no_duplicates(),
                forall|q: int|
                    0 <= q < hs.len() ==> start <= (#[trigger] pos[q]).0 < j && 0 <= pos[q].1 < sbins[pos[q].0].len()
                        && hs[q] == sbins[pos[q].0][pos[q].1] && qualifies(
                        spectra,
                        bounds,
                        hs[q],
                        min_mz,
                        max_mz,
                    ),
                forall|jb: int, k: int|
                    start <= jb < j && 0 <= k < sbins[jb].len() && qualifies(
                        spectra,
                        bounds,
                        #[trigger] sbins[jb][k],
                        min_mz,
                        max_mz,
                    ) ==> hs.contains(sbins[jb][k]),
            decreases nb - j,
        {
            let bin = &self.bins[j];
            assert(bin@ == sbins[j as int]);
            let mut k: usize = 0;
            while k < bin.len()
                invariant
                    nb == bounds.len() - 1,
                    nb == sbins.len(),
                    bounds == self.bounds@,
                    spectra == self.spectra@,
                    sbins == self.spec_bins(),
                    self.wf(),
                    start <= j < nb,
                    bin@ == sbins[j as int],
                    k <= bin@.len(),
                    out@ == peaks_of(spectra, hs),
                    hs.len() == pos.len(),
                    hs.no_duplicates(),
                    forall|q: int|
                        0 <= q < hs.len() ==> start <= (#[trigger] pos[q]).0 && (pos[q].0 < j || (pos[q].0 == j
                            && pos[q].1 < k)) && 0 <= pos[q].1 < sbins[pos[q].0].len() && hs[q]
                            == sbins[pos[q].0][pos[q].1] && qualifies(spectra, bounds, hs[q], min_mz, max_mz),
                    forall|jb: int, kk: int|
                        ((start <= jb < j && 0 <= kk < sbins[jb].len()) || (jb == j && 0 <= kk < k)) && qualifies(
                            spectra,
                            bounds,
                            #[trigger] sbins[jb][kk],
                            min_mz,
                            max_mz,
                        ) ==> hs.contains(sbins[jb][kk]),
                decreases bin@.len() - k,
            {
                let h = bin[k];
                assert(h == sbins[j as int][k as int]);
                assert(valid_handle(spectra, h));
                assert(in_bin(bounds, j as int, peak_at(spectra, h).mz));
                let peak = self.spectra[h.spectrum].peaks()[h.peak];
                assert(peak == peak_at(spectra, h));
                let ghost hs0 = hs;
                if crate::spectrum::below(peak.mz, min_mz) == false && at_most(peak.mz, max_mz) {
                    proof {
                        assert(qualifies(spectra, bounds, h, min_mz, max_mz));
                        assert forall|q: int| 0 <= q < hs0.len() implies hs0[q] != h by {
                            let (pj, pk) = pos[q];
                            if hs0[q] == h {
                                if pj < j {
                                    assert(in_bin(bounds, pj, peak_at(spectra, sbins[pj][pk]).mz));
                                    lemma_one_bin(bounds, pj, j as int, peak.mz);
                                } else {
                                    assert(sbins[j as int][pk] != sbins[j as int][k as int]);
                                }
                            }
                        }
                        hs = hs.push(h);
                        pos = pos.push((j as int, k as int));
                        assert(hs.no_duplicates()) by {
                            assert forall|a: int, c: int| 0 <= a < hs.len() && 0 <= c < hs.len() && a != c implies hs[a]
                                != hs[c] by {
                                if a < hs0.len() && c < hs0.len() {
                                    assert(hs[a] == hs0[a] && hs[c] == hs0[c]);
                                } else if a < hs0.len() {
                                    assert(hs[a] == hs0[a]);
                                } else if c < hs0.len() {
                                    assert(hs[c] == hs0[c]);
                                }
                            }
                        }
                    }
                    out.push(peak);
                    proof {
                        assert(out@ =~= peaks_of(spectra, hs));
                        assert(hs[hs0.len() as int] == h);
                        assert forall|q: int| 0 <= q < hs.len() implies start <= (#[trigger] pos[q]).0 && (pos[q].0
                            < j || (pos[q].0 == j && pos[q].1 < k + 1)) && 0 <= pos[q].1 < sbins[pos[q].0].len()
                            && hs[q] == sbins[pos[q].0][pos[q].1] && qualifies(
                            spectra,
                            bounds,
                            hs[q],
                            min_mz,
                            max_mz,
                        ) by {
                            if q < hs0.len() {
                                assert(hs[q] == hs0[q]);
                            }
                        }
                        assert forall|jb: int, kk: int|
                            ((start <= jb < j && 0 <= kk < sbins[jb].len()) || (jb == j && 0 <= kk < k + 1))
                                && qualifies(
                                spectra,
                                bounds,
                                #[trigger] sbins[jb][kk],
                                min_mz,
                                max_mz,
                            ) implies hs.contains(sbins[jb][kk]) by {
                            if jb == j && kk == k {
                                assert(hs[hs0.len() as int] == sbins[jb][kk]);
                            } else {
                                let w = choose|w: int| 0 <= w < hs0.len() && hs0[w] == sbins[jb][kk];
                                assert(hs[w] == hs0[w]);
                            }
                        }
                    }
                } else {
                    proof {
                        assert(!qualifies(spectra, bounds, h, min_mz, max_mz));
                    }
                }
                k = k + 1;
            }
            j = j + 1;
        }
        proof {
            assert forall|h: PeakHandle| qualifies(spectra, bounds, h, min_mz, max_mz) implies #[trigger] hs.contains(
                h,
            ) by {
                let (jb, k) = choose|jb: int, k: int|
                    0 <= jb < sbins.len() && 0 <= k < sbins[jb].len() && #[trigger] sbins[jb][k] == h;
                let m = peak_at(spectra, h).mz;
                assert(valid_handle(self.spec_spectra(), sbins[jb][k]) && in_bin(
                    self.spec_bounds(),
                    jb,
                    peak_at(self.spec_spectra(), sbins[jb][k]).mz,
                ));
                assert(in_bin(bounds, jb, m));
                if jb < start {
                    assert(lies_at_most(bounds[jb + 1], min_mz));
                    lemma_below_bound(m, bounds[jb + 1], min_mz);
                } else if jb >= j {
                    assert(j < nb);
                    assert(!lies_at_most(bounds[j as int], max_mz));
                    assert(bounds[j as int] <= bounds[jb]);
                    if lies_at_most(m, max_mz) {
                        lemma_at_most_descends(bounds[j as int], m, max_mz);
                    }
                }
            }
            assert forall|i: int| 0 <= i < hs.len() implies qualifies(spectra, bounds, #[trigger] hs[i], min_mz, max_mz) by {
                assert(start <= pos[i].0);
            }
            assert(lists_window(spectra, bounds, min_mz, max_mz, hs));
            assert(out@ == peaks_of(self.spec_spectra(), hs));
            assert forall|i: int| 0 <= i < out@.len() implies found_peak(spectra, bounds, #[trigger] out@[i], min_mz, max_mz) by {
                assert(qualifies(spectra, bounds, hs[i], min_mz, max_mz));
                assert(out@[i] == peak_at(spectra, hs[i]));
            }
            assert forall|h: PeakHandle|
                valid_handle(spectra, h) && indexed(bounds, #[trigger] peak_at(spectra, h).mz)
                    && in_window(peak_at(spectra, h).mz, min_mz, max_mz) implies out@.contains(peak_at(spectra, h)) by {
                assert(qualifies(spectra, bounds, h, min_mz, max_mz));
                assert(hs.contains(h));
                let w = choose|w: int| 0 <= w < hs.len() && hs[w] == h;
                assert(out@[w] == peak_at(spectra, h));
            }
        }
        out
    }

    /// The spectra the index was built from.
    pub fn spectra(&self) -> (r: &Vec<Spectrum>)
        ensures
            r@ == self.spec_spectra(),
    {
        &self.spectra
    }
}

} // verus!
