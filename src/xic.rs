//! Selection of the data points of extracted ion chromatograms.
//!
//! The extractor keeps the loaded spectra split by acquisition level. For an
//! m/z window and a retention-time window it selects, scan by scan, the
//! intensities of the matching peaks; summing them into a trace is left to
//! the caller's arithmetic.
use vstd::prelude::*;
use crate::error::CoreError;
use crate::spectrum::{at_most, below, in_window, Peak, Spectrum};

verus! {

/// Intensities of the peaks with m/z in `[lo, hi]`, in peak order.
pub open spec fn matching_intensities(peaks: Seq<Peak>, lo: u64, hi: u64) -> Seq<u64>
    decreases peaks.len(),
{
    if peaks.len() == 0 {
        Seq::empty()
    } else {
        let rest = matching_intensities(peaks.drop_last(), lo, hi);
        if in_window(peaks.last().mz, lo, hi) {
            rest.push(peaks.last().intensity)
        } else {
            rest
        }
    }
}

/// The spectra of acquisition level `level`, in order.
pub open spec fn of_level(spectra: Seq<Spectrum>, level: u8) -> Seq<Spectrum>
    decreases spectra.len(),
{
    if spectra.len() == 0 {
        Seq::empty()
    } else {
        let rest = of_level(spectra.drop_last(), level);
        if spectra.last().spec_level() == level {
            rest.push(spectra.last())
        } else {
            rest
        }
    }
}

/// One point of a trace: a scan's retention time and the intensities of its
/// matching peaks.
pub struct XicPoint {
    /// Retention time, as a binary64 bit pattern.
    pub rt: u64,
    /// Intensities of the matching peaks, as binary64 bit patterns.
    pub intensities: Vec<u64>,
}

/// The points of a trace: every scan with retention time in `[rt_lo, rt_hi]`
/// that has at least one peak with m/z in `[lo, hi]`, in scan order. Scans
/// without a match are left out, not recorded as zero.
pub open spec fn trace_points(spectra: Seq<Spectrum>, lo: u64, hi: u64, rt_lo: u64, rt_hi: u64) -> Seq<
    (u64, Seq<u64>),
>
    decreases spectra.len(),
{
    if spectra.len() == 0 {
        Seq::empty()
    } else {
        let rest = trace_points(spectra.drop_last(), lo, hi, rt_lo, rt_hi);
        let s = spectra.last();
        let m = matching_intensities(s.spec_peaks(), lo, hi);
        if in_window(s.spec_scan().retention_time, rt_lo, rt_hi) && m.len() > 0 {
            rest.push((s.spec_scan().retention_time, m))
        } else {
            rest
        }
    }
}

/// The intensities of the peaks of `peaks` with m/z in `[lo, hi]`.
pub fn peaks_in_window(peaks: &Vec<Peak>, lo: u64, hi: u64) -> (r: Vec<u64>)
    ensures
        r@ == matching_intensities(peaks@, lo, hi),
{
    let mut out: Vec<u64> = Vec::new();
    let mut i: usize = 0;
    while i < peaks.len()
        invariant
            i <= peaks@.len(),
            out@ == matching_intensities(peaks@.take(i as int), lo, hi),
        decreases peaks@.len() - i,
    {
        let p = peaks[i];
        assert(peaks@.take(i + 1).drop_last() =~= peaks@.take(i as int));
        if !below(p.mz, lo) && at_most(p.mz, hi) {
            out.push(p.intensity);
        }
        i = i + 1;
    }
    assert(peaks@.take(i as int) =~= peaks@);
    out
}

/// Extracts ion chromatograms from loaded spectra.
pub struct XICSExtractor {
    ms1_spectra: Vec<Spectrum>,
    ms2_spectra: Vec<Spectrum>,
    ppm_tolerance: u64,
    loaded: bool,
}

impl XICSExtractor {
    pub closed spec fn spec_ms1(&self) -> Seq<Spectrum> {
        self.ms1_spectra@
    }

    pub closed spec fn spec_ms2(&self) -> Seq<Spectrum> {
        self.ms2_spectra@
    }

    pub closed spec fn spec_ppm_tolerance(&self) -> u64 {
        self.ppm_tolerance
    }

    pub closed spec fn spec_loaded(&self) -> bool {
        self.loaded
    }

    /// An extractor with no spectra; `ppm_tolerance` is a binary64 bit pattern.
    pub fn new(ppm_tolerance: u64) -> (r: XICSExtractor)
        ensures
            !r.spec_loaded(),
            r.spec_ms1().len() == 0,
            r.spec_ms2().len() == 0,
            r.spec_ppm_tolerance() == ppm_tolerance,
    {
        XICSExtractor {
            ms1_spectra: Vec::new(),
            ms2_spectra: Vec::new(),
            ppm_tolerance,
            loaded: false,
        }
    }

    /// An extractor loaded with `spectra`.
    pub fn from_spectra(spectra: Vec<Spectrum>, ppm_tolerance: u64) -> (r: XICSExtractor)
        ensures
            r.spec_loaded(),
            r.spec_ms1() == of_level(spectra@, 1),
            r.spec_ms2() == of_level(spectra@, 2),
            r.spec_ppm_tolerance() == ppm_tolerance,
    {
        let mut x = XICSExtractor::new(ppm_tolerance);
        x.load_spectra(spectra);
        x
    }

    /// Replaces the loaded spectra: level-1 and level-2 spectra are kept in
    /// their order, spectra of other levels are dropped.
    pub fn load_spectra(&mut self, spectra: Vec<Spectrum>)
        ensures
            final(self).spec_loaded(),
            final(self).spec_ms1() == of_level(spectra@, 1),
            final(self).spec_ms2() == of_level(spectra@, 2),
            final(self).spec_ppm_tolerance() == old(self).spec_ppm_tolerance(),
    {
        let ghost all = spectra@;
        let n = spectra.len();
        let mut rest = spectra;
        let mut reversed: Vec<Spectrum> = Vec::new();
        while rest.len() > 0
            invariant
                n == all.len(),
                rest@ == all.take(n - reversed@.len()),
                reversed@.len() <= n,
                forall|j: int| 0 <= j < reversed@.len() ==> #[trigger] reversed@[j] == all[n - 1 - j],
            decreases rest@.len(),
        {
            let s = rest.pop().unwrap();
            reversed.push(s);
            assert(rest@ =~= all.take(n - reversed@.len()));
        }
        let mut ms1: Vec<Spectrum> = Vec::new();
        let mut ms2: Vec<Spectrum> = Vec::new();
        let mut i: usize = 0;
        while reversed.len() > 0
            invariant
                n == all.len(),
                i + reversed@.len() == n,
                forall|j: int| 0 <= j < reversed@.len() ==> #[trigger] reversed@[j] == all[n - 1 - j],
                ms1@ == of_level(all.take(i as int), 1),
                ms2@ == of_level(all.take(i as int), 2),
            decreases reversed@.len(),
        {
            let ghost before = reversed@;
            let s = reversed.pop().unwrap();
            assert(s == all[i as int]);
            assert(all.take(i + 1).drop_last() =~= all.take(i as int));
            assert(forall|j: int| 0 <= j < reversed@.len() ==> reversed@[j] == before[j]);
            let level = s.level();
            if level == 1 {
                ms1.push(s);
            } else if level == 2 {
                ms2.push(s);
            }
            i = i + 1;
        }
        assert(all.take(n as int) =~= all);
        self.ms1_spectra = ms1;
        self.ms2_spectra = ms2;
        self.loaded = true;
    }

    pub fn is_loaded(&self) -> (r: bool)
        ensures
            r == self.spec_loaded(),
    {
        self.loaded
    }

    pub fn ms1_count(&self) -> (r: usize)
        ensures
            r == self.spec_ms1().len(),
    {
        self.ms1_spectra.len()
    }

    pub fn ms2_count(&self) -> (r: usize)
        ensures
            r == self.spec_ms2().len(),
    {
        self.ms2_spectra.len()
    }

    pub fn ppm_tolerance(&self) -> (r: u64)
        ensures
            r == self.spec_ppm_tolerance(),
    {
        self.ppm_tolerance
    }

    pub fn set_ppm_tolerance(&mut self, ppm_tolerance: u64)
        ensures
            final(self).spec_ppm_tolerance() == ppm_tolerance,
            final(self).spec_ms1() == old(self).spec_ms1(),
            final(self).spec_ms2() == old(self).spec_ms2(),
            final(self).spec_loaded() == old(self).spec_loaded(),
    {
        self.ppm_tolerance = ppm_tolerance;
    }

    /// Indices of the spectra with retention time in `[rt_start, rt_end]`.
    pub fn filter_spectra_by_rt(&self, spectra: &Vec<Spectrum>, rt_start: u64, rt_end: u64) -> (r: Vec<usize>)
        ensures
            forall|i: int| 0 <= i < r@.len() ==> (#[trigger] r@[i]) < spectra@.len(),
            forall|i: int, j: int| 0 <= i < j < r@.len() ==> r@[i] < r@[j],
            forall|k: int|
                0 <= k < spectra@.len() ==> (r@.contains(k as usize) <==> in_window(
                    (#[trigger] spectra@[k]).spec_scan().retention_time,
                    rt_start,
                    rt_end,
                )),
    {
        let mut out: Vec<usize> = Vec::new();
        let mut k: usize = 0;
        while k < spectra.len()
            invariant
                k <= spectra@.len(),
                forall|i: int| 0 <= i < out@.len() ==> (#[trigger] out@[i]) < k,
                forall|i: int, j: int| 0 <= i < j < out@.len() ==> out@[i] < out@[j],
                forall|q: int|
                    0 <= q < k ==> (out@.contains(q as usize) <==> in_window(
                        (#[trigger] spectra@[q]).spec_scan().retention_time,
                        rt_start,
                        rt_end,
                    )),
            decreases spectra@.len() - k,
        {
            let rt = spectra[k].scan().retention_time;
            let ghost before = out@;
            if !below(rt, rt_start) && at_most(rt, rt_end) {
                out.push(k);
                assert(out@[before.len() as int] == k);
            }
            assert forall|q: int|
                0 <= q < k + 1 implies (out@.contains(q as usize) <==> in_window(
                    (#[trigger] spectra@[q]).spec_scan().retention_time,
                    rt_start,
                    rt_end,
                )) by {
                if out@.contains(q as usize) {
                    let w = choose|w: int| 0 <= w < out@.len() && out@[w] == q as usize;
                    if w < before.len() {
                        assert(before[w] == q as usize);
                        assert(before.contains(q as usize));
                    }
                }
                if q < k && before.contains(q as usize) {
                    let w = choose|w: int| 0 <= w < before.len() && before[w] == q as usize;
                    assert(out@[w] == q as usize);
                }
            }
            k = k + 1;
        }
        out
    }

    /// The trace points for m/z window `[mz_lo, mz_hi]` over the level-1
    /// spectra with retention time in `[rt_start, rt_end]`; refused while
    /// no spectra were ever loaded.
    pub fn xic_points(&self, mz_lo: u64, mz_hi: u64, rt_start: u64, rt_end: u64) -> (r: Result<
        Vec<XicPoint>,
        CoreError,
    >)
        ensures
            !self.spec_loaded() ==> r == Err::<Vec<XicPoint>, CoreError>(CoreError::ExtractorNotLoaded),
            self.spec_loaded() ==> (r matches Ok(v) && v@.len() == trace_points(
                self.spec_ms1(),
                mz_lo,
                mz_hi,
                rt_start,
                rt_end,
            ).len() && forall|i: int|
                0 <= i < v@.len() ==> (#[trigger] v@[i]).rt == trace_points(
                    self.spec_ms1(),
                    mz_lo,
                    mz_hi,
                    rt_start,
                    rt_end,
                )[i].0 && v@[i].intensities@ == trace_points(
                    self.spec_ms1(),
                    mz_lo,
                    mz_hi,
                    rt_start,
                    rt_end,
                )[i].1),
    {
        if !self.loaded {
            return Err(CoreError::ExtractorNotLoaded);
        }
        let ghost ms1 = self.ms1_spectra@;
        let mut out: Vec<XicPoint> = Vec::new();
        let mut k: usize = 0;
        while k < self.ms1_spectra.len()
            invariant
                ms1 == self.ms1_spectra@,
                k <= ms1.len(),
                out@.len() == trace_points(ms1.take(k as int), mz_lo, mz_hi, rt_start, rt_end).len(),
                forall|i: int|
                    0 <= i < out@.len() ==> (#[trigger] out@[i]).rt == trace_points(
                        ms1.take(k as int),
                        mz_lo,
                        mz_hi,
                        rt_start,
                        rt_end,
                    )[i].0 && out@[i].intensities@ == trace_points(
                        ms1.take(k as int),
                        mz_lo,
                        mz_hi,
                        rt_start,
                        rt_end,
                    )[i].1,
            decreases ms1.len() - k,
        {
            let s = &self.ms1_spectra[k];
            let rt = s.scan().retention_time;
            assert(ms1.take(k + 1).drop_last() =~= ms1.take(k as int));
            let ghost prev = trace_points(ms1.take(k as int), mz_lo, mz_hi, rt_start, rt_end);
            let ghost next = trace_points(ms1.take(k + 1), mz_lo, mz_hi, rt_start, rt_end);
            if !below(rt, rt_start) && at_most(rt, rt_end) {
                let found = peaks_in_window(s.peaks(), mz_lo, mz_hi);
                if found.len() > 0 {
                    let ghost before = out@;
                    out.push(XicPoint { rt, intensities: found });
                    assert forall|i: int|
                        0 <= i < out@.len() implies (#[trigger] out@[i]).rt == next[i].0
                            && out@[i].intensities@ == next[i].1 by {
                        if i < before.len() {
                            assert(out@[i] == before[i]);
                        }
                    }
                }
            }
            k = k + 1;
        }
        assert(ms1.take(k as int) =~= ms1);
        Ok(out)
    }
}

} // verus!
