//! One scan: its peaks and acquisition metadata.
//!
//! Masses, intensities and times are held as IEEE-754 binary64 bit
//! patterns. A value that the model accepts is finite and not negative, and
//! negative zero is stored as positive zero; for such patterns the order of
//! the unsigned integers is the order of the numbers they encode, so every
//! comparison below is exact.
use vstd::prelude::*;
use vstd::seq_lib::{group_to_multiset_ensures, to_multiset_build, to_multiset_contains, to_multiset_insert};
use crate::error::CoreError;
use crate::text::str_eq;

verus! {

/// Bit pattern of negative zero; also the sign bit.
pub const NEGATIVE_ZERO: u64 = 0x8000_0000_0000_0000;

/// Bit pattern of positive infinity; finite non-negative values lie below it.
pub const POSITIVE_INFINITY: u64 = 0x7ff0_0000_0000_0000;

/// Lowest and highest acquisition level.
pub const MIN_MS_LEVEL: u8 = 1;

pub const MAX_MS_LEVEL: u8 = 10;

/// The pattern with negative zero replaced by positive zero.
pub open spec fn normalized(b: u64) -> u64 {
    if b == NEGATIVE_ZERO {
        0
    } else {
        b
    }
}

/// A finite, non-negative value in normal form.
pub open spec fn is_measure(b: u64) -> bool {
    b < POSITIVE_INFINITY
}

/// Whether a pattern is accepted as a measured value: finite and not negative.
pub open spec fn accepted(b: u64) -> bool {
    is_measure(normalized(b))
}

/// Whether the pattern is a NaN.
pub open spec fn is_nan(q: u64) -> bool {
    q & 0x7fff_ffff_ffff_ffff > POSITIVE_INFINITY
}

/// A measure is not a NaN pattern, so comparing against it is plain
/// integer comparison.
pub proof fn lemma_measure_not_nan(b: u64)
    requires
        is_measure(b),
    ensures
        !is_nan(b),
{
    assert(b & 0x7fff_ffff_ffff_ffff == b) by (bit_vector)
        requires
            b < 0x7ff0_0000_0000_0000u64,
    ;
}

/// `m < q` on the numbers, for a measure `m` and any pattern `q`.
pub open spec fn lies_below(m: u64, q: u64) -> bool {
    if is_nan(q) || q >= NEGATIVE_ZERO {
        false
    } else {
        m < q
    }
}

/// `m <= q` on the numbers, for a measure `m` and any pattern `q`.
pub open spec fn lies_at_most(m: u64, q: u64) -> bool {
    if is_nan(q) {
        false
    } else if q >= NEGATIVE_ZERO {
        m == 0 && q == NEGATIVE_ZERO
    } else {
        m <= q
    }
}

/// `lo <= m <= hi` on the numbers.
pub open spec fn in_window(m: u64, lo: u64, hi: u64) -> bool {
    !lies_below(m, lo) && lies_at_most(m, hi)
}

fn normalize(b: u64) -> (r: u64)
    ensures
        r == normalized(b),
{
    if b == NEGATIVE_ZERO {
        0
    } else {
        b
    }
}

pub(crate) fn below(m: u64, q: u64) -> (r: bool)
    ensures
        r == lies_below(m, q),
{
    if q & 0x7fff_ffff_ffff_ffff > POSITIVE_INFINITY || q >= NEGATIVE_ZERO {
        false
    } else {
        m < q
    }
}

pub(crate) fn at_most(m: u64, q: u64) -> (r: bool)
    ensures
        r == lies_at_most(m, q),
{
    if q & 0x7fff_ffff_ffff_ffff > POSITIVE_INFINITY {
        false
    } else if q >= NEGATIVE_ZERO {
        m == 0 && q == NEGATIVE_ZERO
    } else {
        m <= q
    }
}

/// One measurement: m/z and intensity, as binary64 bit patterns.
#[derive(Debug, Clone, Copy, PartialEq, Eq, Structural)]
pub struct Peak {
    pub mz: u64,
    pub intensity: u64,
}

impl Peak {
    pub fn new(mz: u64, intensity: u64) -> (r: Peak)
        ensures
            r.mz == mz,
            r.intensity == intensity,
    {
        Peak { mz, intensity }
    }

    pub fn mz(&self) -> (r: u64)
        ensures
            r == self.mz,
    {
        self.mz
    }

    pub fn intensity(&self) -> (r: u64)
        ensures
            r == self.intensity,
    {
        self.intensity
    }
}

/// Peaks in ascending m/z order.
pub open spec fn sorted_by_mz(s: Seq<Peak>) -> bool {
    forall|i: int, j: int| 0 <= i < j < s.len() ==> s[i].mz <= s[j].mz
}

/// Once sorted, neighbouring peaks are in ascending m/z order.
pub proof fn lemma_sorted_neighbours(s: Seq<Peak>)
    requires
        sorted_by_mz(s),
    ensures
        forall|i: int| 0 <= i < s.len() - 1 ==> (#[trigger] s[i]).mz <= s[i + 1].mz,
{
}

/// Every peak holds accepted values in normal form.
pub open spec fn all_measures(s: Seq<Peak>) -> bool {
    forall|i: int| 0 <= i < s.len() ==> is_measure(#[trigger] s[i].mz) && is_measure(s[i].intensity)
}


/// The peaks that satisfy `keep`, in order.
pub open spec fn kept(s: Seq<Peak>, keep: spec_fn(Peak) -> bool) -> Seq<Peak>
    decreases s.len(),
{
    if s.len() == 0 {
        Seq::empty()
    } else {
        let rest = kept(s.drop_last(), keep);
        if keep(s.last()) {
            rest.push(s.last())
        } else {
            rest
        }
    }
}

/// A peak with both values in normal form.
pub open spec fn normal_peak(p: Peak) -> Peak {
    Peak { mz: normalized(p.mz), intensity: normalized(p.intensity) }
}

/// Whether both values of a peak are accepted.
pub open spec fn peak_accepted(p: Peak) -> bool {
    accepted(p.mz) && accepted(p.intensity)
}

/// The peaks in normal form.
pub open spec fn normal_peaks(s: Seq<Peak>) -> Seq<Peak> {
    Seq::new(s.len(), |i: int| normal_peak(s[i]))
}

/// Number of leading peaks whose m/z lies below `q`.
pub(crate) fn first_not_below(peaks: &Vec<Peak>, q: u64) -> (r: usize)
    requires
        sorted_by_mz(peaks@),
    ensures
        r <= peaks@.len(),
        forall|j: int| 0 <= j < r ==> lies_below(#[trigger] peaks@[j].mz, q),
        forall|j: int| r <= j < peaks@.len() ==> !lies_below(#[trigger] peaks@[j].mz, q),
{
    let mut lo: usize = 0;
    let mut hi: usize = peaks.len();
    while lo < hi
        invariant
            lo <= hi <= peaks@.len(),
            sorted_by_mz(peaks@),
            forall|j: int| 0 <= j < lo ==> lies_below(#[trigger] peaks@[j].mz, q),
            forall|j: int| hi <= j < peaks@.len() ==> !lies_below(#[trigger] peaks@[j].mz, q),
        decreases hi - lo,
    {
        let mid = lo + (hi - lo) / 2;
        if below(peaks[mid].mz, q) {
            assert forall|j: int| 0 <= j <= mid implies lies_below(#[trigger] peaks@[j].mz, q) by {
                assert(peaks@[j].mz <= peaks@[mid as int].mz);
            }
            lo = mid + 1;
        } else {
            assert forall|j: int| mid <= j < peaks@.len() implies !lies_below(#[trigger] peaks@[j].mz, q) by {
                assert(peaks@[mid as int].mz <= peaks@[j].mz);
            }
            hi = mid;
        }
    }
    lo
}

/// Number of leading peaks whose m/z is at most `q`.
fn first_above(peaks: &Vec<Peak>, q: u64) -> (r: usize)
    requires
        sorted_by_mz(peaks@),
    ensures
        r <= peaks@.len(),
        forall|j: int| 0 <= j < r ==> lies_at_most(#[trigger] peaks@[j].mz, q),
        forall|j: int| r <= j < peaks@.len() ==> !lies_at_most(#[trigger] peaks@[j].mz, q),
{
    let mut lo: usize = 0;
    let mut hi: usize = peaks.len();
    while lo < hi
        invariant
            lo <= hi <= peaks@.len(),
            sorted_by_mz(peaks@),
            forall|j: int| 0 <= j < lo ==> lies_at_most(#[trigger] peaks@[j].mz, q),
            forall|j: int| hi <= j < peaks@.len() ==> !lies_at_most(#[trigger] peaks@[j].mz, q),
        decreases hi - lo,
    {
        let mid = lo + (hi - lo) / 2;
        if at_most(peaks[mid].mz, q) {
            assert forall|j: int| 0 <= j <= mid implies lies_at_most(#[trigger] peaks@[j].mz, q) by {
                assert(peaks@[j].mz <= peaks@[mid as int].mz);
            }
            lo = mid + 1;
        } else {
            assert forall|j: int| mid <= j < peaks@.len() implies !lies_at_most(#[trigger] peaks@[j].mz, q) by {
                assert(peaks@[mid as int].mz <= peaks@[j].mz);
            }
            hi = mid;
        }
    }
    lo
}

/// `peaks` in ascending m/z order, ties kept in their given order.
pub fn sorted_copy(peaks: &Vec<Peak>) -> (r: Vec<Peak>)
    ensures
        sorted_by_mz(r@),
        r@.to_multiset() == peaks@.to_multiset(),
{
    broadcast use group_to_multiset_ensures;

    let mut out: Vec<Peak> = Vec::new();
    let mut i: usize = 0;
    assert(peaks@.take(0) =~= Seq::<Peak>::empty());
    while i < peaks.len()
        invariant
            i <= peaks@.len(),
            sorted_by_mz(out@),
            out@.to_multiset() == peaks@.take(i as int).to_multiset(),
        decreases peaks@.len() - i,
    {
        let p = peaks[i];
        let mut k: usize = 0;
        while k < out.len() && out[k].mz <= p.mz
            invariant
                k <= out@.len(),
                forall|j: int| 0 <= j < k ==> out@[j].mz <= p.mz,
            decreases out@.len() - k,
        {
            k = k + 1;
        }
        let ghost before = out@;
        out.insert(k, p);
        assert(sorted_by_mz(out@)) by {
            assert forall|a: int, b: int| 0 <= a < b < out@.len() implies out@[a].mz <= out@[b].mz by {
                if k < before.len() {
                    assert(before[k as int].mz > p.mz);
                }
                if a < k && b == k {
                } else if a < k && b > k {
                    assert(out@[b] == before[b - 1]);
                } else if a == k && b > k {
                    assert(out@[b] == before[b - 1]);
                    assert(before[k as int].mz <= before[b - 1].mz);
                } else if a > k {
                    assert(out@[a] == before[a - 1]);
                    assert(out@[b] == before[b - 1]);
                }
            }
        }
        assert(peaks@.take(i + 1) =~= peaks@.take(i as int).push(p));
        proof {
            to_multiset_insert(before, k as int, p);
            to_multiset_build(peaks@.take(i as int), p);
        }
        i = i + 1;
    }
    assert(peaks@.take(i as int) =~= peaks@);
    out
}

/// A free-form metadata entry.
#[derive(Debug, Clone, PartialEq, Eq)]
pub struct KeyValue {
    pub key: String,
    pub value: String,
}

impl KeyValue {
    pub fn new(key: &str, value: &str) -> (r: KeyValue)
        ensures
            r.key@ == key@,
            r.value@ == value@,
    {
        KeyValue { key: key.to_owned(), value: value.to_owned() }
    }
}

/// No two entries share a key.
pub open spec fn keys_unique(s: Seq<KeyValue>) -> bool {
    forall|i: int, j: int| 0 <= i < j < s.len() ==> s[i].key@ != s[j].key@
}

/// Whether some entry has the key.
pub open spec fn has_key(s: Seq<KeyValue>, key: Seq<char>) -> bool {
    exists|i: int| 0 <= i < s.len() && #[trigger] s[i].key@ == key
}

/// Index of the entry with `key`, if any.
fn find_key(list: &Vec<KeyValue>, key: &str) -> (r: Option<usize>)
    ensures
        match r {
            Some(i) => i < list@.len() && list@[i as int].key@ == key@ && forall|j: int|
                0 <= j < i ==> list@[j].key@ != key@,
            None => !has_key(list@, key@),
        },
{
    let mut i: usize = 0;
    while i < list.len()
        invariant
            i <= list@.len(),
            forall|j: int| 0 <= j < i ==> list@[j].key@ != key@,
        decreases list@.len() - i,
    {
        if str_eq(list[i].key.as_str(), key) {
            return Some(i);
        }
        i = i + 1;
    }
    None
}

/// A closed interval, its bounds as binary64 bit patterns.
#[derive(Debug, Clone, Copy, PartialEq, Eq, Structural)]
pub struct Window {
    pub lower: u64,
    pub upper: u64,
}

/// Acquisition details of a scan.
#[derive(Debug, Clone)]
pub struct ScanInfo {
    pub scan_number: u32,
    /// Retention time in seconds, as a binary64 bit pattern.
    pub retention_time: u64,
    /// Drift time in seconds, as a binary64 bit pattern.
    pub drift_time: u64,
    /// Lower and upper m/z limits.
    pub scan_window: Window,
    pub additional_info: Vec<KeyValue>,
}

impl ScanInfo {
    /// Scan number zero, zero times and window, no metadata.
    pub fn new() -> (r: ScanInfo)
        ensures
            r.scan_number == 0,
            r.retention_time == 0,
            r.drift_time == 0,
            r.scan_window == (Window { lower: 0, upper: 0 }),
            r.additional_info@.len() == 0,
    {
        ScanInfo {
            scan_number: 0,
            retention_time: 0,
            drift_time: 0,
            scan_window: Window { lower: 0, upper: 0 },
            additional_info: Vec::new(),
        }
    }
}

impl Default for ScanInfo {
    fn default() -> (r: ScanInfo)
        ensures
            r.scan_number == 0,
            r.retention_time == 0,
            r.drift_time == 0,
            r.scan_window == (Window { lower: 0, upper: 0 }),
            r.additional_info@.len() == 0,
    {
        ScanInfo::new()
    }
}

/// The precursor ion that a fragment scan selected.
#[derive(Debug, Clone)]
pub struct PrecursorInfo {
    pub ref_scan_number: u32,
    /// m/z, intensity and activation energy, as binary64 bit patterns.
    pub mz: u64,
    pub intensity: u64,
    pub charge: i8,
    pub activation_method: String,
    pub activation_energy: u64,
    pub isolation_window: Window,
}

/// One scan with its peaks.
///
/// The sortedness flag is true only while the peaks are known to be in
/// ascending m/z order: every change of the peaks clears it, and sorting or
/// clearing sets it.
#[derive(Debug, Clone)]
pub struct Spectrum {
    peaks: Vec<Peak>,
    sorted: bool,
    level: u8,
    scan: ScanInfo,
    precursor: Option<Box<PrecursorInfo>>,
    additional_info: Vec<KeyValue>,
}

impl Spectrum {
    pub closed spec fn spec_peaks(&self) -> Seq<Peak> {
        self.peaks@
    }

    pub closed spec fn spec_sorted(&self) -> bool {
        self.sorted
    }

    pub closed spec fn spec_level(&self) -> u8 {
        self.level
    }

    pub closed spec fn spec_scan(&self) -> ScanInfo {
        self.scan
    }

    pub closed spec fn spec_precursor(&self) -> Option<PrecursorInfo> {
        match self.precursor {
            Some(b) => Some(*b),
            None => None,
        }
    }

    pub closed spec fn spec_additional_info(&self) -> Seq<KeyValue> {
        self.additional_info@
    }

    /// The flag is truthful, every peak holds accepted values, and
    /// metadata keys are unique.
    pub open spec fn wf(&self) -> bool {
        &&& all_measures(self.spec_peaks())
        &&& self.spec_sorted() ==> sorted_by_mz(self.spec_peaks())
        &&& keys_unique(self.spec_additional_info())
    }

    /// An empty spectrum of acquisition level `level`, which must lie in
    /// 1..=10.
    pub fn new(level: u8) -> (r: Result<Spectrum, CoreError>)
        ensures
            !(MIN_MS_LEVEL <= level <= MAX_MS_LEVEL) ==> r == Err::<Spectrum, CoreError>(
                CoreError::InvalidMSLevel { level, min: MIN_MS_LEVEL, max: MAX_MS_LEVEL },
            ),
            MIN_MS_LEVEL <= level <= MAX_MS_LEVEL ==> (r matches Ok(s) && s.wf() && s.spec_level() == level
                && s.spec_peaks().len() == 0 && s.spec_sorted() && s.spec_precursor() is None
                && s.spec_additional_info().len() == 0 && s.spec_scan().scan_number == 0
                && s.spec_scan().retention_time == 0 && s.spec_scan().drift_time == 0
                && s.spec_scan().scan_window == (Window { lower: 0, upper: 0 })
                && s.spec_scan().additional_info@.len() == 0),
    {
        if level < MIN_MS_LEVEL || level > MAX_MS_LEVEL {
            return Err(CoreError::InvalidMSLevel { level, min: MIN_MS_LEVEL, max: MAX_MS_LEVEL });
        }
        Ok(
            Spectrum {
                peaks: Vec::new(),
                sorted: true,
                level,
                scan: ScanInfo::new(),
                precursor: None,
                additional_info: Vec::new(),
            },
        )
    }

    /// An empty level-1 spectrum.
    pub fn ms1() -> (r: Result<Spectrum, CoreError>)
        ensures
            r matches Ok(s) && s.wf() && s.spec_level() == 1 && s.spec_peaks().len() == 0
                && s.spec_precursor() is None && s.spec_additional_info().len() == 0,
    {
        Spectrum::new(1)
    }

    /// An empty level-2 spectrum.
    pub fn ms2() -> (r: Result<Spectrum, CoreError>)
        ensures
            r matches Ok(s) && s.wf() && s.spec_level() == 2 && s.spec_peaks().len() == 0
                && s.spec_precursor() is None && s.spec_additional_info().len() == 0,
    {
        Spectrum::new(2)
    }

    /// The peaks, in their current order.
    pub fn peaks(&self) -> (r: &Vec<Peak>)
        ensures
            r@ == self.spec_peaks(),
    {
        &self.peaks
    }

    /// Whether the peaks are known to be in ascending m/z order.
    pub fn is_sorted(&self) -> (r: bool)
        ensures
            r == self.spec_sorted(),
    {
        self.sorted
    }

    pub fn peak_count(&self) -> (r: usize)
        ensures
            r == self.spec_peaks().len(),
    {
        self.peaks.len()
    }

    /// Appends a peak; a negative or non-finite value is refused. The
    /// sortedness flag is cleared.
    pub fn add_peak(&mut self, mz: u64, intensity: u64) -> (r: Result<(), CoreError>)
        requires
            old(self).wf(),
        ensures
            final(self).wf(),
            final(self).spec_scan() == old(self).spec_scan(),
            final(self).spec_level() == old(self).spec_level(),
            final(self).spec_precursor() == old(self).spec_precursor(),
            final(self).spec_additional_info() == old(self).spec_additional_info(),
            !(accepted(mz) && accepted(intensity)) ==> r == Err::<(), CoreError>(
                CoreError::InvalidPeakData { mz, intensity },
            ) && final(self).spec_peaks() == old(self).spec_peaks() && final(self).spec_sorted()
                == old(self).spec_sorted(),
            accepted(mz) && accepted(intensity) ==> r is Ok && final(self).spec_peaks() == old(
                self,
            ).spec_peaks().push(Peak { mz: normalized(mz), intensity: normalized(intensity) })
                && !final(self).spec_sorted(),
    {
        let m = normalize(mz);
        let i = normalize(intensity);
        if m >= POSITIVE_INFINITY || i >= POSITIVE_INFINITY {
            return Err(CoreError::InvalidPeakData { mz, intensity });
        }
        self.peaks.push(Peak { mz: m, intensity: i });
        self.sorted = false;
        Ok(())
    }

    /// Puts the peaks in ascending m/z order and marks them sorted; nothing
    /// moves when they are already marked sorted.
    pub fn sort_peaks(&mut self)
        requires
            old(self).wf(),
        ensures
            final(self).wf(),
            final(self).spec_scan() == old(self).spec_scan(),
            final(self).spec_precursor() == old(self).spec_precursor(),
            final(self).spec_sorted(),
            sorted_by_mz(final(self).spec_peaks()),
            final(self).spec_peaks().to_multiset() == old(self).spec_peaks().to_multiset(),
            old(self).spec_sorted() ==> final(self).spec_peaks() == old(self).spec_peaks(),
            final(self).spec_level() == old(self).spec_level(),
            final(self).spec_additional_info() == old(self).spec_additional_info(),
    {
        if !self.sorted {
            let sorted = sorted_copy(&self.peaks);
            proof {
                assert forall|i: int| 0 <= i < sorted@.len() implies is_measure(#[trigger] sorted@[i].mz)
                    && is_measure(sorted@[i].intensity) by {
                    assert(sorted@.contains(sorted@[i]));
                    to_multiset_contains(sorted@, sorted@[i]);
                    to_multiset_contains(self.peaks@, sorted@[i]);
                    assert(self.peaks@.contains(sorted@[i]));
                    let j = choose|j: int| 0 <= j < self.peaks@.len() && self.peaks@[j] == sorted@[i];
                    assert(self.peaks@[j] == sorted@[i]);
                }
            }
            self.peaks = sorted;
            self.sorted = true;
        }
    }

    /// Appends the peaks in order, stopping at the first one that holds a
    /// negative or non-finite value: the peaks before it stay appended and
    /// that one is reported. Appending clears the sortedness flag.
    pub fn add_peaks(&mut self, peaks: &Vec<Peak>) -> (r: Result<(), CoreError>)
        requires
            old(self).wf(),
        ensures
            final(self).wf(),
            final(self).spec_scan() == old(self).spec_scan(),
            final(self).spec_precursor() == old(self).spec_precursor(),
            final(self).spec_level() == old(self).spec_level(),
            final(self).spec_additional_info() == old(self).spec_additional_info(),
            match r {
                Ok(()) => (forall|i: int| 0 <= i < peaks@.len() ==> peak_accepted(#[trigger] peaks@[i]))
                    && final(self).spec_peaks() == old(self).spec_peaks() + normal_peaks(peaks@),
                Err(e) => exists|k: int|
                    0 <= k < peaks@.len() && (forall|i: int| 0 <= i < k ==> peak_accepted(#[trigger] peaks@[i]))
                        && !peak_accepted(#[trigger] peaks@[k]) && e == (CoreError::InvalidPeakData {
                        mz: peaks@[k].mz,
                        intensity: peaks@[k].intensity,
                    }) && final(self).spec_peaks() == old(self).spec_peaks() + normal_peaks(
                        peaks@.take(k),
                    ),
            },
            final(self).spec_peaks().len() > old(self).spec_peaks().len() ==> !final(self).spec_sorted(),
            final(self).spec_peaks().len() == old(self).spec_peaks().len() ==> final(self).spec_sorted()
                == old(self).spec_sorted(),
    {
        let ghost start = self.peaks@;
        let ghost was_sorted = self.sorted;
        let mut i: usize = 0;
        while i < peaks.len()
            invariant
                i <= peaks@.len(),
                self.wf(),
                self.spec_level() == old(self).spec_level(),
                self.spec_scan() == old(self).spec_scan(),
                self.spec_precursor() == old(self).spec_precursor(),
                self.spec_additional_info() == old(self).spec_additional_info(),
                start == old(self).spec_peaks(),
                was_sorted == old(self).spec_sorted(),
                forall|j: int| 0 <= j < i ==> peak_accepted(#[trigger] peaks@[j]),
                self.spec_peaks() == start + normal_peaks(peaks@.take(i as int)),
                i > 0 ==> !self.spec_sorted(),
                i == 0 ==> self.spec_sorted() == was_sorted,
            decreases peaks@.len() - i,
        {
            let p = peaks[i];
            match self.add_peak(p.mz, p.intensity) {
                Ok(()) => {},
                Err(e) => {
                    return Err(e);
                },
            }
            assert(normal_peaks(peaks@.take(i + 1)) =~= normal_peaks(peaks@.take(i as int)).push(
                normal_peak(p),
            ));
            i = i + 1;
        }
        assert(peaks@.take(i as int) =~= peaks@);
        Ok(())
    }

    /// The smallest and largest m/z over the peaks, in any order of them;
    /// `None` when there are none.
    pub fn mz_range(&self) -> (r: Option<(u64, u64)>)
        ensures
            self.spec_peaks().len() == 0 ==> r is None,
            self.spec_peaks().len() > 0 ==> (r matches Some((lo, hi)) && (exists|i: int|
                0 <= i < self.spec_peaks().len() && #[trigger] self.spec_peaks()[i].mz == lo) && (exists|
                i: int,
            | 0 <= i < self.spec_peaks().len() && #[trigger] self.spec_peaks()[i].mz == hi) && (forall|
                i: int,
            | 0 <= i < self.spec_peaks().len() ==> lo <= #[trigger] self.spec_peaks()[i].mz <= hi)),
    {
        if self.peaks.len() == 0 {
            return None;
        }
        let mut lo = self.peaks[0].mz;
        let mut hi = self.peaks[0].mz;
        let mut i: usize = 1;
        while i < self.peaks.len()
            invariant
                1 <= i <= self.peaks@.len(),
                exists|j: int| 0 <= j < i && #[trigger] self.peaks@[j].mz == lo,
                exists|j: int| 0 <= j < i && #[trigger] self.peaks@[j].mz == hi,
                forall|j: int| 0 <= j < i ==> lo <= #[trigger] self.peaks@[j].mz <= hi,
            decreases self.peaks@.len() - i,
        {
            let m = self.peaks[i].mz;
            if m < lo {
                lo = m;
            }
            if m > hi {
                hi = m;
            }
            i = i + 1;
        }
        Some((lo, hi))
    }

    /// The first peak of greatest intensity in the current order; `None` when
    /// there are none. Which of several equally intense peaks is returned
    /// depends on that order.
    pub fn base_peak(&self) -> (r: Option<Peak>)
        ensures
            self.spec_peaks().len() == 0 ==> r is None,
            self.spec_peaks().len() > 0 ==> (r matches Some(b) && exists|k: int|
                0 <= k < self.spec_peaks().len() && b == self.spec_peaks()[k] && (forall|j: int|
                    0 <= j < self.spec_peaks().len() ==> (#[trigger] self.spec_peaks()[j]).intensity
                        <= b.intensity) && (forall|j: int|
                    0 <= j < k ==> (#[trigger] self.spec_peaks()[j]).intensity < b.intensity)),
    {
        if self.peaks.len() == 0 {
            return None;
        }
        let mut best: usize = 0;
        let mut i: usize = 1;
        while i < self.peaks.len()
            invariant
                1 <= i <= self.peaks@.len(),
                best < i,
                forall|j: int| 0 <= j < i ==> (#[trigger] self.peaks@[j]).intensity
                    <= self.peaks@[best as int].intensity,
                forall|j: int| 0 <= j < best ==> (#[trigger] self.peaks@[j]).intensity
                    < self.peaks@[best as int].intensity,
            decreases self.peaks@.len() - i,
        {
            if self.peaks[i].intensity > self.peaks[best].intensity {
                best = i;
            }
            i = i + 1;
        }
        Some(self.peaks[best])
    }

    /// The index range `[start, end)` of the peaks with `min_mz <= mz <= max_mz`,
    /// found by binary search. `None` while the peaks are not marked sorted,
    /// and when no peak lies in the window.
    pub fn find_peak_range(&self, min_mz: u64, max_mz: u64) -> (r: Option<(usize, usize)>)
        requires
            self.wf(),
        ensures
            !self.spec_sorted() ==> r is None,
            self.spec_sorted() ==> match r {
                Some((start, end)) => start < end <= self.spec_peaks().len() && forall|j: int|
                    0 <= j < self.spec_peaks().len() ==> (start <= j < end <==> in_window(
                        #[trigger] self.spec_peaks()[j].mz,
                        min_mz,
                        max_mz,
                    )),
                None => forall|j: int|
                    0 <= j < self.spec_peaks().len() ==> !in_window(
                        #[trigger] self.spec_peaks()[j].mz,
                        min_mz,
                        max_mz,
                    ),
            },
    {
        if !self.sorted || self.peaks.len() == 0 {
            return None;
        }
        let start = first_not_below(&self.peaks, min_mz);
        let end = first_above(&self.peaks, max_mz);
        if start < end {
            Some((start, end))
        } else {
            assert forall|j: int| 0 <= j < self.peaks@.len() implies !in_window(
                #[trigger] self.peaks@[j].mz,
                min_mz,
                max_mz,
            ) by {
                if j >= start {
                    assert(j >= end);
                }
            }
            None
        }
    }

    /// Checks the spectrum: there must be peaks, each holding finite
    /// non-negative values, and the level must lie in 1..=10. Nothing changes.
    pub fn validate(&self) -> (r: Result<(), CoreError>)
        ensures
            self.spec_peaks().len() == 0 ==> r == Err::<(), CoreError>(CoreError::EmptyPeakList),
            self.spec_peaks().len() > 0 && (exists|k: int|
                0 <= k < self.spec_peaks().len() && !peak_accepted(#[trigger] self.spec_peaks()[k]))
                ==> exists|k: int|
                0 <= k < self.spec_peaks().len() && !peak_accepted(#[trigger] self.spec_peaks()[k])
                    && (forall|j: int| 0 <= j < k ==> peak_accepted(#[trigger] self.spec_peaks()[j]))
                    && r == Err::<(), CoreError>(
                    CoreError::InvalidPeakData {
                        mz: self.spec_peaks()[k].mz,
                        intensity: self.spec_peaks()[k].intensity,
                    },
                ),
            self.spec_peaks().len() > 0 && (forall|k: int|
                0 <= k < self.spec_peaks().len() ==> peak_accepted(#[trigger] self.spec_peaks()[k]))
                ==> r == (if MIN_MS_LEVEL <= self.spec_level() <= MAX_MS_LEVEL {
                Ok::<(), CoreError>(())
            } else {
                Err::<(), CoreError>(
                    CoreError::InvalidMSLevel {
                        level: self.spec_level(),
                        min: MIN_MS_LEVEL,
                        max: MAX_MS_LEVEL,
                    },
                )
            }),
    {
        if self.peaks.len() == 0 {
            return Err(CoreError::EmptyPeakList);
        }
        let mut i: usize = 0;
        while i < self.peaks.len()
            invariant
                i <= self.peaks@.len(),
                forall|j: int| 0 <= j < i ==> peak_accepted(#[trigger] self.peaks@[j]),
            decreases self.peaks@.len() - i,
        {
            let p = self.peaks[i];
            if normalize(p.mz) >= POSITIVE_INFINITY || normalize(p.intensity) >= POSITIVE_INFINITY {
                return Err(CoreError::InvalidPeakData { mz: p.mz, intensity: p.intensity });
            }
            i = i + 1;
        }
        if self.level < MIN_MS_LEVEL || self.level > MAX_MS_LEVEL {
            return Err(
                CoreError::InvalidMSLevel { level: self.level, min: MIN_MS_LEVEL, max: MAX_MS_LEVEL },
            );
        }
        Ok(())
    }

    pub fn level(&self) -> (r: u8)
        ensures
            r == self.spec_level(),
    {
        self.level
    }

    pub fn scan(&self) -> (r: &ScanInfo)
        ensures
            *r == self.spec_scan(),
    {
        &self.scan
    }

    pub fn is_ms1(&self) -> (r: bool)
        ensures
            r == (self.spec_level() == 1),
    {
        self.level == 1
    }

    pub fn is_ms2(&self) -> (r: bool)
        ensures
            r == (self.spec_level() == 2),
    {
        self.level == 2
    }

    pub fn has_precursor(&self) -> (r: bool)
        ensures
            r == self.spec_precursor() is Some,
    {
        self.precursor.is_some()
    }

    pub fn precursor(&self) -> (r: Option<&PrecursorInfo>)
        ensures
            match r {
                Some(p) => self.spec_precursor() == Some(*p),
                None => self.spec_precursor() is None,
            },
    {
        match &self.precursor {
            Some(b) => Some(&**b),
            None => None,
        }
    }

    pub fn set_precursor(&mut self, precursor: PrecursorInfo)
        requires
            old(self).wf(),
        ensures
            final(self).wf(),
            final(self).spec_scan() == old(self).spec_scan(),
            final(self).spec_precursor() == Some(precursor),
            final(self).spec_peaks() == old(self).spec_peaks(),
            final(self).spec_sorted() == old(self).spec_sorted(),
            final(self).spec_level() == old(self).spec_level(),
            final(self).spec_additional_info() == old(self).spec_additional_info(),
    {
        self.precursor = Some(Box::new(precursor));
    }

    pub fn clear_precursor(&mut self)
        requires
            old(self).wf(),
        ensures
            final(self).wf(),
            final(self).spec_scan() == old(self).spec_scan(),
            final(self).spec_precursor() is None,
            final(self).spec_peaks() == old(self).spec_peaks(),
            final(self).spec_sorted() == old(self).spec_sorted(),
            final(self).spec_level() == old(self).spec_level(),
            final(self).spec_additional_info() == old(self).spec_additional_info(),
    {
        self.precursor = None;
    }

    pub fn set_scan_info(&mut self, scan: ScanInfo)
        requires
            old(self).wf(),
        ensures
            final(self).wf(),
            final(self).spec_scan() == scan,
            final(self).spec_peaks() == old(self).spec_peaks(),
            final(self).spec_sorted() == old(self).spec_sorted(),
            final(self).spec_level() == old(self).spec_level(),
            final(self).spec_precursor() == old(self).spec_precursor(),
            final(self).spec_additional_info() == old(self).spec_additional_info(),
    {
        self.scan = scan;
    }

    pub fn set_scan_number(&mut self, scan_number: u32)
        requires
            old(self).wf(),
        ensures
            final(self).wf(),
            final(self).spec_scan() == (ScanInfo { scan_number, ..old(self).spec_scan() }),
            final(self).spec_peaks() == old(self).spec_peaks(),
            final(self).spec_sorted() == old(self).spec_sorted(),
            final(self).spec_level() == old(self).spec_level(),
            final(self).spec_precursor() == old(self).spec_precursor(),
            final(self).spec_additional_info() == old(self).spec_additional_info(),
    {
        self.scan.scan_number = scan_number;
    }

    /// Sets the retention time; a negative or non-finite time is refused.
    pub fn set_retention_time(&mut self, retention_time: u64) -> (r: Result<(), CoreError>)
        requires
            old(self).wf(),
        ensures
            final(self).wf(),
            !accepted(retention_time) ==> r == Err::<(), CoreError>(
                CoreError::InvalidRetentionTime { rt: retention_time },
            ) && final(self).spec_scan() == old(self).spec_scan(),
            accepted(retention_time) ==> r is Ok && final(self).spec_scan() == (ScanInfo {
                retention_time: normalized(retention_time),
                ..old(self).spec_scan()
            }),
            final(self).spec_peaks() == old(self).spec_peaks(),
            final(self).spec_sorted() == old(self).spec_sorted(),
            final(self).spec_level() == old(self).spec_level(),
            final(self).spec_precursor() == old(self).spec_precursor(),
            final(self).spec_additional_info() == old(self).spec_additional_info(),
    {
        let t = normalize(retention_time);
        if t >= POSITIVE_INFINITY {
            return Err(CoreError::InvalidRetentionTime { rt: retention_time });
        }
        self.scan.retention_time = t;
        Ok(())
    }

    /// Sets the drift time; a negative or non-finite time is refused.
    pub fn set_drift_time(&mut self, drift_time: u64) -> (r: Result<(), CoreError>)
        requires
            old(self).wf(),
        ensures
            final(self).wf(),
            !accepted(drift_time) ==> r == Err::<(), CoreError>(
                CoreError::InvalidDriftTime { dt: drift_time },
            ) && final(self).spec_scan() == old(self).spec_scan(),
            accepted(drift_time) ==> r is Ok && final(self).spec_scan() == (ScanInfo {
                drift_time: normalized(drift_time),
                ..old(self).spec_scan()
            }),
            final(self).spec_peaks() == old(self).spec_peaks(),
            final(self).spec_sorted() == old(self).spec_sorted(),
            final(self).spec_level() == old(self).spec_level(),
            final(self).spec_precursor() == old(self).spec_precursor(),
            final(self).spec_additional_info() == old(self).spec_additional_info(),
    {
        let t = normalize(drift_time);
        if t >= POSITIVE_INFINITY {
            return Err(CoreError::InvalidDriftTime { dt: drift_time });
        }
        self.scan.drift_time = t;
        Ok(())
    }

    /// Adds a metadata entry; a key that is already present is refused.
    pub fn add_additional_info(&mut self, key: String, value: String) -> (r: Result<(), CoreError>)
        requires
            old(self).wf(),
        ensures
            final(self).wf(),
            final(self).spec_scan() == old(self).spec_scan(),
            final(self).spec_precursor() == old(self).spec_precursor(),
            has_key(old(self).spec_additional_info(), key@) ==> (r matches Err(
                CoreError::DuplicateKey { key: k },
            ) && k@ == key@ && final(self).spec_additional_info() == old(self).spec_additional_info()),
            !has_key(old(self).spec_additional_info(), key@) ==> (r is Ok
                && final(self).spec_additional_info().len() == old(self).spec_additional_info().len() + 1
                && final(self).spec_additional_info().drop_last() == old(self).spec_additional_info()
                && final(self).spec_additional_info().last().key@ == key@
                && final(self).spec_additional_info().last().value@ == value@),
            final(self).spec_peaks() == old(self).spec_peaks(),
            final(self).spec_sorted() == old(self).spec_sorted(),
            final(self).spec_level() == old(self).spec_level(),
    {
        match find_key(&self.additional_info, key.as_str()) {
            Some(_) => Err(CoreError::DuplicateKey { key }),
            None => {
                let ghost before = self.additional_info@;
                self.additional_info.push(KeyValue { key, value });
                assert(self.additional_info@.drop_last() =~= before);
                Ok(())
            },
        }
    }

    /// The value stored under `key`.
    pub fn get_additional_info(&self, key: &str) -> (r: Option<&str>)
        ensures
            match r {
                Some(v) => exists|i: int|
                    0 <= i < self.spec_additional_info().len() && #[trigger] self.spec_additional_info()[i].key@
                        == key@ && self.spec_additional_info()[i].value@ == v@,
                None => !has_key(self.spec_additional_info(), key@),
            },
    {
        match find_key(&self.additional_info, key) {
            Some(i) => {
                let v = self.additional_info[i].value.as_str();
                assert(self.spec_additional_info()[i as int].key@ == key@);
                Some(v)
            },
            None => None,
        }
    }

    /// Removes all metadata entries.
    pub fn clear_additional_info(&mut self)
        requires
            old(self).wf(),
        ensures
            final(self).wf(),
            final(self).spec_scan() == old(self).spec_scan(),
            final(self).spec_precursor() == old(self).spec_precursor(),
            final(self).spec_additional_info().len() == 0,
            final(self).spec_peaks() == old(self).spec_peaks(),
            final(self).spec_sorted() == old(self).spec_sorted(),
            final(self).spec_level() == old(self).spec_level(),
    {
        self.additional_info.clear();
    }

    /// Removes the peaks whose intensity lies below `threshold`, keeping the
    /// others in order, and returns how many were removed. The sortedness
    /// flag is cleared, as after every change of the peaks.
    pub fn filter_by_intensity(&mut self, threshold: u64) -> (r: usize)
        requires
            old(self).wf(),
        ensures
            final(self).wf(),
            final(self).spec_scan() == old(self).spec_scan(),
            final(self).spec_precursor() == old(self).spec_precursor(),
            !final(self).spec_sorted(),
            final(self).spec_peaks() == kept(
                old(self).spec_peaks(),
                |p: Peak| !lies_below(p.intensity, threshold),
            ),
            r == old(self).spec_peaks().len() - final(self).spec_peaks().len(),
            final(self).spec_level() == old(self).spec_level(),
            final(self).spec_additional_info() == old(self).spec_additional_info(),
    {
        let ghost keep = |p: Peak| !lies_below(p.intensity, threshold);
        let ghost all = self.peaks@;
        let mut remaining: Vec<Peak> = Vec::new();
        let mut i: usize = 0;
        while i < self.peaks.len()
            invariant
                all == self.peaks@,
                keep == (|p: Peak| !lies_below(p.intensity, threshold)),
                i <= all.len(),
                all_measures(all),
                remaining@ == kept(all.take(i as int), keep),
                remaining@.len() <= i,
                all_measures(remaining@),
            decreases all.len() - i,
        {
            let p = self.peaks[i];
            assert(all.take(i + 1).drop_last() =~= all.take(i as int));
            assert(all.take(i + 1).last() == p);
            assert(all[i as int] == p);
            let ghost before = remaining@;
            if !below(p.intensity, threshold) {
                remaining.push(p);
                assert(keep(p));
            } else {
                assert(!keep(p));
            }
            assert(forall|j: int| 0 <= j < before.len() ==> remaining@[j] == before[j]);
            i = i + 1;
        }
        assert(all.take(i as int) =~= all);
        let removed = self.peaks.len() - remaining.len();
        self.peaks = remaining;
        self.sorted = false;
        removed
    }

    /// Removes the peaks whose m/z lies outside `[min_mz, max_mz]`, keeping
    /// the others in order, and returns how many were removed. The
    /// sortedness flag is cleared, as after every change of the peaks.
    pub fn filter_by_mz_range(&mut self, min_mz: u64, max_mz: u64) -> (r: usize)
        requires
            old(self).wf(),
        ensures
            final(self).wf(),
            final(self).spec_scan() == old(self).spec_scan(),
            final(self).spec_precursor() == old(self).spec_precursor(),
            !final(self).spec_sorted(),
            final(self).spec_peaks() == kept(
                old(self).spec_peaks(),
                |p: Peak| in_window(p.mz, min_mz, max_mz),
            ),
            r == old(self).spec_peaks().len() - final(self).spec_peaks().len(),
            final(self).spec_level() == old(self).spec_level(),
            final(self).spec_additional_info() == old(self).spec_additional_info(),
    {
        let ghost keep = |p: Peak| in_window(p.mz, min_mz, max_mz);
        let ghost all = self.peaks@;
        let mut remaining: Vec<Peak> = Vec::new();
        let mut i: usize = 0;
        while i < self.peaks.len()
            invariant
                all == self.peaks@,
                keep == (|p: Peak| in_window(p.mz, min_mz, max_mz)),
                i <= all.len(),
                all_measures(all),
                remaining@ == kept(all.take(i as int), keep),
                remaining@.len() <= i,
                all_measures(remaining@),
            decreases all.len() - i,
        {
            let p = self.peaks[i];
            assert(all.take(i + 1).drop_last() =~= all.take(i as int));
            assert(all.take(i + 1).last() == p);
            assert(all[i as int] == p);
            let ghost before = remaining@;
            if !below(p.mz, min_mz) && at_most(p.mz, max_mz) {
                remaining.push(p);
                assert(keep(p));
            } else {
                assert(!keep(p));
            }
            assert(forall|j: int| 0 <= j < before.len() ==> remaining@[j] == before[j]);
            i = i + 1;
        }
        assert(all.take(i as int) =~= all);
        let removed = self.peaks.len() - remaining.len();
        self.peaks = remaining;
        self.sorted = false;
        removed
    }

    /// Removes every peak; an empty list counts as sorted.
    pub fn clear_peaks(&mut self)
        requires
            old(self).wf(),
        ensures
            final(self).wf(),
            final(self).spec_scan() == old(self).spec_scan(),
            final(self).spec_precursor() == old(self).spec_precursor(),
            final(self).spec_peaks().len() == 0,
            final(self).spec_sorted(),
            final(self).spec_level() == old(self).spec_level(),
            final(self).spec_additional_info() == old(self).spec_additional_info(),
    {
        self.peaks.clear();
        self.sorted = true;
    }
}

impl Default for Spectrum {
    /// An empty level-1 spectrum.
    fn default() -> (r: Spectrum)
        ensures
            r.wf(),
            r.spec_level() == 1,
            r.spec_peaks().len() == 0,
            r.spec_sorted(),
            r.spec_precursor() is None,
            r.spec_additional_info().len() == 0,
    {
        Spectrum {
            peaks: Vec::new(),
            sorted: true,
            level: 1,
            scan: ScanInfo::new(),
            precursor: None,
            additional_info: Vec::new(),
        }
    }
}

} // verus!
