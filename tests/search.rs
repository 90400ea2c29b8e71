use msdata::index::BinnedSpectraIndex;
use msdata::search::BinnedSpectra;
use msdata::spectrum::{Peak, Spectrum};
use msdata::xic::XICSExtractor;

fn b(v: f64) -> u64 {
    v.to_bits()
}

fn spectrum(level: u8, peaks: &[(f64, f64)]) -> Spectrum {
    let mut s = Spectrum::new(level).unwrap();
    for (m, i) in peaks {
        s.add_peak(b(*m), b(*i)).unwrap();
    }
    s
}

fn bounds(lo: f64, width: f64, n: usize) -> Vec<u64> {
    (0..=n).map(|i| b(lo + i as f64 * width)).collect()
}

#[test]
fn test_binned_index() {
    let s1 = spectrum(1, &[(100.5, 1000.0), (200.5, 2000.0)]);
    let s2 = spectrum(2, &[(150.5, 1500.0)]);
    // extent 100.5..200.5 at width 50 gives two bins
    let index = BinnedSpectraIndex::from_bounds(vec![s1, s2], bounds(100.5, 50.0, 2));
    assert_eq!(index.spectrum_count(), 2);
    assert_eq!(index.total_peak_count(), 3);
    assert_eq!(index.bin_count(), 2);
    let results = index.search_range(b(90.0), b(110.0));
    assert_eq!(results.len(), 1);
    assert_eq!(f64::from_bits(results[0].mz), 100.5);
    assert_eq!(results[0], Peak::new(b(100.5), b(1000.0)));
}

#[test]
fn test_binned_spectra_creation() {
    let _binned = BinnedSpectra::from_spectra(&Vec::new(), bounds(0.0, 10.0, 1));
}

#[test]
fn test_search_range() {
    let s = spectrum(1, &[(100.0, 1000.0), (200.0, 2000.0), (300.0, 1500.0)]);
    // bins of width 10 on multiples of 10, from 100 up to past 300
    let binned = BinnedSpectra::from_spectra(&vec![s], bounds(100.0, 10.0, 21));
    let results = binned.search_range(b(90.0), b(110.0));
    assert_eq!(results.len(), 1);
    assert_eq!(f64::from_bits(results[0].mz), 100.0);
}

#[test]
fn search_matches_linear_scan() {
    let spectra = vec![
        spectrum(1, &[(101.0, 1.0), (250.0, 2.0), (180.25, 3.0), (180.25, 4.0)]),
        spectrum(1, &[]),
        spectrum(2, &[(120.0, 5.0), (299.0, 6.0), (101.0, 7.0)]),
    ];
    let all: Vec<Peak> = spectra.iter().flat_map(|s| s.peaks().clone()).collect();
    let index = BinnedSpectraIndex::from_bounds(spectra, bounds(100.0, 7.5, 40));
    let windows = [(100.0, 300.0), (101.0, 101.0), (150.0, 200.0), (0.0, 99.0), (200.0, 150.0), (-5.0, 120.0)];
    for (lo, hi) in windows {
        let mut found = index.search_range(b(lo), b(hi));
        let mut expected: Vec<Peak> = all
            .iter()
            .filter(|p| f64::from_bits(p.mz) >= lo && f64::from_bits(p.mz) <= hi)
            .cloned()
            .collect();
        found.sort_by_key(|p| (p.mz, p.intensity));
        expected.sort_by_key(|p| (p.mz, p.intensity));
        assert_eq!(found, expected, "window {lo}..{hi}");
    }
}

#[test]
fn empty_index_finds_nothing() {
    let index = BinnedSpectraIndex::empty();
    assert_eq!(index.bin_count(), 0);
    assert!(index.search_range(b(0.0), b(1000.0)).is_empty());
    let no_bins = BinnedSpectraIndex::from_bounds(vec![spectrum(1, &[(5.0, 1.0)])], vec![b(5.0)]);
    assert!(no_bins.search_range(b(0.0), b(10.0)).is_empty());
}

#[test]
fn peak_on_last_bound_is_not_indexed() {
    let s = spectrum(1, &[(100.0, 1.0), (200.0, 2.0)]);
    let index = BinnedSpectraIndex::from_bounds(vec![s], bounds(100.0, 50.0, 2));
    assert!(index.search_range(b(190.0), b(210.0)).is_empty());
}

#[test]
fn test_xic_extractor_creation() {
    let extractor = XICSExtractor::new(b(10.0));
    assert!(!extractor.is_loaded());
    assert_eq!(f64::from_bits(extractor.ppm_tolerance()), 10.0);
}

#[test]
fn xic_points_over_ten_scans() {
    let mut spectra = Vec::new();
    for i in 0..10 {
        let mut s = spectrum(1, &[(500.0, 1000.0 * (i + 1) as f64), (600.0, 5.0)]);
        s.set_retention_time(b(i as f64 * 10.0)).unwrap();
        spectra.push(s);
    }
    spectra.push(spectrum(2, &[(500.0, 1.0)]));
    spectra.push(spectrum(3, &[(500.0, 1.0)]));
    let extractor = XICSExtractor::from_spectra(spectra, b(10.0));
    assert_eq!(extractor.ms1_count(), 10);
    assert_eq!(extractor.ms2_count(), 1);
    let tol = 500.0 * 10.0 * 1e-6;
    let points = extractor.xic_points(b(500.0 - tol), b(500.0 + tol), b(0.0), b(100.0)).unwrap();
    assert_eq!(points.len(), 10);
    for (i, p) in points.iter().enumerate() {
        assert_eq!(f64::from_bits(p.rt), i as f64 * 10.0);
        assert_eq!(p.intensities, vec![b(1000.0 * (i + 1) as f64)]);
    }
    let some = extractor.xic_points(b(499.0), b(501.0), b(15.0), b(45.0)).unwrap();
    assert_eq!(some.len(), 3);
    let none = extractor.xic_points(b(700.0), b(701.0), b(0.0), b(100.0)).unwrap();
    assert!(none.is_empty());
}

#[test]
fn unloaded_extractor_refuses() {
    let extractor = XICSExtractor::new(b(10.0));
    assert!(extractor.xic_points(b(0.0), b(1.0), b(0.0), b(1.0)).is_err());
}

#[test]
fn filter_by_retention_time() {
    let mut spectra = Vec::new();
    for t in [5.0, 15.0, 25.0] {
        let mut s = spectrum(1, &[(1.0, 1.0)]);
        s.set_retention_time(b(t)).unwrap();
        spectra.push(s);
    }
    let mut extractor = XICSExtractor::new(b(10.0));
    extractor.set_ppm_tolerance(b(5.0));
    assert_eq!(f64::from_bits(extractor.ppm_tolerance()), 5.0);
    assert_eq!(extractor.filter_spectra_by_rt(&spectra, b(10.0), b(30.0)), vec![1, 2]);
    assert_eq!(extractor.filter_spectra_by_rt(&spectra, b(30.0), b(10.0)), Vec::<usize>::new());
}

#[test]
fn both_index_variants_agree() {
    let spectra = vec![
        spectrum(1, &[(101.0, 1.0), (250.0, 2.0), (180.25, 3.0)]),
        spectrum(2, &[(120.0, 5.0), (299.0, 6.0), (101.0, 7.0)]),
    ];
    let bnds = bounds(100.0, 25.0, 8);
    let flat = BinnedSpectra::from_spectra(&spectra, bnds.clone());
    let index = BinnedSpectraIndex::from_bounds(spectra, bnds);
    for (lo, hi) in [(100.0, 300.0), (101.0, 101.0), (150.0, 260.0), (0.0, 99.0), (300.0, 100.0)] {
        let mut a = index.search_range(b(lo), b(hi));
        let flat_found = flat.search_range(b(lo), b(hi));
        for w in flat_found.windows(2) {
            assert!(f64::from_bits(w[0].mz) <= f64::from_bits(w[1].mz));
        }
        let mut c = flat_found.clone();
        a.sort_by_key(|p| (p.mz, p.intensity));
        c.sort_by_key(|p| (p.mz, p.intensity));
        assert_eq!(a, c, "window {lo}..{hi}");
    }
}
