use msdata::error::CoreError;
use msdata::spectrum::{KeyValue, Peak, PrecursorInfo, Spectrum, Window};

fn b(v: f64) -> u64 {
    v.to_bits()
}

fn total_ion_current(s: &Spectrum) -> f64 {
    s.peaks().iter().map(|p| f64::from_bits(p.intensity)).sum()
}

fn mzs(s: &Spectrum) -> Vec<f64> {
    s.peaks().iter().map(|p| f64::from_bits(p.mz)).collect()
}

#[test]
fn spectrum_test_spectrum_creation() {
    let spectrum = Spectrum::ms1().unwrap();
    assert_eq!(spectrum.level(), 1);
    assert!(spectrum.peaks().is_empty());
    assert!(!spectrum.has_precursor());
}

#[test]
fn test_spectrum_test_spectrum_creation() {
    let spectrum = Spectrum::ms1().unwrap();
    assert_eq!(spectrum.level(), 1);
    assert_eq!(spectrum.peaks().len(), 0);
}

#[test]
fn levels_outside_one_to_ten_are_refused() {
    assert_eq!(Spectrum::new(0).unwrap_err(), CoreError::InvalidMSLevel { level: 0, min: 1, max: 10 });
    assert_eq!(Spectrum::new(11).unwrap_err(), CoreError::InvalidMSLevel { level: 11, min: 1, max: 10 });
    assert_eq!(Spectrum::new(10).unwrap().level(), 10);
    assert!(Spectrum::ms2().unwrap().is_ms2());
    assert!(!Spectrum::ms2().unwrap().is_ms1());
}

#[test]
fn test_add_peaks() {
    let mut spectrum = Spectrum::ms1().unwrap();
    spectrum.add_peak(b(100.0), b(1000.0)).unwrap();
    spectrum.add_peak(b(200.0), b(2000.0)).unwrap();
    assert_eq!(spectrum.peak_count(), 2);
    assert_eq!(total_ion_current(&spectrum), 3000.0);
}

#[test]
fn test_peak_addition() {
    let mut spectrum = Spectrum::ms1().unwrap();
    spectrum.add_peak(b(100.0), b(1000.0)).unwrap();
    spectrum.add_peak(b(200.0), b(2000.0)).unwrap();
    assert_eq!(spectrum.peaks().len(), 2);
    assert_eq!(spectrum.peaks()[0], Peak::new(b(100.0), b(1000.0)));
    assert_eq!(spectrum.peaks()[1], Peak::new(b(200.0), b(2000.0)));
}

#[test]
fn base_peak_of_two_peaks() {
    let mut spectrum = Spectrum::new(1).unwrap();
    spectrum.add_peak(b(100.0), b(1000.0)).unwrap();
    spectrum.add_peak(b(200.0), b(2000.0)).unwrap();
    assert_eq!(total_ion_current(&spectrum), 3000.0);
    assert_eq!(spectrum.base_peak(), Some(Peak::new(b(200.0), b(2000.0))));
}

#[test]
fn test_basic_operations() {
    let mut spectrum = Spectrum::ms1().unwrap();
    spectrum.add_peak(b(100.0), b(1000.0)).unwrap();
    spectrum.add_peak(b(200.0), b(2000.0)).unwrap();
    spectrum.add_peak(b(300.0), b(1500.0)).unwrap();
    assert_eq!(total_ion_current(&spectrum), 4500.0);
    assert_eq!(spectrum.base_peak(), Some(Peak::new(b(200.0), b(2000.0))));
    assert_eq!(spectrum.peak_count(), 3);
}

#[test]
fn base_peak_takes_first_of_equal_maxima_and_none_when_empty() {
    let mut spectrum = Spectrum::ms1().unwrap();
    assert_eq!(spectrum.base_peak(), None);
    spectrum.add_peak(b(300.0), b(500.0)).unwrap();
    spectrum.add_peak(b(100.0), b(500.0)).unwrap();
    assert_eq!(spectrum.base_peak(), Some(Peak::new(b(300.0), b(500.0))));
}

#[test]
fn test_scan_info() {
    let mut spectrum = Spectrum::ms1().unwrap();
    spectrum.set_scan_number(12345);
    spectrum.set_retention_time(b(60.5)).unwrap();
    spectrum.set_drift_time(b(12.3)).unwrap();
    assert_eq!(spectrum.scan().scan_number, 12345);
    assert_eq!(f64::from_bits(spectrum.scan().retention_time), 60.5);
    assert_eq!(f64::from_bits(spectrum.scan().drift_time), 12.3);
}

#[test]
fn negative_times_are_refused() {
    let mut spectrum = Spectrum::ms1().unwrap();
    assert_eq!(
        spectrum.set_retention_time(b(-1.0)),
        Err(CoreError::InvalidRetentionTime { rt: b(-1.0) })
    );
    assert_eq!(spectrum.set_drift_time(b(f64::NAN)), Err(CoreError::InvalidDriftTime { dt: b(f64::NAN) }));
    assert_eq!(spectrum.scan().retention_time, 0);
    spectrum.set_retention_time(b(-0.0)).unwrap();
    assert_eq!(spectrum.scan().retention_time, 0);
}

#[test]
fn test_sort_peaks() {
    let mut spectrum = Spectrum::ms1().unwrap();
    spectrum.add_peak(b(200.0), b(2000.0)).unwrap();
    spectrum.add_peak(b(100.0), b(1000.0)).unwrap();
    spectrum.sort_peaks();
    assert_eq!(f64::from_bits(spectrum.peaks()[0].mz), 100.0);
    assert_eq!(f64::from_bits(spectrum.peaks()[1].mz), 200.0);
}

#[test]
fn test_peak_sorting() {
    let mut spectrum = Spectrum::ms1().unwrap();
    spectrum.add_peak(b(300.0), b(1500.0)).unwrap();
    spectrum.add_peak(b(100.0), b(1000.0)).unwrap();
    spectrum.add_peak(b(200.0), b(2000.0)).unwrap();
    // Peaks keep insertion order until sorted explicitly.
    assert_eq!(mzs(&spectrum), vec![300.0, 100.0, 200.0]);
    spectrum.sort_peaks();
    assert_eq!(f64::from_bits(spectrum.peaks()[0].mz), 100.0);
    assert_eq!(f64::from_bits(spectrum.peaks()[1].mz), 200.0);
    assert_eq!(f64::from_bits(spectrum.peaks()[2].mz), 300.0);
}

#[test]
fn sorting_keeps_every_peak_and_orders_neighbours() {
    let mut spectrum = Spectrum::ms1().unwrap();
    let values = [5.5, 0.0, 1000.25, 3.0, 3.0, 1e-300, 77.0];
    for (i, v) in values.iter().enumerate() {
        spectrum.add_peak(b(*v), b(i as f64)).unwrap();
    }
    assert!(!spectrum.is_sorted());
    spectrum.sort_peaks();
    assert!(spectrum.is_sorted());
    let sorted = mzs(&spectrum);
    for w in sorted.windows(2) {
        assert!(w[0] <= w[1]);
    }
    let mut expected = values.to_vec();
    expected.sort_by(|a, c| a.partial_cmp(c).unwrap());
    assert_eq!(sorted, expected);
    // the two peaks at 3.0 keep their insertion order
    assert_eq!(spectrum.peaks()[2].intensity, b(3.0));
    assert_eq!(spectrum.peaks()[3].intensity, b(4.0));
}

#[test]
fn test_mz_range() {
    let mut spectrum = Spectrum::ms1().unwrap();
    assert!(spectrum.mz_range().is_none());
    spectrum.add_peak(b(100.0), b(1000.0)).unwrap();
    spectrum.add_peak(b(200.0), b(2000.0)).unwrap();
    let (start, end) = spectrum.mz_range().unwrap();
    assert_eq!(f64::from_bits(start), 100.0);
    assert_eq!(f64::from_bits(end), 200.0);
}

#[test]
fn mz_range_ignores_order() {
    let mut spectrum = Spectrum::ms1().unwrap();
    for v in [50.0, 10.0, 90.0, 20.0] {
        spectrum.add_peak(b(v), b(1.0)).unwrap();
    }
    assert_eq!(spectrum.mz_range(), Some((b(10.0), b(90.0))));
}

#[test]
fn test_validation() {
    let mut spectrum = Spectrum::ms1().unwrap();
    assert!(spectrum.validate().is_err());
    spectrum.add_peak(b(100.0), b(1000.0)).unwrap();
    assert!(spectrum.validate().is_ok());
    // A negative peak is refused when added, so it never reaches validation.
    assert!(spectrum.add_peak(b(-1.0), b(1000.0)).is_err());
    assert!(spectrum.validate().is_ok());
}

#[test]
fn invalid_peaks_are_refused() {
    let mut spectrum = Spectrum::ms1().unwrap();
    assert_eq!(spectrum.validate(), Err(CoreError::EmptyPeakList));
    assert_eq!(
        spectrum.add_peak(b(100.0), b(-5.0)),
        Err(CoreError::InvalidPeakData { mz: b(100.0), intensity: b(-5.0) })
    );
    assert!(spectrum.add_peak(b(f64::INFINITY), b(1.0)).is_err());
    assert!(spectrum.add_peak(b(f64::NAN), b(1.0)).is_err());
    assert_eq!(spectrum.peak_count(), 0);
    spectrum.add_peak(b(-0.0), b(0.0)).unwrap();
    assert_eq!(spectrum.peaks()[0], Peak::new(0, 0));
}

#[test]
fn add_peaks_stops_at_first_invalid() {
    let mut spectrum = Spectrum::ms1().unwrap();
    let peaks = vec![
        Peak::new(b(1.0), b(1.0)),
        Peak::new(b(2.0), b(2.0)),
        Peak::new(b(-3.0), b(3.0)),
        Peak::new(b(4.0), b(4.0)),
    ];
    assert_eq!(
        spectrum.add_peaks(&peaks),
        Err(CoreError::InvalidPeakData { mz: b(-3.0), intensity: b(3.0) })
    );
    assert_eq!(mzs(&spectrum), vec![1.0, 2.0]);
    assert!(!spectrum.is_sorted());
}

#[test]
fn find_peak_range_needs_sorted_peaks() {
    let mut spectrum = Spectrum::ms1().unwrap();
    for v in [300.0, 100.0, 200.0, 150.0] {
        spectrum.add_peak(b(v), b(1.0)).unwrap();
    }
    assert_eq!(spectrum.find_peak_range(b(100.0), b(200.0)), None);
    spectrum.sort_peaks();
    assert_eq!(spectrum.find_peak_range(b(100.0), b(200.0)), Some((0, 3)));
    assert_eq!(spectrum.find_peak_range(b(120.0), b(160.0)), Some((1, 2)));
    assert_eq!(spectrum.find_peak_range(b(400.0), b(500.0)), None);
    assert_eq!(spectrum.find_peak_range(b(-10.0), b(100.0)), Some((0, 1)));
    assert_eq!(spectrum.find_peak_range(b(200.0), b(100.0)), None);
    spectrum.add_peak(b(250.0), b(1.0)).unwrap();
    assert_eq!(spectrum.find_peak_range(b(100.0), b(200.0)), None);
    spectrum.clear_peaks();
    assert!(spectrum.is_sorted());
    assert_eq!(spectrum.find_peak_range(b(100.0), b(200.0)), None);
}

#[test]
fn duplicate_metadata_keys_are_refused() {
    let mut spectrum = Spectrum::ms1().unwrap();
    spectrum.add_additional_info("instrument".to_string(), "orbitrap".to_string()).unwrap();
    assert_eq!(
        spectrum.add_additional_info("instrument".to_string(), "tof".to_string()),
        Err(CoreError::DuplicateKey { key: "instrument".to_string() })
    );
    assert_eq!(spectrum.get_additional_info("instrument"), Some("orbitrap"));
    assert_eq!(spectrum.get_additional_info("missing"), None);
    spectrum.clear_additional_info();
    assert_eq!(spectrum.get_additional_info("instrument"), None);
}

#[test]
fn precursor_can_be_set_and_cleared() {
    let mut spectrum = Spectrum::ms2().unwrap();
    spectrum.set_precursor(PrecursorInfo {
        ref_scan_number: 7,
        mz: b(500.0),
        intensity: b(1000.0),
        charge: 2,
        activation_method: "CID".to_string(),
        activation_energy: b(35.0),
        isolation_window: Window { lower: b(499.0), upper: b(501.0) },
    });
    assert!(spectrum.has_precursor());
    assert_eq!(spectrum.precursor().unwrap().charge, 2);
    spectrum.clear_precursor();
    assert!(!spectrum.has_precursor());
}

#[test]
fn test_key_value() {
    let kv = KeyValue::new("test", "value");
    assert_eq!(kv.key, "test");
    assert_eq!(kv.value, "value");
}

#[test]
fn filters_keep_order_and_clear_the_flag() {
    let mut spectrum = Spectrum::ms1().unwrap();
    for (m, i) in [(100.0, 5.0), (150.0, 50.0), (200.0, 500.0), (250.0, 0.5)] {
        spectrum.add_peak(b(m), b(i)).unwrap();
    }
    spectrum.sort_peaks();
    assert_eq!(spectrum.filter_by_intensity(b(5.0)), 1);
    assert!(!spectrum.is_sorted());
    assert_eq!(mzs(&spectrum), vec![100.0, 150.0, 200.0]);
    assert_eq!(spectrum.filter_by_mz_range(b(120.0), b(200.0)), 1);
    assert_eq!(mzs(&spectrum), vec![150.0, 200.0]);
    assert_eq!(spectrum.filter_by_mz_range(b(300.0), b(100.0)), 2);
    assert_eq!(spectrum.peak_count(), 0);
}
