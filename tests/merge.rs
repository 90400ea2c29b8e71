use msdata::merger::{group_starts, merge_strongest};
use msdata::spectrum::{sorted_copy, Peak};

fn b(v: f64) -> u64 {
    v.to_bits()
}

fn peaks(values: &[(f64, f64)]) -> Vec<Peak> {
    values.iter().map(|(m, i)| Peak::new(b(*m), b(*i))).collect()
}

fn joins(sorted: &[Peak], tolerance: f64) -> Vec<bool> {
    sorted
        .windows(2)
        .map(|w| f64::from_bits(w[1].mz) - f64::from_bits(w[0].mz) <= tolerance)
        .collect()
}

#[test]
fn max_intensity_merge_of_four_peaks() {
    let input = peaks(&[(100.0, 1000.0), (100.005, 800.0), (101.0, 1200.0), (200.0, 500.0)]);
    let sorted = sorted_copy(&input);
    let j = joins(&sorted, 0.01);
    assert_eq!(group_starts(sorted.len(), &j), vec![0, 2, 3]);
    let merged = merge_strongest(&sorted, &j);
    assert_eq!(merged.len(), 3);
    assert_eq!(merged[0], Peak::new(b(100.0), b(1000.0)));
    assert_eq!(merged[1], Peak::new(b(101.0), b(1200.0)));
    assert_eq!(merged[2], Peak::new(b(200.0), b(500.0)));
}

#[test]
fn merging_separated_peaks_again_changes_nothing() {
    let input = peaks(&[(100.0, 1000.0), (100.005, 800.0), (101.0, 1200.0), (200.0, 500.0)]);
    let sorted = sorted_copy(&input);
    let once = merge_strongest(&sorted, &joins(&sorted, 0.01));
    let j = joins(&once, 0.01);
    assert!(j.iter().all(|x| !x));
    assert_eq!(merge_strongest(&once, &j), once);
}

#[test]
fn chain_of_close_peaks_merges_into_one() {
    // each neighbour within 0.01, the ends 0.03 apart
    let sorted = peaks(&[(100.0, 5.0), (100.01, 9.0), (100.02, 9.0), (100.03, 1.0)]);
    let j = vec![true, true, true];
    let merged = merge_strongest(&sorted, &j);
    // the later of the two equally intense peaks is kept
    assert_eq!(merged, vec![Peak::new(b(100.02), b(9.0))]);
    assert_eq!(group_starts(4, &j), vec![0]);
}

#[test]
fn empty_and_single_inputs() {
    assert!(merge_strongest(&Vec::new(), &Vec::new()).is_empty());
    assert!(group_starts(0, &Vec::new()).is_empty());
    let one = peaks(&[(1.0, 2.0)]);
    assert_eq!(merge_strongest(&one, &Vec::new()), one);
}
