use european_mc::histogram::{bin_counts, largest_count};

#[test]
fn counts_land_in_their_bins() {
    assert_eq!(bin_counts(&vec![0, 1, 1, 3], 4), Some(vec![1, 2, 0, 1]));
}

#[test]
fn positions_past_the_end_fall_in_the_last_bin() {
    assert_eq!(bin_counts(&vec![5, 2, 9, 0], 3), Some(vec![1, 0, 3]));
}

#[test]
fn no_samples_no_counts() {
    assert_eq!(bin_counts(&vec![], 2), Some(vec![0, 0]));
}

#[test]
fn counts_add_up_to_samples() {
    let raw: Vec<usize> = (0..1000).map(|i| (i * 7) % 60).collect();
    let counts = bin_counts(&raw, 50).unwrap();
    assert_eq!(counts.iter().map(|&c| c as usize).sum::<usize>(), 1000);
}

#[test]
fn largest_count_or_zero() {
    assert_eq!(largest_count(&vec![1, 5, 2]), 5);
    assert_eq!(largest_count(&vec![0, 0]), 0);
    assert_eq!(largest_count(&vec![]), 0);
}
