use seqstats::distribution::{sort_descending, total_length};
use seqstats::nx::{coverage_threshold, nx};

#[test]
fn n50_of_five_equal_lengths() {
    let lengths = vec![10usize, 10, 10, 10, 10];
    let sum = 50usize;
    let t50 = coverage_threshold(sum, 50);
    assert_eq!(t50, 25);
    assert_eq!(nx(&lengths, sum, t50), 10);
    let t75 = coverage_threshold(sum, 75);
    assert_eq!(t75, 37);
    assert_eq!(nx(&lengths, sum, t75), 10);
}

#[test]
fn n50_of_unbalanced_pair() {
    let lengths = vec![100usize, 1];
    let sum = 101usize;
    assert_eq!(nx(&lengths, sum, coverage_threshold(sum, 50)), 100);
    assert_eq!(nx(&lengths, sum, coverage_threshold(sum, 75)), 100);
}

#[test]
fn extreme_percentiles_give_extreme_lengths() {
    let lengths = vec![7usize, 5, 3];
    let sum = 15usize;
    let t0 = coverage_threshold(sum, 0);
    assert_eq!(t0, 0);
    assert_eq!(nx(&lengths, sum, t0), 7);
    let t100 = coverage_threshold(sum, 100);
    assert_eq!(t100, 15);
    assert_eq!(nx(&lengths, sum, t100), 3);
}

#[test]
fn nx_picks_first_element_reaching_coverage() {
    let lengths = vec![9usize, 6, 6, 2];
    let sum = 23usize;
    assert_eq!(coverage_threshold(sum, 50), 11);
    assert_eq!(nx(&lengths, sum, 11), 6);
}

#[test]
fn coverage_threshold_is_floor_of_scaled_sum() {
    assert_eq!(coverage_threshold(101, 50), 50);
    assert_eq!(coverage_threshold(50, 75), 37);
    assert_eq!(coverage_threshold(7, 90), 6);
    assert_eq!(coverage_threshold(0, 50), 0);
}

#[test]
fn sorting_orders_descending_and_is_idempotent() {
    let mut v = vec![3usize, 9, 1, 9, 4];
    sort_descending(&mut v);
    assert_eq!(v, vec![9, 9, 4, 3, 1]);
    let w = v.clone();
    sort_descending(&mut v);
    assert_eq!(v, w);
}

#[test]
fn total_length_sums_and_reports_overflow() {
    assert_eq!(total_length(&vec![2usize, 3, 4]), Some(9));
    assert_eq!(total_length(&Vec::new()), Some(0));
    assert_eq!(total_length(&vec![usize::MAX, 1]), None);
}
