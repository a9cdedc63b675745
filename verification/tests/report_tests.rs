use certus::multidev::report::interval_deltas;
use certus::multidev::report::{per_device_counts, per_device_sums};
use certus::numfmt::format_count;

#[test]
fn report_format_count_small() {
    assert_eq!(format_count(0), "0");
    assert_eq!(format_count(999), "999");
}

#[test]
fn report_format_count_with_commas() {
    assert_eq!(format_count(1_000), "1,000");
    assert_eq!(format_count(1_000_000), "1,000,000");
    assert_eq!(format_count(1_478_234), "1,478,234");
}

#[test]
fn format_count_largest() {
    assert_eq!(format_count(u64::MAX), "18,446,744,073,709,551,615");
}

#[test]
fn per_device_totals() {
    let entries = vec![(0usize, 10u64), (1, 5), (0, 7), (2, 1)];
    assert_eq!(per_device_sums(&entries, 3), vec![17, 5, 1]);
    assert_eq!(per_device_counts(&entries, 3), vec![2, 1, 1]);
    assert_eq!(per_device_sums(&entries, 4), vec![17, 5, 1, 0]);
}

#[test]
fn progress_deltas_since_last_line() {
    let mut prev = vec![10, 0, 5];
    let (d, total) = interval_deltas(&vec![15, 7, 5], &mut prev);
    assert_eq!(d, vec![5, 7, 0]);
    assert_eq!(total, 12);
    assert_eq!(prev, vec![15, 7, 5]);
}
