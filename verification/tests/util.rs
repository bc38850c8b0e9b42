use interval_scheduling::final_compatible;
use interval_scheduling::WeightedInterval;

fn wi(start: u64, end: u64, weight: u64) -> WeightedInterval {
    WeightedInterval { start, end, weight }
}

#[test]
fn first_index_has_no_predecessor() {
    let intervals = vec![wi(0, 2, 1), wi(1, 4, 1)];
    assert_eq!(final_compatible(&intervals, 0), None);
}

#[test]
fn touching_end_counts_as_compatible() {
    // sorted by end: ends 2, 4, 6; interval 2 starts at 4
    let intervals = vec![wi(0, 2, 1), wi(2, 4, 1), wi(4, 6, 1)];
    assert_eq!(final_compatible(&intervals, 2), Some(1));
}

#[test]
fn greatest_compatible_index_is_found() {
    // ends 1, 2, 3, 5, 9; interval 4 starts at 3: indices 0..=2 qualify
    let intervals = vec![wi(0, 1, 1), wi(0, 2, 1), wi(0, 3, 1), wi(2, 5, 1), wi(3, 9, 1)];
    assert_eq!(final_compatible(&intervals, 4), Some(2));
}

#[test]
fn no_index_compatible_reports_none() {
    // every earlier interval ends after interval 2 starts
    let intervals = vec![wi(0, 3, 1), wi(0, 4, 1), wi(1, 5, 1)];
    assert_eq!(final_compatible(&intervals, 2), None);
}

#[test]
fn builders_read_back() {
    let a = WeightedInterval::new(3, 9, 11);
    assert_eq!(a.start, 3);
    assert_eq!(a.end, 9);
    assert_eq!(a.weight, 11);

    let b: WeightedInterval = (1u64, 2u64, 5u64).into();
    assert_eq!(b, wi(1, 2, 5));
}
