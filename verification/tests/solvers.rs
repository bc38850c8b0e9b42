use interval_scheduling::sorted;
use interval_scheduling::unsorted;
use interval_scheduling::WeightedInterval;

fn wi(start: u64, end: u64, weight: u64) -> WeightedInterval {
    WeightedInterval { start, end, weight }
}

/// Largest total weight of any pairwise non-overlapping subset, by
/// exhaustive enumeration.
fn brute_force_best(intervals: &[WeightedInterval]) -> u64 {
    let n = intervals.len();
    assert!(n <= 16);
    let mut best: u64 = 0;
    for mask in 0u32..(1u32 << n) {
        let mut ok = true;
        let mut sum: u64 = 0;
        for a in 0..n {
            if mask & (1 << a) == 0 {
                continue;
            }
            sum += intervals[a].weight;
            for b in (a + 1)..n {
                if mask & (1 << b) == 0 {
                    continue;
                }
                let x = &intervals[a];
                let y = &intervals[b];
                if x.start < y.end && y.start < x.end {
                    ok = false;
                }
            }
        }
        if ok && sum > best {
            best = sum;
        }
    }
    best
}

#[test]
fn small_example() {
    let intervals = vec![
        WeightedInterval { start: 0, end: 6, weight: 3 },
        WeightedInterval { start: 1, end: 4, weight: 5 },
        WeightedInterval { start: 3, end: 5, weight: 5 },
        WeightedInterval { start: 3, end: 8, weight: 8 },
        WeightedInterval { start: 4, end: 7, weight: 3 },
        WeightedInterval { start: 5, end: 9, weight: 7 },
        WeightedInterval { start: 6, end: 10, weight: 3 },
        WeightedInterval { start: 8, end: 11, weight: 4 },
    ];

    let mut optimal_set = unsorted(&intervals);
    optimal_set.reverse();

    assert_eq!(optimal_set.len(), 2);

    assert_eq!(optimal_set[0].weight, intervals[1].weight);
    assert_eq!(optimal_set[0].start, intervals[1].start);
    assert_eq!(optimal_set[0].end, intervals[1].end);

    assert_eq!(optimal_set[1].weight, intervals[5].weight);
    assert_eq!(optimal_set[1].start, intervals[5].start);
    assert_eq!(optimal_set[1].end, intervals[5].end);
}

#[test]
fn empty() {
    let intervals: Vec<WeightedInterval> = vec![];

    let optimal_set = unsorted(&intervals);
    assert_eq!(optimal_set.len(), 0);
}

#[test]
fn single() {
    let intervals = vec![WeightedInterval { start: 0, end: 128, weight: 15 }];

    let optimal_set = unsorted(&intervals);
    assert_eq!(optimal_set.len(), 1);
    assert_eq!(optimal_set[0].start, 0);
    assert_eq!(optimal_set[0].end, 128);
    assert_eq!(optimal_set[0].weight, 15);
}

#[test]
fn empty_presorted_touches_no_buffer() {
    let intervals: Vec<WeightedInterval> = vec![];
    let mut memo: Vec<u64> = vec![77, 88];
    let mut soln: Vec<WeightedInterval> = vec![wi(9, 10, 1)];

    sorted(&intervals, &mut memo, &mut soln);

    assert_eq!(memo, vec![77, 88]);
    assert_eq!(soln.len(), 1);
    assert_eq!(soln[0], wi(9, 10, 1));
}

#[test]
fn single_presorted() {
    let intervals = vec![wi(2, 5, 9)];
    let mut memo: Vec<u64> = vec![0];
    let mut soln: Vec<WeightedInterval> = vec![];

    sorted(&intervals, &mut memo, &mut soln);

    assert_eq!(soln, vec![wi(2, 5, 9)]);
    assert_eq!(memo[0], 9);
}

#[test]
fn presorted_scenario() {
    // already sorted non-decreasing by end bound
    let intervals = vec![
        wi(1, 4, 5),
        wi(3, 5, 5),
        wi(0, 6, 3),
        wi(4, 7, 3),
        wi(3, 8, 8),
        wi(5, 9, 7),
        wi(6, 10, 3),
        wi(8, 11, 4),
    ];
    let mut memo: Vec<u64> = vec![0; 8];
    let mut soln: Vec<WeightedInterval> = vec![];

    sorted(&intervals, &mut memo, &mut soln);

    // reconstruction order: latest end bound first
    assert_eq!(soln, vec![wi(5, 9, 7), wi(1, 4, 5)]);
    let achieved: u64 = soln.iter().map(|i| i.weight).sum();
    assert_eq!(achieved, 12);
    assert_eq!(memo[7], 12);
    assert_eq!(achieved, brute_force_best(&intervals));
}

#[test]
fn extended_scenario() {
    // the touching pair (0,1) / (1,4) makes room for one more interval
    let intervals = vec![
        wi(0, 1, 2),
        wi(0, 6, 3),
        wi(1, 4, 5),
        wi(3, 5, 5),
        wi(3, 8, 8),
        wi(4, 7, 3),
        wi(5, 9, 7),
        wi(6, 10, 3),
        wi(8, 11, 4),
    ];

    let optimal_set = unsorted(&intervals);

    assert_eq!(optimal_set, vec![wi(5, 9, 7), wi(1, 4, 5), wi(0, 1, 2)]);
    let achieved: u64 = optimal_set.iter().map(|i| i.weight).sum();
    assert_eq!(achieved, 14);
    assert_eq!(achieved, brute_force_best(&intervals));
}

#[test]
fn tie_break_excludes_later() {
    // taking (0,7) alone and taking (0,3)+(3,6) both weigh 10:
    // on the tie, the later-ending interval is excluded
    let intervals = vec![wi(0, 3, 5), wi(3, 6, 5), wi(0, 7, 10)];

    let optimal_set = unsorted(&intervals);

    assert_eq!(optimal_set, vec![wi(3, 6, 5), wi(0, 3, 5)]);
}

#[test]
fn touching_intervals_are_compatible() {
    let intervals = vec![wi(0, 4, 1), wi(4, 8, 1), wi(8, 12, 1)];

    let optimal_set = unsorted(&intervals);

    assert_eq!(optimal_set.len(), 3);
    let achieved: u64 = optimal_set.iter().map(|i| i.weight).sum();
    assert_eq!(achieved, 3);
}

#[test]
fn amortized_solves_are_idempotent() {
    let intervals = vec![wi(1, 4, 5), wi(3, 5, 5), wi(2, 6, 9), wi(5, 9, 7)];
    let mut memo: Vec<u64> = vec![0; 4];
    let mut soln: Vec<WeightedInterval> = vec![];

    sorted(&intervals, &mut memo, &mut soln);
    let first = soln.clone();
    let memo_first = memo.clone();

    soln.clear();
    sorted(&intervals, &mut memo, &mut soln);

    assert_eq!(soln, first);
    assert_eq!(memo, memo_first);
}

#[test]
fn buffers_are_reused_and_appended() {
    let intervals = vec![wi(0, 2, 4), wi(1, 3, 1)];
    // stale contents need not be cleared, and entries past the interval
    // count are left alone
    let mut memo: Vec<u64> = vec![91, 92, 93, 94];
    let mut soln: Vec<WeightedInterval> = vec![wi(70, 80, 6)];

    sorted(&intervals, &mut memo, &mut soln);

    assert_eq!(memo, vec![4, 4, 93, 94]);
    assert_eq!(soln, vec![wi(70, 80, 6), wi(0, 2, 4)]);
}

#[test]
fn brute_force_agreement() {
    let intervals = vec![
        wi(2, 3, 4),
        wi(0, 5, 9),
        wi(3, 7, 2),
        wi(3, 9, 6),
        wi(7, 10, 3),
        wi(1, 11, 7),
        wi(9, 12, 5),
        wi(10, 13, 1),
        wi(0, 14, 8),
        wi(12, 15, 2),
    ];

    let optimal_set = unsorted(&intervals);

    let achieved: u64 = optimal_set.iter().map(|i| i.weight).sum();
    assert_eq!(achieved, brute_force_best(&intervals));
    // no two selected intervals overlap
    for a in 0..optimal_set.len() {
        for b in (a + 1)..optimal_set.len() {
            let x = &optimal_set[a];
            let y = &optimal_set[b];
            assert!(!(x.start < y.end && y.start < x.end));
        }
    }
}
