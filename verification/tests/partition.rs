use kharon::partition::{partition, ScanRange};

fn widths(ranges: &[ScanRange]) -> Vec<u128> {
    ranges.iter().map(|r| r.end - r.start + 1).collect()
}

#[test]
fn partition_of_fifty_blocks_over_three_workers() {
    let ranges = partition(101, 150, 3);
    assert_eq!(
        ranges,
        vec![
            ScanRange { start: 101, end: 117 },
            ScanRange { start: 118, end: 134 },
            ScanRange { start: 135, end: 150 },
        ]
    );
    assert_eq!(widths(&ranges), vec![17, 17, 16]);
}

#[test]
fn partition_makes_fewer_ranges_than_workers_when_blocks_are_few() {
    let ranges = partition(5, 6, 3);
    assert_eq!(
        ranges,
        vec![ScanRange { start: 5, end: 5 }, ScanRange { start: 6, end: 6 }]
    );
}

#[test]
fn partition_of_one_block_is_that_block() {
    assert_eq!(partition(9, 9, 7), vec![ScanRange { start: 9, end: 9 }]);
}

#[test]
fn partition_with_one_worker_is_the_whole_interval() {
    assert_eq!(partition(3, 40, 1), vec![ScanRange { start: 3, end: 40 }]);
}

#[test]
fn partition_divides_evenly_when_it_can() {
    assert_eq!(
        partition(1, 9, 3),
        vec![
            ScanRange { start: 1, end: 3 },
            ScanRange { start: 4, end: 6 },
            ScanRange { start: 7, end: 9 },
        ]
    );
}

#[test]
fn partition_rounds_the_chunk_up() {
    // Ten blocks over four workers: chunks of three, so four ranges, the last of one block.
    assert_eq!(widths(&partition(0, 9, 4)), vec![3, 3, 3, 1]);
    // Nine blocks over four workers: chunks of three, so only three ranges.
    assert_eq!(widths(&partition(0, 8, 4)), vec![3, 3, 3]);
}

#[test]
fn partition_reaches_the_largest_height() {
    assert_eq!(
        partition(0, u128::MAX, 1),
        vec![ScanRange { start: 0, end: u128::MAX }]
    );
    let ranges = partition(u128::MAX - 9, u128::MAX, 3);
    assert_eq!(widths(&ranges), vec![4, 4, 2]);
    assert_eq!(ranges[2].end, u128::MAX);
    let halves = partition(0, u128::MAX, 2);
    assert_eq!(halves.len(), 2);
    assert_eq!(halves[0], ScanRange { start: 0, end: u128::MAX / 2 });
    assert_eq!(halves[1], ScanRange { start: u128::MAX / 2 + 1, end: u128::MAX });
}

#[test]
fn partition_with_a_budget_beyond_the_span_gives_single_blocks() {
    let ranges = partition(10, 13, u128::MAX);
    assert_eq!(widths(&ranges), vec![1, 1, 1, 1]);
}

#[test]
fn partition_covers_the_interval_without_overlap_in_order() {
    for first in 0u128..6 {
        for last in first..first + 25 {
            for budget in 1u128..9 {
                let ranges = partition(first, last, budget);
                assert!(!ranges.is_empty());
                assert!(ranges.len() as u128 <= budget);
                assert_eq!(ranges[0].start, first);
                assert_eq!(ranges[ranges.len() - 1].end, last);
                for r in &ranges {
                    assert!(r.start <= r.end);
                }
                for pair in ranges.windows(2) {
                    assert_eq!(pair[0].end + 1, pair[1].start);
                    assert!(pair[0].start < pair[1].start);
                }
                for h in first..=last {
                    let holders = ranges.iter().filter(|r| r.holds(h)).count();
                    assert_eq!(holders, 1);
                }
                assert!(!ranges.iter().any(|r| r.holds(last + 1)));
                if first > 0 {
                    assert!(!ranges.iter().any(|r| r.holds(first - 1)));
                }
                let span = last - first + 1;
                let chunk = (span + budget - 1) / budget;
                assert!(chunk >= 1);
                for r in &ranges[..ranges.len() - 1] {
                    assert_eq!(r.end - r.start + 1, chunk);
                }
            }
        }
    }
}

#[test]
fn scan_range_is_never_empty() {
    assert_eq!(ScanRange::new(4, 4), Some(ScanRange { start: 4, end: 4 }));
    assert_eq!(ScanRange::new(4, 9), Some(ScanRange { start: 4, end: 9 }));
    assert_eq!(ScanRange::new(5, 4), None);
}

#[test]
fn scan_range_holds_its_ends_and_nothing_beyond() {
    let r = ScanRange { start: 10, end: 12 };
    assert!(!r.holds(9));
    assert!(r.holds(10));
    assert!(r.holds(11));
    assert!(r.holds(12));
    assert!(!r.holds(13));
}
