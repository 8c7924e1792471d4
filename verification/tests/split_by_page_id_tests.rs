use my_service_bus_shared::QueueIndexRange;
use my_service_bus_shared::QueueWithIntervals;
use my_service_bus_shared::SplittedByPageId;
use my_service_bus_shared::SplittedByPageIdIterator;

fn collect_splits(src: &QueueWithIntervals) -> Vec<SplittedByPageId> {
    let mut iterator = SplittedByPageIdIterator::new(src);
    let mut result = Vec::new();
    while let Some(item) = iterator.next() {
        result.push(item);
    }
    result
}

#[test]
fn test_both_on_the_same_page() {
    let src = QueueWithIntervals::from_single_interval(100, 200);

    let result = collect_splits(&src);

    assert_eq!(1, result.len());
    assert_eq!(0, result[0].page_id.get_value());

    assert_eq!(100, result[0].ids.intervals[0].from_id);
    assert_eq!(200, result[0].ids.intervals[0].to_id);
}

#[test]
fn test_we_are_jumping_behind_the_page() {
    let src = QueueWithIntervals::from_single_interval(99998, 100002);

    let result = collect_splits(&src);

    assert_eq!(2, result.len());
    assert_eq!(0, result[0].page_id.get_value());
    assert_eq!(1, result[1].page_id.get_value());

    assert_eq!(99998, result[0].ids.intervals[0].from_id);
    assert_eq!(99999, result[0].ids.intervals[0].to_id);

    assert_eq!(100000, result[1].ids.intervals[0].from_id);
    assert_eq!(100002, result[1].ids.intervals[0].to_id);
}

#[test]
fn test_we_are_jumping_behind_the_page_2() {
    let mut src = QueueWithIntervals::from_single_interval(99_998, 100_002);

    src.intervals.push(QueueIndexRange {
        from_id: 100_010,
        to_id: 100_020,
    });

    src.intervals.push(QueueIndexRange {
        from_id: 199_990,
        to_id: 200_020,
    });

    let result = collect_splits(&src);

    assert_eq!(3, result.len());
    assert_eq!(0, result[0].page_id.get_value());
    assert_eq!(1, result[1].page_id.get_value());
    assert_eq!(2, result[2].page_id.get_value());

    assert_eq!(99_998, result[0].ids.intervals[0].from_id);
    assert_eq!(99_999, result[0].ids.intervals[0].to_id);

    assert_eq!(100_000, result[1].ids.intervals[0].from_id);
    assert_eq!(100_002, result[1].ids.intervals[0].to_id);

    assert_eq!(100_010, result[1].ids.intervals[1].from_id);
    assert_eq!(100_020, result[1].ids.intervals[1].to_id);

    assert_eq!(199_990, result[1].ids.intervals[2].from_id);
    assert_eq!(199_999, result[1].ids.intervals[2].to_id);

    assert_eq!(200_000, result[2].ids.intervals[0].from_id);
    assert_eq!(200_020, result[2].ids.intervals[0].to_id);
}
