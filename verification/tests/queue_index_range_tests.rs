use my_service_bus_shared::QueueIndexRange;
use my_service_bus_shared::QueueIndexRangeCompare;

#[test]
fn test_queue() {
    let index_range = QueueIndexRange::new_empty(0);

    assert_eq!(index_range.len(), 0);
    assert_eq!(0, index_range.from_id);
    assert_eq!(-1, index_range.to_id);
}

#[test]
fn test_one_enqueue_one_dequeue() {
    let mut index_range = QueueIndexRange::new_empty(0);

    index_range.enqueue(0);

    assert_eq!(index_range.len(), 1);
    assert_eq!(0, index_range.from_id);
    assert_eq!(0, index_range.to_id);

    let res = index_range.dequeue();

    assert_eq!(index_range.len(), 0);
    assert_eq!(1, index_range.from_id);
    assert_eq!(0, index_range.to_id);
    assert_eq!(0, res.unwrap());
}

#[test]
fn test_two_enqueue_two_dequeue() {
    let mut index_range = QueueIndexRange::new_with_single_value(5);

    index_range.enqueue(6);

    assert_eq!(index_range.len(), 2);

    let res = index_range.dequeue();
    assert_eq!(5, res.unwrap());
    let res = index_range.dequeue();
    assert_eq!(6, res.unwrap());

    let res = index_range.dequeue();
    assert_eq!(true, res.is_none());
}

#[test]
fn test_match_case() {
    let index_range = QueueIndexRange::restore(5, 10);

    let _result = index_range.compare_with(4).unwrap();
    assert_eq!(true, matches!(QueueIndexRangeCompare::Below, _result));

    let _result = index_range.compare_with(5).unwrap();
    assert_eq!(true, matches!(QueueIndexRangeCompare::Inside, _result));

    let _result = index_range.compare_with(10).unwrap();
    assert_eq!(true, matches!(QueueIndexRangeCompare::Inside, _result));

    let _result = index_range.compare_with(11).unwrap();
    assert_eq!(true, matches!(QueueIndexRangeCompare::Above, _result));
}

#[test]
fn range_iterator_walks_all_ids() {
    let range = QueueIndexRange::restore(7, 10);
    let mut it = my_service_bus_shared::QueueIndexRangeIterator::new(&range);

    let mut seen = Vec::new();
    while let Some(id) = it.next() {
        seen.push(id);
    }

    assert_eq!(vec![7, 8, 9, 10], seen);
}
