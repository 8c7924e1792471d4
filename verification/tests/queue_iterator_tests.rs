use my_service_bus_shared::QueueWithIntervals;
use my_service_bus_shared::QueueWithIntervalsIterator;

#[test]
fn test_iter() {
    let mut queue = QueueWithIntervals::new();

    let _ = queue.enqueue(5);
    let _ = queue.enqueue(6);

    let mut result: Vec<i64> = Vec::new();
    let mut it = QueueWithIntervalsIterator::new(queue);
    while let Some(id) = it.next() {
        result.push(id);
    }

    assert_eq!(2, result.len());
    assert_eq!(5, result[0]);
    assert_eq!(6, result[1]);
}
