use my_service_bus_shared::QueueWithIntervals;

#[test]
fn test_split_beyond_left() {
    let mut queue = QueueWithIntervals::new();

    let _ = queue.enqueue(100);
    let _ = queue.enqueue(101);
    let _ = queue.enqueue(102);

    let split = queue.split(99);

    let left_q = split.0.unwrap();
    assert_eq!(100, left_q.get_min_id().unwrap());
    assert_eq!(102, left_q.get_max_id().unwrap());

    assert_eq!(true, split.1.is_none());
}

#[test]
fn test_split_beyond_right() {
    let mut queue = QueueWithIntervals::new();

    let _ = queue.enqueue(100);
    let _ = queue.enqueue(101);
    let _ = queue.enqueue(102);

    let split = queue.split(103);

    let left_q = split.0.unwrap();
    assert_eq!(100, left_q.get_min_id().unwrap());
    assert_eq!(102, left_q.get_max_id().unwrap());

    assert_eq!(true, split.1.is_none());
}

#[test]
fn test_split_at_number_exist() {
    let mut queue = QueueWithIntervals::new();

    let _ = queue.enqueue(100);
    let _ = queue.enqueue(101);
    let _ = queue.enqueue(102);

    let split = queue.split(101);

    let left_q = split.0.unwrap();
    assert_eq!(100, left_q.get_min_id().unwrap());
    assert_eq!(101, left_q.get_max_id().unwrap());

    let right_q = split.1.unwrap();
    assert_eq!(102, right_q.get_min_id().unwrap());
    assert_eq!(102, right_q.get_max_id().unwrap());
}

#[test]
fn test_split_at_number_exist_but_we_have_two_intervals() {
    let mut queue = QueueWithIntervals::new();

    let _ = queue.enqueue(100);
    let _ = queue.enqueue(101);
    let _ = queue.enqueue(103);
    let _ = queue.enqueue(104);

    let split = queue.split(103);

    let left_q = split.0.unwrap();
    assert_eq!(100, left_q.get_min_id().unwrap());
    assert_eq!(103, left_q.get_max_id().unwrap());
    assert_eq!(2, left_q.intervals.len());

    let right_q = split.1.unwrap();
    assert_eq!(104, right_q.get_min_id().unwrap());
    assert_eq!(104, right_q.get_max_id().unwrap());
    assert_eq!(1, right_q.intervals.len());
}
