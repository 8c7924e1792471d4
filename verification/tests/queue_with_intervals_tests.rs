use my_service_bus_shared::QueueIndexRange;
use my_service_bus_shared::QueueWithIntervals;

#[test]
fn test_empty() {
    let queue = QueueWithIntervals::new();

    assert_eq!(true, queue.get_min_id().is_none());
    assert_eq!(0, queue.len());
}

#[test]
fn test_enqueue_and_dequeue() {
    let mut queue = QueueWithIntervals::new();

    let _ = queue.enqueue(5);
    let _ = queue.enqueue(6);

    assert_eq!(2, queue.len());

    assert_eq!(5, queue.dequeue().unwrap());
    assert_eq!(6, queue.dequeue().unwrap());
    assert_eq!(true, queue.dequeue().is_none());
}

#[test]
fn test_merge_intervals_at_the_end() {
    let mut queue = QueueWithIntervals::new();

    let _ = queue.enqueue(200);
    let _ = queue.enqueue(201);

    assert_eq!(1, queue.intervals.len());

    let _ = queue.enqueue(203);

    assert_eq!(2, queue.intervals.len());

    let _ = queue.enqueue(202);
    assert_eq!(1, queue.intervals.len());
}

#[test]
fn test_remove_first_element() {
    let mut queue = QueueWithIntervals::new();

    let _ = queue.enqueue(200);
    let _ = queue.enqueue(201);
    let _ = queue.enqueue(202);
    let _ = queue.enqueue(203);
    let _ = queue.enqueue(204);

    queue.remove(200);

    assert_eq!(1, queue.intervals.len());

    assert_eq!(201, queue.intervals[0].from_id);
    assert_eq!(204, queue.intervals[0].to_id);
}

#[test]
fn test_remove_last_element() {
    let mut queue = QueueWithIntervals::new();

    let _ = queue.enqueue(200);
    let _ = queue.enqueue(201);
    let _ = queue.enqueue(202);
    let _ = queue.enqueue(203);
    let _ = queue.enqueue(204);

    queue.remove(204);

    assert_eq!(1, queue.intervals.len());

    assert_eq!(200, queue.intervals[0].from_id);
    assert_eq!(203, queue.intervals[0].to_id);
}

#[test]
fn test_remove_middle_element_and_separate() {
    let mut queue = QueueWithIntervals::new();

    let _ = queue.enqueue(200);
    let _ = queue.enqueue(201);
    let _ = queue.enqueue(202);
    let _ = queue.enqueue(203);
    let _ = queue.enqueue(204);

    queue.remove(202);

    assert_eq!(2, queue.intervals.len());

    assert_eq!(200, queue.intervals[0].from_id);
    assert_eq!(201, queue.intervals[0].to_id);

    assert_eq!(203, queue.intervals[1].from_id);
    assert_eq!(204, queue.intervals[1].to_id);
}

#[test]
fn test_remove_middle_element_and_empty_it() {
    let mut queue = QueueWithIntervals::new();

    let _ = queue.enqueue(200);
    let _ = queue.enqueue(201);
    let _ = queue.enqueue(202);
    let _ = queue.enqueue(203);
    let _ = queue.enqueue(204);
    let _ = queue.enqueue(205);
    let _ = queue.enqueue(206);

    queue.remove(202);
    assert_eq!(2, queue.intervals.len());

    queue.remove(205);
    assert_eq!(3, queue.intervals.len());

    assert_eq!(200, queue.intervals[0].from_id);
    assert_eq!(201, queue.intervals[0].to_id);

    assert_eq!(203, queue.intervals[1].from_id);
    assert_eq!(204, queue.intervals[1].to_id);

    assert_eq!(206, queue.intervals[2].from_id);
    assert_eq!(206, queue.intervals[2].to_id);

    queue.remove(203);
    queue.remove(204);
    assert_eq!(2, queue.intervals.len());

    assert_eq!(200, queue.intervals[0].from_id);
    assert_eq!(201, queue.intervals[0].to_id);

    assert_eq!(206, queue.intervals[1].from_id);
    assert_eq!(206, queue.intervals[1].to_id);
}

#[test]
fn test_remove_element_and_empty_last_one() {
    let mut queue = QueueWithIntervals::new();

    let _ = queue.enqueue(200);
    let _ = queue.enqueue(201);
    let _ = queue.enqueue(202);
    let _ = queue.enqueue(203);
    let _ = queue.enqueue(204);
    let _ = queue.enqueue(205);
    let _ = queue.enqueue(206);

    queue.remove(202);
    assert_eq!(2, queue.intervals.len());

    queue.remove(205);
    assert_eq!(3, queue.intervals.len());

    assert_eq!(200, queue.intervals[0].from_id);
    assert_eq!(201, queue.intervals[0].to_id);

    assert_eq!(203, queue.intervals[1].from_id);
    assert_eq!(204, queue.intervals[1].to_id);

    assert_eq!(206, queue.intervals[2].from_id);
    assert_eq!(206, queue.intervals[2].to_id);

    queue.remove(206);
    assert_eq!(2, queue.intervals.len());

    assert_eq!(200, queue.intervals[0].from_id);
    assert_eq!(201, queue.intervals[0].to_id);

    assert_eq!(203, queue.intervals[1].from_id);
    assert_eq!(204, queue.intervals[1].to_id);
}

#[test]
fn one_insert_one_remove_len_shoud_be_0() {
    let mut queue = QueueWithIntervals::new();

    let _ = queue.enqueue(20466);

    let result = queue.dequeue();

    assert_eq!(20466, result.unwrap());
    assert_eq!(0, queue.len());

    let result = queue.dequeue();

    assert_eq!(true, result.is_none());

    assert_eq!(0, queue.len());
}

#[test]
fn test_if_we_push_intervals_randomly_but_as_one_interval() {
    let mut queue = QueueWithIntervals::new();

    let _ = queue.enqueue(502);
    let _ = queue.enqueue(503);
    let _ = queue.enqueue(504);

    let _ = queue.enqueue(508);
    assert_eq!(queue.intervals.len(), 2);

    let _ = queue.enqueue(506);
    assert_eq!(queue.intervals.len(), 3);
    let _ = queue.enqueue(507);
    assert_eq!(queue.intervals.len(), 2);
}

#[test]
fn enqueue_range_case_to_empty_list() {
    let mut queue = QueueWithIntervals::new();

    queue.enqueue_range(&QueueIndexRange::restore(10, 15));

    assert_eq!(1, queue.intervals.len());

    assert_eq!(10, queue.intervals[0].from_id);
    assert_eq!(15, queue.intervals[0].to_id);
}

#[test]
fn enqueue_range_case_to_the_end_of_the_list() {
    let mut queue = QueueWithIntervals::new();
    queue.enqueue_range(&QueueIndexRange::restore(10, 15));

    queue.enqueue_range(&QueueIndexRange::restore(20, 25));

    assert_eq!(2, queue.intervals.len());

    assert_eq!(10, queue.intervals[0].from_id);
    assert_eq!(15, queue.intervals[0].to_id);

    assert_eq!(20, queue.intervals[1].from_id);
    assert_eq!(25, queue.intervals[1].to_id);
}

#[test]
fn enqueue_range_at_the_begining() {
    let mut queue = QueueWithIntervals::new();
    queue.enqueue_range(&QueueIndexRange::restore(15, 20));

    queue.enqueue_range(&QueueIndexRange::restore(5, 10));

    assert_eq!(2, queue.intervals.len());

    assert_eq!(5, queue.intervals[0].from_id);
    assert_eq!(10, queue.intervals[0].to_id);

    assert_eq!(15, queue.intervals[1].from_id);
    assert_eq!(20, queue.intervals[1].to_id);
}

#[test]
fn enqueue_range_at_the_begining_joining_the_first_one() {
    let mut queue = QueueWithIntervals::new();
    queue.enqueue_range(&QueueIndexRange::restore(15, 20));

    queue.enqueue_range(&QueueIndexRange::restore(5, 14));

    assert_eq!(1, queue.intervals.len());

    assert_eq!(5, queue.intervals[0].from_id);
    assert_eq!(20, queue.intervals[0].to_id);
}

#[test]
fn enqueue_range_at_the_begining_joining_the_first_one_case_2() {
    let mut queue = QueueWithIntervals::new();
    queue.enqueue_range(&QueueIndexRange::restore(20, 25));
    queue.enqueue_range(&QueueIndexRange::restore(10, 15));

    queue.enqueue_range(&QueueIndexRange::restore(5, 12));

    assert_eq!(2, queue.intervals.len());

    assert_eq!(5, queue.intervals[0].from_id);
    assert_eq!(15, queue.intervals[0].to_id);

    assert_eq!(20, queue.intervals[1].from_id);
    assert_eq!(25, queue.intervals[1].to_id);
}

#[test]
fn enqueue_range_in_the_middle() {
    let mut queue = QueueWithIntervals::new();
    queue.enqueue_range(&QueueIndexRange::restore(200, 205));
    queue.enqueue_range(&QueueIndexRange::restore(100, 105));
    queue.enqueue_range(&QueueIndexRange::restore(300, 305));
    queue.enqueue_range(&QueueIndexRange::restore(250, 255));

    assert_eq!(4, queue.intervals.len());

    assert_eq!(100, queue.intervals[0].from_id);
    assert_eq!(105, queue.intervals[0].to_id);

    assert_eq!(200, queue.intervals[1].from_id);
    assert_eq!(205, queue.intervals[1].to_id);

    assert_eq!(250, queue.intervals[2].from_id);
    assert_eq!(255, queue.intervals[2].to_id);

    assert_eq!(300, queue.intervals[3].from_id);
    assert_eq!(305, queue.intervals[3].to_id);
}

#[test]
fn enqueue_range_in_the_middle_stick_to_the_left() {
    let mut queue = QueueWithIntervals::new();
    queue.enqueue_range(&QueueIndexRange::restore(10, 15));
    queue.enqueue_range(&QueueIndexRange::restore(100, 105));

    queue.enqueue_range(&QueueIndexRange::restore(16, 20));

    assert_eq!(2, queue.intervals.len());

    assert_eq!(10, queue.intervals[0].from_id);
    assert_eq!(20, queue.intervals[0].to_id);

    assert_eq!(100, queue.intervals[1].from_id);
    assert_eq!(105, queue.intervals[1].to_id);
}

#[test]
fn enqueue_range_in_the_middle_stick_to_the_left_including() {
    let mut queue = QueueWithIntervals::new();
    queue.enqueue_range(&QueueIndexRange::restore(100, 105));
    queue.enqueue_range(&QueueIndexRange::restore(10, 15));

    queue.enqueue_range(&QueueIndexRange::restore(15, 20));

    assert_eq!(2, queue.intervals.len());

    assert_eq!(10, queue.intervals[0].from_id);
    assert_eq!(20, queue.intervals[0].to_id);

    assert_eq!(100, queue.intervals[1].from_id);
    assert_eq!(105, queue.intervals[1].to_id);
}

#[test]
fn enqueue_range_in_the_middle_stick_to_the_right() {
    let mut queue = QueueWithIntervals::new();
    queue.enqueue_range(&QueueIndexRange::restore(100, 105));
    queue.enqueue_range(&QueueIndexRange::restore(10, 15));

    queue.enqueue_range(&QueueIndexRange::restore(90, 99));

    assert_eq!(2, queue.intervals.len());

    assert_eq!(10, queue.intervals[0].from_id);
    assert_eq!(15, queue.intervals[0].to_id);

    assert_eq!(90, queue.intervals[1].from_id);
    assert_eq!(105, queue.intervals[1].to_id);
}

#[test]
fn enqueue_range_in_the_middle_stick_to_the_rught_including() {
    let mut queue = QueueWithIntervals::new();
    queue.enqueue_range(&QueueIndexRange::restore(100, 105));
    queue.enqueue_range(&QueueIndexRange::restore(10, 15));

    queue.enqueue_range(&QueueIndexRange::restore(90, 100));

    assert_eq!(2, queue.intervals.len());

    assert_eq!(10, queue.intervals[0].from_id);
    assert_eq!(15, queue.intervals[0].to_id);

    assert_eq!(90, queue.intervals[1].from_id);
    assert_eq!(105, queue.intervals[1].to_id);
}

#[test]
fn enqueue_range_in_the_middle_stick_to_the_left_and_right() {
    let mut queue = QueueWithIntervals::new();
    queue.enqueue_range(&QueueIndexRange::restore(100, 105));
    queue.enqueue_range(&QueueIndexRange::restore(10, 15));

    queue.enqueue_range(&QueueIndexRange::restore(16, 99));

    assert_eq!(1, queue.intervals.len());

    assert_eq!(10, queue.intervals[0].from_id);
    assert_eq!(105, queue.intervals[0].to_id);
}

#[test]
fn enqueue_range_in_the_middle_with_cover() {
    let mut queue = QueueWithIntervals::new();
    queue.enqueue_range(&QueueIndexRange::restore(100, 105));
    queue.enqueue_range(&QueueIndexRange::restore(10, 20));
    queue.enqueue_range(&QueueIndexRange::restore(30, 35));

    queue.enqueue_range(&QueueIndexRange::restore(25, 40));

    assert_eq!(3, queue.intervals.len());

    assert_eq!(10, queue.intervals[0].from_id);
    assert_eq!(20, queue.intervals[0].to_id);

    assert_eq!(25, queue.intervals[1].from_id);
    assert_eq!(40, queue.intervals[1].to_id);

    assert_eq!(100, queue.intervals[2].from_id);
    assert_eq!(105, queue.intervals[2].to_id);
}

#[test]
fn enqueue_range_in_the_middle_with_cover_several_elements() {
    let mut queue = QueueWithIntervals::new();
    queue.enqueue_range(&QueueIndexRange::restore(100, 105));
    queue.enqueue_range(&QueueIndexRange::restore(10, 20));
    queue.enqueue_range(&QueueIndexRange::restore(30, 35));

    queue.enqueue_range(&QueueIndexRange::restore(40, 45));

    queue.enqueue_range(&QueueIndexRange::restore(25, 70));

    assert_eq!(3, queue.intervals.len());

    assert_eq!(10, queue.intervals[0].from_id);
    assert_eq!(20, queue.intervals[0].to_id);

    assert_eq!(25, queue.intervals[1].from_id);
    assert_eq!(70, queue.intervals[1].to_id);

    assert_eq!(100, queue.intervals[2].from_id);
    assert_eq!(105, queue.intervals[2].to_id);
}

#[test]
fn enqueue_range_in_the_middle_with_cover_several_elements_touching_right() {
    let mut queue = QueueWithIntervals::new();
    queue.enqueue_range(&QueueIndexRange::restore(100, 105));
    queue.enqueue_range(&QueueIndexRange::restore(10, 20));
    queue.enqueue_range(&QueueIndexRange::restore(30, 35));

    queue.enqueue_range(&QueueIndexRange::restore(40, 45));

    queue.enqueue_range(&QueueIndexRange::restore(25, 43));

    assert_eq!(3, queue.intervals.len());

    assert_eq!(10, queue.intervals[0].from_id);
    assert_eq!(20, queue.intervals[0].to_id);

    assert_eq!(25, queue.intervals[1].from_id);
    assert_eq!(45, queue.intervals[1].to_id);

    assert_eq!(100, queue.intervals[2].from_id);
    assert_eq!(105, queue.intervals[2].to_id);
}

#[test]
fn enqueue_range_in_the_middle_with_cover_several_elements_touching_left_and_right() {
    let mut queue = QueueWithIntervals::new();
    queue.enqueue_range(&QueueIndexRange::restore(100, 105));
    queue.enqueue_range(&QueueIndexRange::restore(10, 20));
    queue.enqueue_range(&QueueIndexRange::restore(30, 35));

    queue.enqueue_range(&QueueIndexRange::restore(40, 45));

    queue.enqueue_range(&QueueIndexRange::restore(21, 43));

    assert_eq!(2, queue.intervals.len());

    assert_eq!(10, queue.intervals[0].from_id);
    assert_eq!(45, queue.intervals[0].to_id);

    assert_eq!(100, queue.intervals[1].from_id);
    assert_eq!(105, queue.intervals[1].to_id);
}

#[test]
fn enqueue_range_which_covers_everything() {
    let mut queue = QueueWithIntervals::new();
    queue.enqueue_range(&QueueIndexRange::restore(100, 105));
    queue.enqueue_range(&QueueIndexRange::restore(10, 20));
    queue.enqueue_range(&QueueIndexRange::restore(30, 35));

    queue.enqueue_range(&QueueIndexRange::restore(40, 45));

    queue.enqueue_range(&QueueIndexRange::restore(1, 200));

    assert_eq!(1, queue.intervals.len());

    assert_eq!(1, queue.intervals[0].from_id);
    assert_eq!(200, queue.intervals[0].to_id);
}

#[test]
fn duplicate_enqueue_is_refused_and_set_unchanged() {
    let mut queue = QueueWithIntervals::new();

    let _ = queue.enqueue(10);
    let _ = queue.enqueue(11);

    let snapshot_before = queue.get_snapshot();
    let result = queue.enqueue(10);

    assert_eq!(Err(my_service_bus_shared::IntervalError::IdAlreadyPresent), result);
    assert_eq!(snapshot_before, queue.get_snapshot());
    assert_eq!(2, queue.len());
}

#[test]
fn round_trip_any_order_dequeues_ascending() {
    let mut queue_a = QueueWithIntervals::new();
    for id in [9, 3, 7, 5, 4, 8] {
        let _ = queue_a.enqueue(id);
    }

    let mut queue_b = QueueWithIntervals::new();
    for id in [4, 8, 5, 3, 9, 7] {
        let _ = queue_b.enqueue(id);
    }

    assert_eq!(queue_a.get_snapshot(), queue_b.get_snapshot());

    let mut drained = Vec::new();
    while let Some(id) = queue_a.dequeue() {
        drained.push(id);
    }
    assert_eq!(vec![3, 4, 5, 7, 8, 9], drained);
}

#[test]
fn enqueue_then_remove_restores_prior_state() {
    let mut queue = QueueWithIntervals::new();
    queue.enqueue_range(&QueueIndexRange::restore(10, 20));
    queue.enqueue_range(&QueueIndexRange::restore(30, 40));

    let snapshot_before = queue.get_snapshot();

    let _ = queue.enqueue(25);
    assert_eq!(true, queue.has_message(25));

    let removed = queue.remove(25);
    assert_eq!(true, removed);
    assert_eq!(snapshot_before, queue.get_snapshot());
}

#[test]
fn ids_near_the_top_of_the_id_space() {
    let mut queue = QueueWithIntervals::new();

    let top = i64::MAX - 1;
    let _ = queue.enqueue(top);
    let _ = queue.enqueue(top - 1);

    assert_eq!(2, queue.len());
    assert_eq!(1, queue.intervals.len());
    assert_eq!(top - 1, queue.get_min_id().unwrap());
    assert_eq!(top, queue.get_max_id().unwrap());

    assert_eq!(Some(top - 1), queue.dequeue());
    assert_eq!(Some(top), queue.dequeue());
    assert_eq!(None, queue.dequeue());
}

#[test]
fn peek_reports_the_minimum_without_removing() {
    let mut queue = QueueWithIntervals::new();

    assert_eq!(None, queue.peek());

    let _ = queue.enqueue(30);
    let _ = queue.enqueue(10);

    assert_eq!(Some(10), queue.peek());
    assert_eq!(2, queue.len());
}

#[test]
fn reset_and_clean_replace_the_content() {
    let mut queue = QueueWithIntervals::new();
    let _ = queue.enqueue(5);

    queue.reset(vec![QueueIndexRange::restore(7, 9)]);
    assert_eq!(3, queue.len());
    assert!(queue.has_message(8));
    assert!(!queue.has_message(5));

    queue.clean();
    assert_eq!(0, queue.len());
    assert!(!queue.has_message(8));
}

#[test]
fn restore_adopts_the_given_ranges() {
    let queue = QueueWithIntervals::restore(vec![
        QueueIndexRange::restore(1, 3),
        QueueIndexRange::restore(10, 12),
    ]);

    assert_eq!(6, queue.len());
    assert_eq!(Some(1), queue.get_min_id());
    assert_eq!(Some(12), queue.get_max_id());
}
