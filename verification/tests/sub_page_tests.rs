use my_service_bus_shared::MySbMessageContent;
use my_service_bus_shared::SubPage;
use my_service_bus_shared::SubPageId;

#[test]
fn test_gc_messages() {
    let mut sub_page = SubPage::new(SubPageId::new(0));

    sub_page.add_message(MySbMessageContent {
        id: 0,
        content: vec![],
        time: 0,
        headers: vec![],
    });

    sub_page.add_message(MySbMessageContent {
        id: 1,
        content: vec![],
        time: 0,
        headers: vec![],
    });

    let gc_full_page = sub_page.gc_messages(1);

    assert!(!gc_full_page);

    let result = sub_page.get_message(0);
    assert!(result.is_garbage_collected());

    let result = sub_page.get_message(1);
    assert!(result.is_message_content());
}

#[test]
fn test_gc_messages_prev_page() {
    let mut sub_page = SubPage::new(SubPageId::new(1));

    sub_page.add_message(MySbMessageContent {
        id: 1000,
        content: vec![],
        time: 0,
        headers: vec![],
    });

    sub_page.add_message(MySbMessageContent {
        id: 1001,
        content: vec![],
        time: 0,
        headers: vec![],
    });

    let gc_full_page = sub_page.gc_messages(5);

    assert!(!gc_full_page);

    let result = sub_page.get_message(1000);
    assert!(result.is_message_content());
}

#[test]
fn test_gc_messages_next_page() {
    let mut sub_page = SubPage::new(SubPageId::new(1));

    sub_page.add_message(MySbMessageContent {
        id: 1000,
        content: vec![],
        time: 0,
        headers: vec![],
    });

    sub_page.add_message(MySbMessageContent {
        id: 1001,
        content: vec![],
        time: 0,
        headers: vec![],
    });

    let gc_full_page = sub_page.gc_messages(9999);

    assert!(gc_full_page);

    let result = sub_page.get_message(1000);
    assert!(result.is_message_content());

    let result = sub_page.get_message(1001);
    assert!(result.is_message_content());
}

#[test]
fn gc_subtracts_exactly_the_evicted_bytes() {
    let mut sub_page = SubPage::new(SubPageId::new(0));

    sub_page.add_message(MySbMessageContent {
        id: 0,
        content: vec![1, 2, 3],
        time: 0,
        headers: vec![],
    });
    sub_page.add_message(MySbMessageContent {
        id: 1,
        content: vec![4, 5],
        time: 0,
        headers: vec![],
    });
    sub_page.add_message(MySbMessageContent {
        id: 2,
        content: vec![6],
        time: 0,
        headers: vec![],
    });

    assert_eq!(6, sub_page.get_size_and_amount().size);
    assert_eq!(3, sub_page.get_size_and_amount().amount);

    let gc_full_page = sub_page.gc_messages(2);
    assert!(!gc_full_page);

    assert_eq!(1, sub_page.get_size_and_amount().size);
    assert_eq!(1, sub_page.get_size_and_amount().amount);
    assert_eq!(2, sub_page.get_messages_amount() + 1);

    assert!(sub_page.get_message(0).is_garbage_collected());
    assert!(sub_page.get_message(1).is_garbage_collected());
    assert!(sub_page.get_message(2).is_message_content());
    assert!(!sub_page.get_message(3).is_message_content());
    assert!(!sub_page.get_message(3).is_garbage_collected());
}

#[test]
fn add_message_overwrites_and_adjusts_size() {
    let mut sub_page = SubPage::new(SubPageId::new(0));

    let first = sub_page.add_message(MySbMessageContent {
        id: 5,
        content: vec![1, 2, 3, 4],
        time: 0,
        headers: vec![],
    });
    assert!(first.is_none());
    assert_eq!(4, sub_page.get_size_and_amount().size);

    let second = sub_page.add_message(MySbMessageContent {
        id: 5,
        content: vec![9],
        time: 0,
        headers: vec![],
    });
    let old = second.unwrap();
    assert_eq!(vec![1, 2, 3, 4], old.content);
    assert_eq!(1, sub_page.get_size_and_amount().size);
    assert_eq!(1, sub_page.get_size_and_amount().amount);
}

#[test]
fn add_message_outside_the_window_is_ignored() {
    let mut sub_page = SubPage::new(SubPageId::new(1));

    let result = sub_page.add_message(MySbMessageContent {
        id: 5,
        content: vec![1],
        time: 0,
        headers: vec![],
    });

    assert!(result.is_none());
    assert_eq!(0, sub_page.get_size_and_amount().size);
    assert_eq!(0, sub_page.get_messages_amount());
}

#[test]
fn restore_recomputes_the_accounting() {
    let mut messages = std::collections::BTreeMap::new();
    messages.insert(
        1000,
        MySbMessageContent {
            id: 1000,
            content: vec![1, 2],
            time: 0,
            headers: vec![],
        },
    );
    messages.insert(
        1002,
        MySbMessageContent {
            id: 1002,
            content: vec![3, 4, 5],
            time: 0,
            headers: vec![],
        },
    );

    let sub_page = SubPage::restore(SubPageId::new(1), messages);

    assert_eq!(5, sub_page.get_size_and_amount().size);
    assert_eq!(2, sub_page.get_size_and_amount().amount);
    assert!(sub_page.get_message(1000).is_message_content());
    assert!(!sub_page.get_message(1001).is_message_content());
    assert!(sub_page.get_message(1002).is_message_content());
}

#[test]
fn persisted_removes_the_id_from_the_pending_set() {
    let mut sub_page = SubPage::new(SubPageId::new(0));

    sub_page.add_message(MySbMessageContent {
        id: 3,
        content: vec![1],
        time: 0,
        headers: vec![],
    });
    sub_page.add_message(MySbMessageContent {
        id: 4,
        content: vec![2],
        time: 0,
        headers: vec![],
    });

    assert_eq!(2, sub_page.to_persist.len());

    sub_page.persisted(3);

    assert_eq!(1, sub_page.to_persist.len());
    assert!(sub_page.to_persist.has_message(4));
    assert!(!sub_page.to_persist.has_message(3));
}
