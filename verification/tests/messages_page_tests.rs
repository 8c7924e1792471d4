use my_service_bus_shared::MessageSize;
use my_service_bus_shared::MessagesPage;
use my_service_bus_shared::MySbMessageContent;
use my_service_bus_shared::PageId;

#[test]
fn test_being_persisted_and_back() {
    let mut page = MessagesPage::create_empty(PageId::new(0));

    page.add_message(MySbMessageContent {
        id: 1,
        content: vec![0u8, 1u8, 2u8],
        time: 0,
        headers: vec![],
    });

    if let Some(messages_to_persist) = page.get_messages_to_persist() {
        assert_eq!(1, messages_to_persist.len());
        assert_eq!(1, page.being_persisted.len());
        assert_eq!(0, page.to_be_persisted.len());
    } else {
        panic!("Should not be here");
    }

    page.not_persisted();
    assert_eq!(0, page.being_persisted.len());
    assert_eq!(1, page.to_be_persisted.len());
}

#[test]
fn second_drain_with_no_new_arrivals_yields_nothing() {
    let mut page = MessagesPage::create_empty(PageId::new(0));

    page.add_message(MySbMessageContent {
        id: 10,
        content: vec![1],
        time: 0,
        headers: vec![],
    });
    page.add_message(MySbMessageContent {
        id: 11,
        content: vec![2, 3],
        time: 0,
        headers: vec![],
    });

    let first = page.get_messages_to_persist().unwrap();
    assert_eq!(2, first.len());
    assert_eq!(10, first[0].get_message_id());
    assert_eq!(11, first[1].get_message_id());

    assert!(page.get_messages_to_persist().is_none());

    page.persisted();
    assert_eq!(0, page.being_persisted.len());
    assert!(page.get_messages_to_persist().is_none());
}

#[test]
fn drained_records_carry_the_content() {
    let mut page = MessagesPage::create_empty(PageId::new(0));

    page.add_message(MySbMessageContent {
        id: 7,
        content: vec![5, 6, 7],
        time: 123,
        headers: vec![],
    });

    let drained = page.get_messages_to_persist().unwrap();
    assert_eq!(1, drained.len());
    assert_eq!(7, drained[0].get_message_id());
    assert_eq!(123, drained[0].get_created());
    assert_eq!(vec![5, 6, 7], drained[0].data);
}

#[test]
fn message_size_reports_each_state() {
    let mut page = MessagesPage::create_empty(PageId::new(0));

    page.add_message(MySbMessageContent {
        id: 3,
        content: vec![1, 2, 3, 4],
        time: 0,
        headers: vec![],
    });

    match page.get_message_size(&3) {
        MessageSize::MessageIsReady(size) => assert_eq!(4, size),
        _ => panic!("Should not be here"),
    }

    match page.get_message_size(&4) {
        MessageSize::Missing => {}
        _ => panic!("Should not be here"),
    }

    assert_eq!(4, page.size);
}

#[test]
fn add_message_outside_the_page_is_ignored() {
    let mut page = MessagesPage::create_empty(PageId::new(1));

    page.add_message(MySbMessageContent {
        id: 5,
        content: vec![1],
        time: 0,
        headers: vec![],
    });

    assert_eq!(0, page.size);
    assert_eq!(0, page.to_be_persisted.len());
}
