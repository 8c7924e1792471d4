use std::sync::Arc;

use my_service_bus_shared::MessagesBucket;
use my_service_bus_shared::MessagesPage;
use my_service_bus_shared::PageId;

#[test]
fn add_then_intermediary_confirm_moves_the_id() {
    let page = Arc::new(MessagesPage::create_empty(PageId::new(0)));
    let mut bucket = MessagesBucket::new(page);

    bucket.add(15, 1, 512);
    assert_eq!(1, bucket.messages_count());
    assert_eq!(1, bucket.messages_count_with_intermediary_confirmed());

    bucket.intermediary_confirmed(15);

    assert_eq!(0, bucket.messages_count());
    assert_eq!(1, bucket.messages_count_with_intermediary_confirmed());
}

#[test]
fn remove_reverses_add() {
    let page = Arc::new(MessagesPage::create_empty(PageId::new(0)));
    let mut bucket = MessagesBucket::new(page);

    bucket.add(20, 1, 100);
    bucket.add(21, 2, 50);
    assert_eq!(150, bucket.messages_size);

    let removed = bucket.remove(20).unwrap();
    assert_eq!(20, removed.msg_id);
    assert_eq!(1, removed.attempt_no);
    assert_eq!(100, removed.msg_size);

    assert_eq!(50, bucket.messages_size);
    assert_eq!(1, bucket.messages_count());

    assert!(bucket.remove(20).is_none());
}
