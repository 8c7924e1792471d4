use my_service_bus_shared::MessagesPage;
use my_service_bus_shared::MessagesPagesCache;
use my_service_bus_shared::MySbMessageContent;
use my_service_bus_shared::PageId;

fn page_with_one_message(page_value: i64, msg_id: i64, payload: Vec<u8>) -> MessagesPage {
    let mut page = MessagesPage::create_empty(PageId::new(page_value));
    page.add_message(MySbMessageContent {
        id: msg_id,
        content: payload,
        time: 0,
        headers: vec![],
    });
    page
}

#[test]
fn cache_holds_one_page_per_number() {
    let mut cache = MessagesPagesCache::new();

    assert!(!cache.has_page(&PageId::new(0)));
    assert!(cache.get_page(PageId::new(0)).is_none());

    cache.restore_page(MessagesPage::create_empty(PageId::new(0)));
    cache.restore_page(page_with_one_message(0, 5, vec![1, 2]));
    cache.restore_page(MessagesPage::create_empty(PageId::new(1)));

    assert!(cache.has_page(&PageId::new(0)));
    assert!(cache.has_page(&PageId::new(1)));
    assert_eq!(2, cache.pages.len());

    let page = cache.get_page(PageId::new(0)).unwrap();
    assert_eq!(2, page.size);

    cache.remove_page(&PageId::new(0));
    assert!(!cache.has_page(&PageId::new(0)));
    assert!(cache.has_page(&PageId::new(1)));
}

#[test]
fn cache_reports_page_summaries() {
    let mut cache = MessagesPagesCache::new();
    cache.restore_page(page_with_one_message(0, 7, vec![1, 2, 3]));

    let info = cache.get_pages_info();
    assert_eq!(1, info.len());
    assert_eq!(0, info[0].page_no.get_value());
    assert_eq!(3, info[0].page_size);
    assert_eq!(1, info[0].count);
    assert_eq!(1, info[0].persist_size);
    assert_eq!(false, info[0].is_being_persisted);

    assert_eq!(1, cache.get_persist_queue_size());
}

#[test]
fn cache_routes_the_persist_handshake() {
    let mut cache = MessagesPagesCache::new();
    cache.restore_page(MessagesPage::create_empty(PageId::new(0)));
    cache.restore_page(page_with_one_message(1, 100_001, vec![9]));

    let (page_id, records) = cache.get_messages_to_persist().unwrap();
    assert_eq!(1, page_id.get_value());
    assert_eq!(1, records.len());
    assert_eq!(100_001, records[0].get_message_id());

    cache.not_persisted(page_id);
    let page = cache.get_page(PageId::new(1)).unwrap();
    assert_eq!(1, page.to_be_persisted.len());
    assert_eq!(0, page.being_persisted.len());

    let (page_id, records) = cache.get_messages_to_persist().unwrap();
    assert_eq!(1, records.len());
    cache.persisted(page_id);
    let page = cache.get_page(PageId::new(1)).unwrap();
    assert_eq!(0, page.to_be_persisted.len());
    assert_eq!(0, page.being_persisted.len());

    assert!(cache.get_messages_to_persist().is_none());
}
