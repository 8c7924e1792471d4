use my_service_bus_shared::PageId;
use my_service_bus_shared::SUB_PAGE_MESSAGES_AMOUNT;
use my_service_bus_shared::SubPageId;

#[test]
fn test_first_message_id() {
    assert_eq!(0, SubPageId::new(0).get_first_message_id());
    assert_eq!(1000, SubPageId::new(1).get_first_message_id());
    assert_eq!(2000, SubPageId::new(2).get_first_message_id());
}

#[test]
fn test_first_message_id_of_next_page() {
    assert_eq!(1000, SubPageId::new(0).get_first_message_id_of_next_sub_page());
    assert_eq!(2000, SubPageId::new(1).get_first_message_id_of_next_sub_page());
    assert_eq!(3000, SubPageId::new(2).get_first_message_id_of_next_sub_page());
}

#[test]
fn test_creating_from_page_id() {
    assert_eq!(0, SubPageId::from_page_id(PageId::new(0)).get_value());

    assert_eq!(100, SubPageId::from_page_id(PageId::new(1)).get_value());
    assert_eq!(200, SubPageId::from_page_id(PageId::new(2)).get_value());

    let message_id = 100_000;
    let page_id = PageId::from_message_id(message_id);

    assert_eq!(
        SubPageId::from_page_id(page_id).get_value(),
        SubPageId::from_message_id(message_id).get_value()
    );
}

#[test]
fn test_b_tree_map() {
    let mut map = std::collections::BTreeMap::new();

    map.insert(SubPageId::new(1), 1);
    map.insert(SubPageId::new(2), 2);
    map.insert(SubPageId::new(4), 4);
    map.insert(SubPageId::new(3), 3);

    assert_eq!(1, map[&SubPageId::new(1)]);
    assert_eq!(2, map[&SubPageId::new(2)]);
    assert_eq!(3, map[&SubPageId::new(3)]);
    assert_eq!(4, map[&SubPageId::new(4)]);
}

#[test]
fn test_hash_map() {
    let mut map = std::collections::HashMap::new();

    map.insert(SubPageId::new(1), 1);
    map.insert(SubPageId::new(2), 2);
    map.insert(SubPageId::new(4), 4);
    map.insert(SubPageId::new(3), 3);

    assert_eq!(1, map[&SubPageId::new(1)]);
    assert_eq!(2, map[&SubPageId::new(2)]);
    assert_eq!(3, map[&SubPageId::new(3)]);
    assert_eq!(4, map[&SubPageId::new(4)]);
}

#[test]
fn test_my_message_id() {
    let sub_page = SubPageId::new(0);

    assert!(sub_page.is_my_message_id(0));
    assert!(sub_page.is_my_message_id(999));
    assert!(!sub_page.is_my_message_id(1000));

    let sub_page = SubPageId::new(1);
    assert!(sub_page.is_my_message_id(1000));
    assert!(sub_page.is_my_message_id(1999));
    assert!(!sub_page.is_my_message_id(2000));
}

#[test]
fn test_first_message_id_of_the_next_page() {
    let sub_page = SubPageId::new(0);

    assert_eq!(1000, sub_page.get_first_message_id_of_next_sub_page());

    let sub_page = SubPageId::new(1);

    assert_eq!(2000, sub_page.get_first_message_id_of_next_sub_page());

    let sub_page = SubPageId::new(2);

    assert_eq!(3000, sub_page.get_first_message_id_of_next_sub_page());
}

#[test]
fn test_iterator() {
    let sub_page_id = SubPageId::new(0);

    let mut result: Vec<i64> = Vec::new();
    let mut it = sub_page_id.iterate_message_ids();
    while let Some(id) = it.next() {
        result.push(id);
    }

    assert_eq!(SUB_PAGE_MESSAGES_AMOUNT as usize, result.len());
    assert_eq!(0, result[0]);
    assert_eq!(999, result[999]);

    let sub_page_id = SubPageId::new(1);

    let mut result: Vec<i64> = Vec::new();
    let mut it = sub_page_id.iterate_message_ids();
    while let Some(id) = it.next() {
        result.push(id);
    }

    assert_eq!(SUB_PAGE_MESSAGES_AMOUNT as usize, result.len());
    assert_eq!(1_000, result[0]);
    assert_eq!(1_999, result[999]);
}
