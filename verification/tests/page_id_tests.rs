use my_service_bus_shared::PageId;
use my_service_bus_shared::SUB_PAGES_PER_PAGE;

#[test]
fn test_last_message_id_of_the_page() {
    assert_eq!(099_999, PageId::new(0).get_last_message_id());

    assert_eq!(199_999, PageId::new(1).get_last_message_id());

    assert_eq!(299_999, PageId::new(2).get_last_message_id());
}

#[test]
fn test_iterator_with_page_0() {
    let page_id = PageId::new(0);

    let mut amount = 0;

    let mut test_sub_page_id = 0;

    let mut iterator = page_id.iterate_sub_page_ids();
    while let Some(sub_page_id) = iterator.next() {
        assert_eq!(test_sub_page_id, sub_page_id.get_value());

        amount += 1;
        test_sub_page_id += 1;
    }

    assert_eq!(amount, SUB_PAGES_PER_PAGE);
}

#[test]
fn test_iterator_with_page_1() {
    let page_id = PageId::new(1);

    let mut amount = 0;

    let mut test_sub_page_id = SUB_PAGES_PER_PAGE;

    let mut iterator = page_id.iterate_sub_page_ids();
    while let Some(sub_page_id) = iterator.next() {
        assert_eq!(test_sub_page_id, sub_page_id.get_value());

        amount += 1;
        test_sub_page_id += 1;
    }

    assert_eq!(amount, SUB_PAGES_PER_PAGE);
}

#[test]
fn test_iterator_with_page_2() {
    let page_id = PageId::new(2);

    let mut amount = 0;

    let mut test_sub_page_id = SUB_PAGES_PER_PAGE * 2;

    let mut iterator = page_id.iterate_sub_page_ids();
    while let Some(sub_page_id) = iterator.next() {
        assert_eq!(test_sub_page_id, sub_page_id.get_value());

        amount += 1;
        test_sub_page_id += 1;
    }

    assert_eq!(amount, SUB_PAGES_PER_PAGE);
}

#[test]
fn page_of_message_id_follows_division() {
    assert_eq!(0, PageId::from_message_id(0).get_value());
    assert_eq!(0, PageId::from_message_id(99_999).get_value());
    assert_eq!(1, PageId::from_message_id(100_000).get_value());
    assert_eq!(20, PageId::from_message_id(2_000_001).get_value());
}
