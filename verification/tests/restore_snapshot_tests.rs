use my_service_bus_shared::MessagesPageRestoreSnapshot;
use my_service_bus_shared::MySbMessage;
use my_service_bus_shared::MySbMessageContent;
use my_service_bus_shared::PageId;

#[test]
fn test_general_case() {
    let mut messages = std::collections::BTreeMap::new();

    messages.insert(
        2,
        MySbMessageContent {
            id: 2,
            content: vec![2, 2],
            time: 0,
            headers: vec![],
        },
    );

    messages.insert(
        4,
        MySbMessageContent {
            id: 4,
            content: vec![4, 4, 4],
            time: 0,
            headers: vec![],
        },
    );

    let mut snapshot = MessagesPageRestoreSnapshot::new_with_messages(PageId::new(0), 2, 5, messages);

    let mut result: Vec<MySbMessage> = Vec::new();
    while let Some(msg) = snapshot.next() {
        result.push(msg);
    }

    assert_eq!(6, result.len());

    let el = result.remove(0);
    if let MySbMessage::GarbageCollected(id) = el {
        assert_eq!(0, id)
    } else {
        panic!("Should not be here")
    }

    let el = result.remove(0);
    if let MySbMessage::GarbageCollected(id) = el {
        assert_eq!(1, id)
    } else {
        panic!("Should not be here")
    }

    let el = result.remove(0);
    if let MySbMessage::Loaded(content) = el {
        assert_eq!(2, content.id);
        assert_eq!(vec![2u8, 2u8], content.content);
    } else {
        panic!("Should not be here")
    }

    let el = result.remove(0);
    if let MySbMessage::Missing(id) = el {
        assert_eq!(3, id);
    } else {
        panic!("Should not be here")
    }

    let el = result.remove(0);
    if let MySbMessage::Loaded(content) = el {
        assert_eq!(4, content.id);
        assert_eq!(vec![4u8, 4u8, 4u8], content.content);
    } else {
        panic!("Should not be here")
    }

    let el = result.remove(0);
    if let MySbMessage::Missing(id) = el {
        assert_eq!(5, id);
    } else {
        panic!("Should not be here")
    }
}
