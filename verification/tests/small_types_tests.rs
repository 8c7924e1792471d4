use my_service_bus_shared::LockItem;
use my_service_bus_shared::Locks;
use my_service_bus_shared::MessageId;
use my_service_bus_shared::MessageProtobufModel;
use my_service_bus_shared::MySbMessage;
use my_service_bus_shared::MySbMessageContent;
use my_service_bus_shared::QueueRangeProtobufModel;
use my_service_bus_shared::TopicQueueType;

#[test]
fn message_id_round_trip() {
    let id = MessageId::new(12345);
    assert_eq!(12345, id.get_value());
}

#[test]
fn topic_queue_type_wire_values() {
    assert_eq!(0, TopicQueueType::from_u8(0).into_u8());
    assert_eq!(1, TopicQueueType::from_u8(1).into_u8());
    assert_eq!(2, TopicQueueType::from_u8(2).into_u8());
    assert_eq!(1, TopicQueueType::from_u8(77).into_u8());
}

#[test]
fn message_states_report_their_kind() {
    let loaded = MySbMessage::Loaded(MySbMessageContent {
        id: 4,
        content: vec![1, 2],
        time: 0,
        headers: vec![],
    });
    assert_eq!(2, loaded.content_size());
    assert_eq!(4, loaded.get_id());
    assert!(!loaded.is_missing());
    assert!(!loaded.is_gced());

    let missing = MySbMessage::Missing(9);
    assert_eq!(0, missing.content_size());
    assert_eq!(9, missing.get_id());
    assert!(missing.is_missing());

    let gced = MySbMessage::GarbageCollected(11);
    assert_eq!(0, gced.get_content_size());
    assert_eq!(11, gced.get_message_id());
    assert!(gced.is_gced());
}

#[test]
fn protobuf_model_getters() {
    let model = MessageProtobufModel::new(8, 900, vec![1], vec![]);
    assert_eq!(8, model.get_message_id());
    assert_eq!(900, model.get_created());

    let range = QueueRangeProtobufModel::new(5, 10);
    assert_eq!(5, range.get_from_id());
    assert_eq!(10, range.get_to_id());
}

#[test]
fn locks_track_holders() {
    let mut locks = Locks::new();

    locks.new_lock(1, String::from("first"));
    locks.new_lock(1, String::from("second"));
    locks.new_lock(2, String::from("other"));

    let all = locks.get_all();
    assert_eq!(2, all.len());

    locks.exit(1);
    locks.exit(1);
    locks.exit(2);

    let all = locks.get_all();
    assert_eq!(0, all.len());
}

#[test]
fn lock_item_to_string_joins_with_arrows() {
    let item = LockItem {
        id: 1,
        data: vec![String::from("a"), String::from("b")],
        date: 0,
    };

    assert_eq!("a->b", item.to_string());
}

#[test]
fn content_clone_is_deep() {
    let content = MySbMessageContent::new(3, vec![1, 2, 3], vec![], 77);
    let copy = content.clone();
    assert_eq!(3, copy.id);
    assert_eq!(vec![1, 2, 3], copy.content);
    assert_eq!(77, copy.time);
    assert_eq!(0, copy.headers.len());
}
