use vstd::prelude::*;

verus! {

/// One string header of a persisted message record.
pub struct MessageMetaDataProtobufModel {
    pub key: String,
    pub value: String,
}

/// The serializable form of one message: what the core hands to the
/// durable writer.  Encoding these records into wire bytes is the codec's
/// work, outside this core.
pub struct MessageProtobufModel {
    pub message_id: i64,
    pub created: i64,
    pub data: Vec<u8>,
    pub headers: Vec<MessageMetaDataProtobufModel>,
}

impl MessageProtobufModel {
    pub fn new(
        message_id: i64,
        create: i64,
        data: Vec<u8>,
        headers: Vec<MessageMetaDataProtobufModel>,
    ) -> (r: MessageProtobufModel)
        ensures
            r.message_id == message_id,
            r.created == create,
            r.data == data,
            r.headers == headers,
    {
        MessageProtobufModel { message_id, created: create, data, headers }
    }

    pub fn get_message_id(&self) -> (r: i64)
        ensures
            r == self.message_id,
    {
        self.message_id
    }

    pub fn get_created(&self) -> (r: i64)
        ensures
            r == self.created,
    {
        self.created
    }
}

/// An ordered batch of message records.
pub struct MessagesProtobufModel {
    pub messages: Vec<MessageProtobufModel>,
}

/// Durable snapshot of every topic.
pub struct TopicsSnapshotProtobufModel {
    pub data: Vec<TopicSnapshotProtobufModel>,
}

impl TopicsSnapshotProtobufModel {
    pub fn create_default() -> (r: TopicsSnapshotProtobufModel)
        ensures
            r.data@.len() == 0,
    {
        TopicsSnapshotProtobufModel { data: Vec::new() }
    }
}

/// Durable snapshot of one topic: its id, the highest allocated message
/// id, and its queues.
pub struct TopicSnapshotProtobufModel {
    pub topic_id: String,
    pub message_id: i64,
    pub not_used: i32,
    pub queues: Vec<QueueSnapshotProtobufModel>,
}

impl TopicSnapshotProtobufModel {
    pub fn new(topic_id: String, message_id: i64, queues: Vec<QueueSnapshotProtobufModel>) -> (r:
        TopicSnapshotProtobufModel)
        ensures
            r.topic_id == topic_id,
            r.message_id == message_id,
            r.not_used == 0,
            r.queues == queues,
    {
        TopicSnapshotProtobufModel { topic_id, message_id, not_used: 0, queues }
    }

    pub fn get_message_id(&self) -> (r: i64)
        ensures
            r == self.message_id,
    {
        self.message_id
    }
}

/// Durable snapshot of one queue: its id, its interval ranges, and its
/// lifetime policy as a wire value.
pub struct QueueSnapshotProtobufModel {
    pub queue_id: String,
    pub ranges: Vec<QueueRangeProtobufModel>,
    pub queue_type: i32,
}

/// One closed id range of a queue snapshot.
pub struct QueueRangeProtobufModel {
    pub from_id: i64,
    pub to_id: i64,
}

impl QueueRangeProtobufModel {
    pub fn new(from_id: i64, to_id: i64) -> (r: QueueRangeProtobufModel)
        ensures
            r.from_id == from_id,
            r.to_id == to_id,
    {
        QueueRangeProtobufModel { from_id, to_id }
    }

    pub fn get_from_id(&self) -> (r: i64)
        ensures
            r == self.from_id,
    {
        self.from_id
    }

    pub fn get_to_id(&self) -> (r: i64)
        ensures
            r == self.to_id,
    {
        self.to_id
    }
}

} // verus!
