use vstd::prelude::*;

use crate::bcl::BclDateTime;

verus! {

/// One string header of a message exchanged over the broker's RPC
/// surface.
pub struct MessageMetaDataProtobufModel {
    pub key: String,
    pub value: String,
}

/// One message as exchanged over the broker's RPC surface; the wire codec
/// that reads and writes it lives outside this core.
pub struct MessageProtobufModel {
    pub message_id: i64,
    pub created: Option<BclDateTime>,
    pub data: Vec<u8>,
    pub metadata: Vec<MessageMetaDataProtobufModel>,
}

/// An ordered batch of RPC message records.
pub struct MessagesProtobufModel {
    pub messages: Vec<MessageProtobufModel>,
}

} // verus!
