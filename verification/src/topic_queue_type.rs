use vstd::prelude::*;

verus! {

/// Lifetime policy of a topic queue: kept forever, deleted when its last
/// subscriber disconnects, or kept forever but limited to one connection.
#[derive(Debug, Clone, Copy, PartialEq, Eq, Structural)]
pub enum TopicQueueType {
    Permanent,
    DeleteOnDisconnect,
    PermanentWithSingleConnection,
}

impl TopicQueueType {
    /// Wire encoding of the queue type.
    pub open spec fn spec_u8(self) -> u8 {
        match self {
            TopicQueueType::Permanent => 0,
            TopicQueueType::DeleteOnDisconnect => 1,
            TopicQueueType::PermanentWithSingleConnection => 2,
        }
    }

    /// Decode from the wire value; any unknown value falls back to
    /// `DeleteOnDisconnect`.
    pub fn from_u8(src: u8) -> (r: TopicQueueType)
        ensures
            src == 0 ==> r == TopicQueueType::Permanent,
            src == 1 ==> r == TopicQueueType::DeleteOnDisconnect,
            src == 2 ==> r == TopicQueueType::PermanentWithSingleConnection,
            src > 2 ==> r == TopicQueueType::DeleteOnDisconnect,
    {
        match src {
            0 => TopicQueueType::Permanent,
            1 => TopicQueueType::DeleteOnDisconnect,
            2 => TopicQueueType::PermanentWithSingleConnection,
            _ => TopicQueueType::DeleteOnDisconnect,
        }
    }

    pub fn into_u8(&self) -> (r: u8)
        ensures
            r == self.spec_u8(),
    {
        match self {
            TopicQueueType::Permanent => 0,
            TopicQueueType::DeleteOnDisconnect => 1,
            TopicQueueType::PermanentWithSingleConnection => 2,
        }
    }
}

} // verus!
