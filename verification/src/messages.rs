use vstd::prelude::*;

verus! {

/// Message identifier within a topic: a non-negative 64-bit integer,
/// allocated in strictly increasing order by the broker.
#[derive(Debug, Clone, Copy, PartialEq, Eq, PartialOrd, Ord, Hash, Structural)]
pub struct MessageId(i64);

impl MessageId {
    pub closed spec fn spec_value(self) -> int {
        self.0 as int
    }

    pub fn new(value: i64) -> (r: MessageId)
        ensures
            r.spec_value() == value,
    {
        MessageId(value)
    }

    pub fn get_value(&self) -> (r: i64)
        ensures
            r == self.spec_value(),
    {
        self.0
    }
}

/// One string-keyed header attached to a message.
pub struct MessageHeader {
    pub key: String,
    pub value: String,
}

/// A message's full content: id, payload bytes, creation time in unix
/// microseconds and its headers, possibly empty.
pub struct MySbMessageContent {
    pub id: i64,
    pub content: Vec<u8>,
    pub time: i64,
    pub headers: Vec<MessageHeader>,
}

impl MySbMessageContent {
    pub fn new(id: i64, content: Vec<u8>, headers: Vec<MessageHeader>, time: i64) -> (r:
        MySbMessageContent)
        ensures
            r.id == id,
            r.content == content,
            r.headers == headers,
            r.time == time,
    {
        MySbMessageContent { id, content, time, headers }
    }

    /// A deep copy: same id and time, equal payload bytes, and headers
    /// equal pair for pair.
    pub fn clone(&self) -> (r: MySbMessageContent)
        ensures
            r.id == self.id,
            r.time == self.time,
            r.content@ == self.content@,
            r.headers@.len() == self.headers@.len(),
            forall|i: int|
                0 <= i < self.headers@.len() ==> (#[trigger] r.headers@[i]).key@
                    == self.headers@[i].key@ && r.headers@[i].value@ == self.headers@[i].value@,
    {
        let mut headers: Vec<MessageHeader> = Vec::new();
        let n = self.headers.len();
        let mut index: usize = 0;
        while index < n
            invariant
                n == self.headers@.len(),
                0 <= index <= n,
                headers@.len() == index,
                forall|i: int|
                    0 <= i < index ==> (#[trigger] headers@[i]).key@ == self.headers@[i].key@
                        && headers@[i].value@ == self.headers@[i].value@,
            decreases n - index,
        {
            let h = MessageHeader {
                key: clone_string(&self.headers[index].key),
                value: clone_string(&self.headers[index].value),
            };
            headers.push(h);
            index += 1;
        }
        MySbMessageContent {
            id: self.id,
            content: clone_bytes(&self.content),
            time: self.time,
            headers,
        }
    }
}

/// A copy of a string, character for character.
pub(crate) fn clone_string(s: &String) -> (r: String)
    ensures
        r@ == s@,
{
    s.clone()
}

/// A copy of a byte vector, byte for byte.
pub(crate) fn clone_bytes(v: &Vec<u8>) -> (r: Vec<u8>)
    ensures
        r@ == v@,
{
    let n = v.len();
    let mut result: Vec<u8> = Vec::new();
    let mut index: usize = 0;
    while index < n
        invariant
            n == v@.len(),
            0 <= index <= n,
            result@ == v@.subrange(0, index as int),
        decreases n - index,
    {
        result.push(v[index]);
        proof {
            assert(result@ =~= v@.subrange(0, index as int + 1));
        }
        index += 1;
    }
    proof {
        assert(v@.subrange(0, n as int) =~= v@);
    }
    result
}

/// Per-id message state inside a page: loaded with full content, queried
/// but never received, or evicted after persistence with only a tombstone
/// left.
pub enum MySbMessage {
    Loaded(MySbMessageContent),
    Missing(i64),
    GarbageCollected(i64),
}

impl MySbMessage {
    /// Bytes of payload this entry accounts for: only loaded content
    /// occupies memory.
    pub open spec fn spec_content_size(self) -> int {
        match self {
            MySbMessage::Loaded(msg) => msg.content@.len() as int,
            MySbMessage::Missing(_) => 0,
            MySbMessage::GarbageCollected(_) => 0,
        }
    }

    pub open spec fn spec_id(self) -> int {
        match self {
            MySbMessage::Loaded(msg) => msg.id as int,
            MySbMessage::Missing(id) => id as int,
            MySbMessage::GarbageCollected(id) => id as int,
        }
    }

    pub fn content_size(&self) -> (r: usize)
        ensures
            r == self.spec_content_size(),
    {
        match self {
            MySbMessage::Loaded(msg) => msg.content.len(),
            MySbMessage::Missing(_) => 0,
            MySbMessage::GarbageCollected(_) => 0,
        }
    }

    pub fn get_content_size(&self) -> (r: usize)
        ensures
            r == self.spec_content_size(),
    {
        self.content_size()
    }

    pub fn get_id(&self) -> (r: i64)
        ensures
            r == self.spec_id(),
    {
        match self {
            MySbMessage::Loaded(msg) => msg.id,
            MySbMessage::Missing(id) => *id,
            MySbMessage::GarbageCollected(id) => *id,
        }
    }

    pub fn get_message_id(&self) -> (r: i64)
        ensures
            r == self.spec_id(),
    {
        self.get_id()
    }

    pub fn is_gced(&self) -> (r: bool)
        ensures
            r == (self matches MySbMessage::GarbageCollected(_)),
    {
        match self {
            MySbMessage::GarbageCollected(_) => true,
            _ => false,
        }
    }

    pub fn is_missing(&self) -> (r: bool)
        ensures
            r == (self matches MySbMessage::Missing(_)),
    {
        match self {
            MySbMessage::Missing(_) => true,
            _ => false,
        }
    }

    /// The loaded content; calling this on any other state is a caller
    /// bug, kept out by the precondition.
    pub fn unwrap_as_message(&self) -> (r: &MySbMessageContent)
        requires
            self matches MySbMessage::Loaded(_),
        ensures
            self matches MySbMessage::Loaded(msg) && r == msg,
    {
        match self {
            MySbMessage::Loaded(msg) => msg,
            MySbMessage::Missing(_) => unreached(),
            MySbMessage::GarbageCollected(_) => unreached(),
        }
    }
}

} // verus!
