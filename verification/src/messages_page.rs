use vstd::prelude::*;

use std::collections::BTreeMap;

use crate::map_accounting::lemma_map_range_sum_empty;
use crate::map_accounting::lemma_map_range_sum_insert;
use crate::map_accounting::lemma_map_range_sum_member_bound;
use crate::map_accounting::map_range_sum;
use crate::messages::MessageHeader;
use crate::messages::clone_bytes;
use crate::messages::clone_string;
use crate::messages::MySbMessage;
use crate::messages::MySbMessageContent;
use crate::page_id::MESSAGES_IN_PAGE;
use crate::page_id::PageId;
use crate::protobuf_models::MessageMetaDataProtobufModel;
use crate::protobuf_models::MessageProtobufModel;
use crate::queue_with_intervals::QueueWithIntervals;
use crate::queue_with_intervals::lemma_ranges_contain_take_grow;
use crate::queue_with_intervals::ranges_contain;

verus! {

/// Payload bytes a per-id entry accounts for; tombstones and gaps hold
/// none.
pub open spec fn entry_content_size() -> spec_fn(MySbMessage) -> int {
    |m: MySbMessage| m.spec_content_size()
}

/// The id is stored in the page with full content.
pub open spec fn loaded_at(m: Map<i64, MySbMessage>, x: int) -> bool {
    &&& i64::MIN <= x <= i64::MAX
    &&& m.contains_key(x as i64)
    &&& m[x as i64] matches MySbMessage::Loaded(_)
}

/// The serializable record carries exactly the given message content.
pub open spec fn record_matches(rec: MessageProtobufModel, content: MySbMessageContent) -> bool {
    &&& rec.message_id == content.id
    &&& rec.created == content.time
    &&& rec.data@ == content.content@
    &&& rec.headers@.len() == content.headers@.len()
    &&& forall|i: int|
        0 <= i < content.headers@.len() ==> (#[trigger] rec.headers@[i]).key@
            == content.headers@[i].key@ && rec.headers@[i].value@ == content.headers@[i].value@
}

/// What a size query finds for an id.
pub enum MessageSize {
    MessageIsReady(usize),
    NotLoaded,
    Missing,
}

/// One 100,000-id page of a topic's message log: per-id message state,
/// byte-size accounting, and the pending-persist / being-persisted
/// handshake with the durable writer.
pub struct MessagesPage {
    pub to_be_persisted: QueueWithIntervals,
    pub being_persisted: QueueWithIntervals,
    pub full_loaded_messages: QueueWithIntervals,
    pub messages: BTreeMap<i64, MySbMessage>,
    pub size: usize,
    pub is_being_persisted: bool,
    pub page_id: PageId,
    pub last_accessed: i64,
}

impl MessagesPage {
    /// First message id of this page's window.
    pub open spec fn spec_first_id(self) -> int {
        self.page_id.spec_value() * (MESSAGES_IN_PAGE as int)
    }

    /// First message id past this page's window.
    pub open spec fn spec_next_first_id(self) -> int {
        self.spec_first_id() + (MESSAGES_IN_PAGE as int)
    }

    /// Structural invariant: an id is pending persistence or mid-persist,
    /// never both; every stored entry sits inside the page window under
    /// its own id; the byte counter equals the loaded payload bytes.
    pub open spec fn well_formed(self) -> bool {
        &&& self.page_id.in_bounds()
        &&& self.to_be_persisted.well_formed()
        &&& self.being_persisted.well_formed()
        &&& self.full_loaded_messages.well_formed()
        &&& forall|x: int|
            #[trigger] self.to_be_persisted.spec_contains(x)
                ==> !self.being_persisted.spec_contains(x)
        &&& forall|k: i64|
            #[trigger] self.messages@.contains_key(k) ==> self.spec_first_id() <= k
                < self.spec_next_first_id()
        &&& forall|k: i64|
            #[trigger] self.messages@.contains_key(k) ==> self.messages@[k].spec_id() == k
        &&& self.size == map_range_sum(
            self.messages@,
            entry_content_size(),
            self.spec_first_id(),
            self.spec_next_first_id(),
        )
    }

    pub fn create_empty(page_id: PageId) -> (r: MessagesPage)
        requires
            page_id.in_bounds(),
        ensures
            r.well_formed(),
            r.page_id == page_id,
            r.messages@ == Map::<i64, MySbMessage>::empty(),
            r.size == 0,
            r.to_be_persisted.intervals@.len() == 0,
            r.being_persisted.intervals@.len() == 0,
            r.full_loaded_messages.intervals@.len() == 0,
            !r.is_being_persisted,
            r.last_accessed == 0,
    {
        let r = MessagesPage {
            messages: BTreeMap::new(),
            size: 0,
            to_be_persisted: QueueWithIntervals::new(),
            being_persisted: QueueWithIntervals::new(),
            is_being_persisted: false,
            full_loaded_messages: QueueWithIntervals::new(),
            page_id,
            last_accessed: 0,
        };
        proof {
            lemma_map_range_sum_empty(
                r.messages@,
                entry_content_size(),
                r.spec_first_id(),
                r.spec_next_first_id(),
            );
        }
        r
    }

    /// Store the message under its id, adjust the byte accounting, and
    /// mark the id pending persistence and fully loaded.  A message whose
    /// id lies outside this page's window is a caller bug: it is ignored.
    #[verifier::rlimit(60)]
    pub fn add_message(&mut self, msg: MySbMessageContent)
        requires
            old(self).well_formed(),
            old(self).size + msg.content@.len() <= usize::MAX,
        ensures
            final(self).well_formed(),
            !(old(self).spec_first_id() <= msg.id < old(self).spec_next_first_id())
                ==> *final(self) == *old(self),
            old(self).spec_first_id() <= msg.id < old(self).spec_next_first_id() ==> {
                &&& final(self).messages@ == old(self).messages@.insert(
                    msg.id,
                    MySbMessage::Loaded(msg),
                )
                &&& forall|x: int|
                    final(self).to_be_persisted.spec_contains(x) <==> (old(
                        self,
                    ).to_be_persisted.spec_contains(x) || x == msg.id as int)
                &&& forall|x: int|
                    final(self).being_persisted.spec_contains(x) <==> (old(
                        self,
                    ).being_persisted.spec_contains(x) && x != msg.id as int)
                &&& forall|x: int|
                    final(self).full_loaded_messages.spec_contains(x) <==> (old(
                        self,
                    ).full_loaded_messages.spec_contains(x) || x == msg.id as int)
                &&& final(self).size == old(self).size + msg.content@.len() - (
                if old(self).messages@.contains_key(msg.id) {
                    old(self).messages@[msg.id].spec_content_size()
                } else {
                    0
                })
                &&& final(self).page_id == old(self).page_id
                &&& final(self).last_accessed == old(self).last_accessed
                &&& final(self).is_being_persisted == old(self).is_being_persisted
            },
    {
        let first = self.page_id.get_first_message_id();
        let last = self.page_id.get_last_message_id();
        if msg.id < first || msg.id > last {
            return ;
        }
        let msg_id = msg.id;
        let new_len = msg.content.len();
        if !self.to_be_persisted.has_message(msg_id) {
            self.to_be_persisted.enqueue_new(msg_id);
        }
        let _ = self.being_persisted.remove(msg_id);
        if !self.full_loaded_messages.has_message(msg_id) {
            self.full_loaded_messages.enqueue_new(msg_id);
        }
        let ghost m0 = self.messages@;
        let old_entry = self.messages.insert(msg_id, MySbMessage::Loaded(msg));
        proof {
            lemma_map_range_sum_insert(
                m0,
                entry_content_size(),
                self.spec_first_id(),
                self.spec_next_first_id(),
                msg_id,
                self.messages@[msg_id],
            );
            assert(forall|v: MySbMessage| #[trigger] entry_content_size()(v) >= 0);
        }
        let new_size = self.size + new_len;
        match &old_entry {
            Some(old_msg) => {
                proof {
                    lemma_map_range_sum_member_bound(
                        m0,
                        entry_content_size(),
                        self.spec_first_id(),
                        self.spec_next_first_id(),
                        msg_id,
                    );
                }
                self.size = new_size - old_msg.content_size();
            },
            None => {
                self.size = new_size;
            },
        }
    }

    /// How many payload bytes the entry under the id holds: its size when
    /// loaded, `NotLoaded` for a tombstone, `Missing` when the id was
    /// never received.
    pub fn get_message_size(&self, message_id: &i64) -> (r: MessageSize)
        requires
            self.well_formed(),
        ensures
            match r {
                MessageSize::MessageIsReady(s) => loaded_at(self.messages@, *message_id as int)
                    && s == self.messages@[*message_id].spec_content_size(),
                MessageSize::NotLoaded => self.messages@.contains_key(*message_id)
                    && self.messages@[*message_id] matches MySbMessage::GarbageCollected(_),
                MessageSize::Missing => !self.messages@.contains_key(*message_id)
                    || self.messages@[*message_id] matches MySbMessage::Missing(_),
            },
    {
        match self.messages.get(message_id) {
            None => MessageSize::Missing,
            Some(entry) => match entry {
                MySbMessage::Loaded(msg) => MessageSize::MessageIsReady(msg.content.len()),
                MySbMessage::Missing(_) => MessageSize::Missing,
                MySbMessage::GarbageCollected(_) => MessageSize::NotLoaded,
            },
        }
    }

    /// Drain the pending-persist set in ascending id order: every still
    /// loaded pending id moves into the being-persisted set and yields a
    /// serializable record; pending ids without loaded content are
    /// dropped.  A second call with no new arrivals yields nothing.
    #[verifier::rlimit(100)]
    pub fn get_messages_to_persist(&mut self) -> (r: Option<Vec<MessageProtobufModel>>)
        requires
            old(self).well_formed(),
        ensures
            final(self).well_formed(),
            final(self).to_be_persisted.intervals@.len() == 0,
            forall|x: int| !final(self).to_be_persisted.spec_contains(x),
            final(self).messages == old(self).messages,
            final(self).size == old(self).size,
            final(self).page_id == old(self).page_id,
            final(self).full_loaded_messages == old(self).full_loaded_messages,
            final(self).last_accessed == old(self).last_accessed,
            final(self).is_being_persisted == old(self).is_being_persisted,
            forall|x: int|
                final(self).being_persisted.spec_contains(x) <==> (old(
                    self,
                ).being_persisted.spec_contains(x) || (old(self).to_be_persisted.spec_contains(x)
                    && loaded_at(old(self).messages@, x))),
            match r {
                None => forall|x: int|
                    !(old(self).to_be_persisted.spec_contains(x) && loaded_at(
                        old(self).messages@,
                        x,
                    )),
                Some(v) => {
                    &&& v@.len() > 0
                    &&& forall|i: int, j: int|
                        0 <= i < j < v@.len() ==> #[trigger] v@[i].message_id
                            < #[trigger] v@[j].message_id
                    &&& forall|i: int|
                        0 <= i < v@.len() ==> {
                            &&& old(self).to_be_persisted.spec_contains(
                                (#[trigger] v@[i]).message_id as int,
                            )
                            &&& loaded_at(old(self).messages@, v@[i].message_id as int)
                            &&& (old(self).messages@[v@[i].message_id] matches
                                MySbMessage::Loaded(content) && record_matches(v@[i], content))
                        }
                    &&& forall|x: int|
                        (old(self).to_be_persisted.spec_contains(x) && loaded_at(
                            old(self).messages@,
                            x,
                        )) ==> exists|i: int|
                            0 <= i < v@.len() && (#[trigger] v@[i]).message_id as int == x
                },
            },
    {
        let mut result: Vec<MessageProtobufModel> = Vec::new();
        loop
            invariant
                self.well_formed(),
                self.messages == old(self).messages,
                self.size == old(self).size,
                self.page_id == old(self).page_id,
                self.full_loaded_messages == old(self).full_loaded_messages,
                self.last_accessed == old(self).last_accessed,
                self.is_being_persisted == old(self).is_being_persisted,
                forall|x: int|
                    #[trigger] self.to_be_persisted.spec_contains(x) ==> old(
                        self,
                    ).to_be_persisted.spec_contains(x),
                forall|x: int|
                    #[trigger] self.being_persisted.spec_contains(x) <==> (old(
                        self,
                    ).being_persisted.spec_contains(x) || (old(self).to_be_persisted.spec_contains(
                        x,
                    ) && !self.to_be_persisted.spec_contains(x) && loaded_at(
                        old(self).messages@,
                        x,
                    ))),
                forall|i: int, j: int|
                    0 <= i < j < result@.len() ==> #[trigger] result@[i].message_id
                        < #[trigger] result@[j].message_id,
                forall|i: int, x: int|
                    0 <= i < result@.len() && #[trigger] self.to_be_persisted.spec_contains(x)
                        ==> (#[trigger] result@[i]).message_id < x,
                forall|i: int|
                    0 <= i < result@.len() ==> {
                        &&& old(self).to_be_persisted.spec_contains(
                            (#[trigger] result@[i]).message_id as int,
                        )
                        &&& !self.to_be_persisted.spec_contains(result@[i].message_id as int)
                        &&& loaded_at(old(self).messages@, result@[i].message_id as int)
                        &&& (old(self).messages@[result@[i].message_id] matches
                            MySbMessage::Loaded(content) && record_matches(result@[i], content))
                    },
                forall|x: int|
                    (old(self).to_be_persisted.spec_contains(x)
                        && !self.to_be_persisted.spec_contains(x) && loaded_at(
                        old(self).messages@,
                        x,
                    )) ==> exists|i: int|
                        0 <= i < result@.len() && (#[trigger] result@[i]).message_id as int == x,
            ensures
                self.to_be_persisted.intervals@.len() == 0,
            decreases self.to_be_persisted.spec_count(),
        {
            proof {
                crate::queue_with_intervals::lemma_ranges_count_len(
                    self.to_be_persisted.intervals@,
                );
            }
            let next = self.to_be_persisted.dequeue();
            match next {
                None => {
                    break ;
                },
                Some(msg_id) => {
                    match self.messages.get(&msg_id) {
                        Some(message) => {
                            match message {
                                MySbMessage::Loaded(content) => {
                                    self.being_persisted.enqueue_new(msg_id);
                                    let record = MessageProtobufModel {
                                        message_id: content.id,
                                        created: content.time,
                                        data: clone_bytes(&content.content),
                                        headers: headers_to_protobuf(&content.headers),
                                    };
                                    let ghost r0 = result@;
                                    result.push(record);
                                    proof {
                                        assert(forall|i: int|
                                            0 <= i < r0.len() ==> result@[i] == r0[i]);
                                        assert(result@[result@.len() - 1].message_id == msg_id);
                                    }
                                },
                                MySbMessage::Missing(_) => {},
                                MySbMessage::GarbageCollected(_) => {},
                            }
                        },
                        None => {},
                    }
                },
            }
            proof {
                crate::queue_with_intervals::lemma_ranges_count_len(
                    self.to_be_persisted.intervals@,
                );
            }
        }
        if result.len() == 0 {
            proof {
                assert forall|x: int|
                    !(old(self).to_be_persisted.spec_contains(x) && loaded_at(
                        old(self).messages@,
                        x,
                    )) by {
                    if old(self).to_be_persisted.spec_contains(x) && loaded_at(
                        old(self).messages@,
                        x,
                    ) {
                        assert(!self.to_be_persisted.spec_contains(x));
                    }
                }
            }
            None
        } else {
            Some(result)
        }
    }

    /// The durable write was acknowledged: every mid-persist id is done.
    pub fn persisted(&mut self)
        requires
            old(self).well_formed(),
        ensures
            final(self).well_formed(),
            final(self).being_persisted.intervals@.len() == 0,
            forall|x: int| !final(self).being_persisted.spec_contains(x),
            final(self).to_be_persisted == old(self).to_be_persisted,
            final(self).messages == old(self).messages,
            final(self).size == old(self).size,
            final(self).page_id == old(self).page_id,
            final(self).full_loaded_messages == old(self).full_loaded_messages,
            final(self).last_accessed == old(self).last_accessed,
            final(self).is_being_persisted == old(self).is_being_persisted,
    {
        self.being_persisted.clean();
    }

    /// The durable write failed: every mid-persist id goes back into the
    /// pending-persist set, to be drained again later.
    pub fn not_persisted(&mut self)
        requires
            old(self).well_formed(),
        ensures
            final(self).well_formed(),
            forall|x: int|
                final(self).to_be_persisted.spec_contains(x) <==> (old(
                    self,
                ).to_be_persisted.spec_contains(x) || old(self).being_persisted.spec_contains(x)),
            final(self).being_persisted.intervals@.len() == 0,
            forall|x: int| !final(self).being_persisted.spec_contains(x),
            final(self).messages == old(self).messages,
            final(self).size == old(self).size,
            final(self).page_id == old(self).page_id,
            final(self).full_loaded_messages == old(self).full_loaded_messages,
            final(self).last_accessed == old(self).last_accessed,
            final(self).is_being_persisted == old(self).is_being_persisted,
    {
        let ghost being0 = self.being_persisted.intervals@;
        let n = self.being_persisted.intervals.len();
        let mut index: usize = 0;
        while index < n
            invariant
                n == being0.len(),
                0 <= index <= n,
                self.being_persisted == old(self).being_persisted,
                being0 == old(self).being_persisted.intervals@,
                old(self).well_formed(),
                self.to_be_persisted.well_formed(),
                self.messages == old(self).messages,
                self.size == old(self).size,
                self.page_id == old(self).page_id,
                self.full_loaded_messages == old(self).full_loaded_messages,
                self.last_accessed == old(self).last_accessed,
                self.is_being_persisted == old(self).is_being_persisted,
                forall|x: int|
                    #![trigger self.to_be_persisted.spec_contains(x)]
                    self.to_be_persisted.spec_contains(x) <==> (old(
                        self,
                    ).to_be_persisted.spec_contains(x) || ranges_contain(
                        being0.subrange(0, index as int),
                        x,
                    )),
            decreases n - index,
        {
            let range = self.being_persisted.intervals[index];
            proof {
                assert(range == being0[index as int]);
                assert(range.well_formed());
            }
            let ghost tp0 = self.to_be_persisted;
            self.to_be_persisted.enqueue_range(&range);
            proof {
                assert forall|x: int|
                    self.to_be_persisted.spec_contains(x) <==> (old(
                        self,
                    ).to_be_persisted.spec_contains(x) || ranges_contain(
                        being0.subrange(0, index as int + 1),
                        x,
                    )) by {
                    assert(self.to_be_persisted.spec_contains(x) <==> (tp0.spec_contains(x)
                        || range.spec_contains(x)));
                    assert(tp0.spec_contains(x) <==> (old(self).to_be_persisted.spec_contains(x)
                        || ranges_contain(being0.subrange(0, index as int), x)));
                    lemma_ranges_contain_take_grow(being0, index as int, x);
                }
            }
            index += 1;
        }
        proof {
            assert(being0.subrange(0, n as int) =~= being0);
        }
        self.being_persisted.clean();
    }
}

/// Copy a message's headers into their serializable form, pair for pair.
fn headers_to_protobuf(headers: &Vec<MessageHeader>) -> (r: Vec<MessageMetaDataProtobufModel>)
    ensures
        r@.len() == headers@.len(),
        forall|i: int|
            0 <= i < headers@.len() ==> (#[trigger] r@[i]).key@ == headers@[i].key@ && r@[i].value@
                == headers@[i].value@,
{
    let n = headers.len();
    let mut result: Vec<MessageMetaDataProtobufModel> = Vec::new();
    let mut index: usize = 0;
    while index < n
        invariant
            n == headers@.len(),
            0 <= index <= n,
            result@.len() == index,
            forall|i: int|
                0 <= i < index ==> (#[trigger] result@[i]).key@ == headers@[i].key@
                    && result@[i].value@ == headers@[i].value@,
        decreases n - index,
    {
        let h = MessageMetaDataProtobufModel {
            key: clone_string(&headers[index].key),
            value: clone_string(&headers[index].value),
        };
        result.push(h);
        index += 1;
    }
    result
}

} // verus!
