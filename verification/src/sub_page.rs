use vstd::prelude::*;

use std::collections::BTreeMap;

use crate::map_accounting::lemma_map_range_sum_empty;
use crate::map_accounting::lemma_map_range_sum_insert;
use crate::map_accounting::lemma_map_range_sum_member_bound;
use crate::map_accounting::lemma_map_range_sum_nonneg;
use crate::map_accounting::lemma_map_range_sum_remove;
use crate::map_accounting::lemma_map_range_sum_split;
use crate::map_accounting::map_range_sum;
use crate::messages::MySbMessageContent;
use crate::queue_with_intervals::QueueWithIntervals;
use crate::size_and_amount::SizeAndAmount;
use crate::sub_page_id::SUB_PAGE_MESSAGES_AMOUNT;
use crate::sub_page_id::SubPageId;

verus! {

/// Payload bytes a stored message accounts for.
pub open spec fn content_len() -> spec_fn(MySbMessageContent) -> int {
    |msg: MySbMessageContent| msg.content@.len() as int
}

/// One message each, whatever its payload: counts stored messages.
pub open spec fn one_each() -> spec_fn(MySbMessageContent) -> int {
    |msg: MySbMessageContent| 1int
}

/// What a lookup in a sub-page finds: the loaded content, a tombstone of
/// an id whose payload was evicted after persistence, or nothing — the id
/// was never received.
pub enum GetMessageResult<'s> {
    Message(&'s MySbMessageContent),
    Missing,
    GarbageCollected,
}

impl<'s> GetMessageResult<'s> {
    /// The loaded content; any other state is a caller bug, kept out by
    /// the precondition.
    pub fn unwrap(&'s self) -> (r: &'s MySbMessageContent)
        requires
            self matches GetMessageResult::Message(_),
        ensures
            self matches GetMessageResult::Message(msg) && r == msg,
    {
        match self {
            GetMessageResult::Message(msg) => msg,
            GetMessageResult::Missing => unreached(),
            GetMessageResult::GarbageCollected => unreached(),
        }
    }

    pub fn is_message_content(&self) -> (r: bool)
        ensures
            r == (self matches GetMessageResult::Message(_)),
    {
        match self {
            GetMessageResult::Message(_) => true,
            _ => false,
        }
    }

    pub fn is_garbage_collected(&self) -> (r: bool)
        ensures
            r == (self matches GetMessageResult::GarbageCollected),
    {
        match self {
            GetMessageResult::GarbageCollected => true,
            _ => false,
        }
    }
}

/// One 1,000-id slice of a topic's message log.  Owns the loaded message
/// payloads of its id window, remembers which ids were garbage-collected,
/// and tracks which ids still wait for durable persistence.
pub struct SubPage {
    pub sub_page_id: SubPageId,
    pub messages: BTreeMap<i64, MySbMessageContent>,
    pub to_persist: QueueWithIntervals,
    pub created: i64,
    pub garbage_collected: QueueWithIntervals,
    pub loaded: QueueWithIntervals,
    pub size_and_amount: SizeAndAmount,
}

impl SubPage {
    /// First message id of this sub-page's window.
    pub open spec fn spec_first_id(self) -> int {
        self.sub_page_id.spec_first_message_id()
    }

    /// First message id past this sub-page's window.
    pub open spec fn spec_next_first_id(self) -> int {
        self.spec_first_id() + (SUB_PAGE_MESSAGES_AMOUNT as int)
    }

    /// The running byte and message accounting.
    pub open spec fn spec_size_and_amount(self) -> SizeAndAmount {
        self.size_and_amount
    }

    /// Structural invariant: every stored message sits inside the window
    /// under its own id; garbage-collected ids lie in the window and are
    /// no longer stored; the byte counter equals the payload bytes
    /// actually held and the message counter the number of stored
    /// messages.
    pub open spec fn well_formed(self) -> bool {
        &&& self.sub_page_id.in_bounds()
        &&& self.to_persist.well_formed()
        &&& self.garbage_collected.well_formed()
        &&& self.loaded.well_formed()
        &&& forall|k: i64|
            #[trigger] self.messages@.contains_key(k) ==> self.spec_first_id() <= k
                < self.spec_next_first_id()
        &&& forall|k: i64|
            #[trigger] self.messages@.contains_key(k) ==> self.messages@[k].id == k
        &&& forall|k: int|
            #[trigger] self.garbage_collected.spec_contains(k) ==> self.spec_first_id() <= k
                < self.spec_next_first_id()
        &&& forall|k: i64|
            #[trigger] self.messages@.contains_key(k) ==> !self.garbage_collected.spec_contains(
                k as int,
            )
        &&& self.spec_size_and_amount().size == map_range_sum(
            self.messages@,
            content_len(),
            self.spec_first_id(),
            self.spec_next_first_id(),
        )
        &&& self.spec_size_and_amount().amount == map_range_sum(
            self.messages@,
            one_each(),
            self.spec_first_id(),
            self.spec_next_first_id(),
        )
    }

    pub fn new(sub_page_id: SubPageId) -> (r: SubPage)
        requires
            sub_page_id.in_bounds(),
        ensures
            r.well_formed(),
            r.sub_page_id == sub_page_id,
            r.messages@ == Map::<i64, MySbMessageContent>::empty(),
            r.to_persist.intervals@.len() == 0,
            r.garbage_collected.intervals@.len() == 0,
            r.loaded.intervals@.len() == 0,
            r.created == 0,
            r.spec_size_and_amount().size == 0,
            r.spec_size_and_amount().amount == 0,
    {
        let r = SubPage {
            sub_page_id,
            messages: BTreeMap::new(),
            created: 0,
            size_and_amount: SizeAndAmount::new(),
            to_persist: QueueWithIntervals::new(),
            garbage_collected: QueueWithIntervals::new(),
            loaded: QueueWithIntervals::new(),
        };
        proof {
            lemma_map_range_sum_empty(
                r.messages@,
                content_len(),
                r.spec_first_id(),
                r.spec_next_first_id(),
            );
            lemma_map_range_sum_empty(
                r.messages@,
                one_each(),
                r.spec_first_id(),
                r.spec_next_first_id(),
            );
        }
        r
    }

    /// Rebuild a sub-page from already-loaded messages: the accounting is
    /// recomputed and every stored id is marked loaded; nothing is pending
    /// persistence and nothing is garbage-collected.
    pub fn restore(sub_page_id: SubPageId, messages: BTreeMap<i64, MySbMessageContent>) -> (r:
        SubPage)
        requires
            sub_page_id.in_bounds(),
            forall|k: i64|
                #[trigger] messages@.contains_key(k) ==> sub_page_id.spec_first_message_id() <= k
                    < sub_page_id.spec_first_message_id() + (SUB_PAGE_MESSAGES_AMOUNT as int),
            forall|k: i64| #[trigger] messages@.contains_key(k) ==> messages@[k].id == k,
            map_range_sum(
                messages@,
                content_len(),
                sub_page_id.spec_first_message_id(),
                sub_page_id.spec_first_message_id() + (SUB_PAGE_MESSAGES_AMOUNT as int),
            ) <= usize::MAX,
            map_range_sum(
                messages@,
                one_each(),
                sub_page_id.spec_first_message_id(),
                sub_page_id.spec_first_message_id() + (SUB_PAGE_MESSAGES_AMOUNT as int),
            ) <= usize::MAX,
        ensures
            r.well_formed(),
            r.sub_page_id == sub_page_id,
            r.messages == messages,
            r.to_persist.intervals@.len() == 0,
            r.garbage_collected.intervals@.len() == 0,
            r.created == 0,
            forall|x: int|
                r.loaded.spec_contains(x) <==> (sub_page_id.spec_first_message_id() <= x
                    < sub_page_id.spec_first_message_id() + (SUB_PAGE_MESSAGES_AMOUNT as int)
                    && messages@.contains_key(x as i64)),
    {
        let ghost first = sub_page_id.spec_first_message_id();
        let ghost next = first + (SUB_PAGE_MESSAGES_AMOUNT as int);
        let mut size_and_amount = SizeAndAmount::new();
        let mut loaded = QueueWithIntervals::new();
        let first_id = sub_page_id.get_first_message_id();
        let next_id = sub_page_id.get_first_message_id_of_next_sub_page();
        proof {
            vstd::arithmetic::mul::lemma_mul_nonnegative(
                sub_page_id.spec_value(),
                SUB_PAGE_MESSAGES_AMOUNT as int,
            );
        }
        let mut msg_id = first_id;
        while msg_id < next_id
            invariant
                first == first_id,
                next == next_id,
                0 <= first <= msg_id <= next,
                next < i64::MAX,
                loaded.well_formed(),
                forall|x: int|
                    #[trigger] loaded.spec_contains(x) <==> (first <= x < msg_id
                        && messages@.contains_key(x as i64)),
                size_and_amount.size == map_range_sum(
                    messages@,
                    content_len(),
                    first,
                    msg_id as int,
                ),
                size_and_amount.amount == map_range_sum(
                    messages@,
                    one_each(),
                    first,
                    msg_id as int,
                ),
                map_range_sum(messages@, content_len(), first, next) <= usize::MAX,
                map_range_sum(messages@, one_each(), first, next) <= usize::MAX,
                forall|k: i64|
                    #[trigger] messages@.contains_key(k) ==> first <= k < next,
            decreases next_id - msg_id,
        {
            proof {
                lemma_map_range_sum_split(messages@, content_len(), first, msg_id as int, next);
                lemma_map_range_sum_split(
                    messages@,
                    content_len(),
                    msg_id as int,
                    msg_id as int + 1,
                    next,
                );
                lemma_map_range_sum_split(
                    messages@,
                    content_len(),
                    first,
                    msg_id as int,
                    msg_id as int + 1,
                );
                lemma_map_range_sum_nonneg(
                    messages@,
                    content_len(),
                    msg_id as int + 1,
                    next,
                );
                assert(map_range_sum(messages@, content_len(), msg_id as int + 1, msg_id as int + 1)
                    == 0);
                lemma_map_range_sum_split(messages@, one_each(), first, msg_id as int, next);
                lemma_map_range_sum_split(
                    messages@,
                    one_each(),
                    msg_id as int,
                    msg_id as int + 1,
                    next,
                );
                lemma_map_range_sum_split(
                    messages@,
                    one_each(),
                    first,
                    msg_id as int,
                    msg_id as int + 1,
                );
                lemma_map_range_sum_nonneg(messages@, one_each(), msg_id as int + 1, next);
                assert(map_range_sum(messages@, one_each(), msg_id as int + 1, msg_id as int + 1)
                    == 0);
                assert(forall|v: MySbMessageContent| #[trigger] content_len()(v) >= 0);
                assert(forall|v: MySbMessageContent| #[trigger] one_each()(v) >= 0);
            }
            match messages.get(&msg_id) {
                Some(msg) => {
                    size_and_amount.added(msg.content.len());
                    match loaded.enqueue(msg_id) {
                        Ok(_) => {},
                        Err(_) => {
                            proof {
                                assert(false);
                            }
                        },
                    }
                },
                None => {},
            }
            msg_id = msg_id + 1;
        }
        let r = SubPage {
            sub_page_id,
            messages,
            created: 0,
            size_and_amount,
            to_persist: QueueWithIntervals::new(),
            garbage_collected: QueueWithIntervals::new(),
            loaded,
        };
        r
    }

    /// Insert or overwrite the message under its id, adjust the byte
    /// accounting, mark the id pending persistence and loaded, and clear
    /// any tombstone for it.  A message whose id lies outside this
    /// sub-page's window is a caller bug: it is ignored.  Returns the
    /// overwritten content, if any.
    #[verifier::rlimit(60)]
    pub fn add_message(&mut self, message: MySbMessageContent) -> (r: Option<MySbMessageContent>)
        requires
            old(self).well_formed(),
            old(self).spec_size_and_amount().size + message.content@.len() <= usize::MAX,
            old(self).spec_size_and_amount().amount + 1 <= usize::MAX,
        ensures
            final(self).well_formed(),
            !old(self).sub_page_id.spec_contains_message_id(message.id as int) ==> r is None
                && *final(self) == *old(self),
            old(self).sub_page_id.spec_contains_message_id(message.id as int) ==> {
                &&& final(self).messages@ == old(self).messages@.insert(message.id, message)
                &&& match r {
                    Some(old_message) => old(self).messages@.contains_key(message.id)
                        && old_message == old(self).messages@[message.id],
                    None => !old(self).messages@.contains_key(message.id),
                }
                &&& forall|x: int|
                    final(self).to_persist.spec_contains(x) <==> (old(
                        self,
                    ).to_persist.spec_contains(x) || x == message.id as int)
                &&& forall|x: int|
                    final(self).loaded.spec_contains(x) <==> (old(self).loaded.spec_contains(x)
                        || x == message.id as int)
                &&& forall|x: int|
                    final(self).garbage_collected.spec_contains(x) <==> (old(
                        self,
                    ).garbage_collected.spec_contains(x) && x != message.id as int)
                &&& final(self).spec_size_and_amount().size == old(
                    self,
                ).spec_size_and_amount().size + message.content@.len() - (
                if old(self).messages@.contains_key(message.id) {
                    old(self).messages@[message.id].content@.len() as int
                } else {
                    0
                })
                &&& final(self).sub_page_id == old(self).sub_page_id
                &&& final(self).created == old(self).created
            },
    {
        if !self.sub_page_id.is_my_message_id(message.id) {
            return None;
        }
        let msg_id = message.id;
        let new_len = message.content.len();
        if !self.to_persist.has_message(msg_id) {
            self.to_persist.enqueue_new(msg_id);
        }
        if !self.loaded.has_message(msg_id) {
            self.loaded.enqueue_new(msg_id);
        }
        let _ = self.garbage_collected.remove(msg_id);
        let ghost m0 = self.messages@;
        let old_message = self.messages.insert(msg_id, message);
        proof {
            lemma_map_range_sum_insert(
                m0,
                content_len(),
                self.spec_first_id(),
                self.spec_next_first_id(),
                msg_id,
                self.messages@[msg_id],
            );
            lemma_map_range_sum_insert(
                m0,
                one_each(),
                self.spec_first_id(),
                self.spec_next_first_id(),
                msg_id,
                self.messages@[msg_id],
            );
            assert(forall|v: MySbMessageContent| #[trigger] content_len()(v) >= 0);
            assert(forall|v: MySbMessageContent| #[trigger] one_each()(v) >= 0);
        }
        self.size_and_amount.added(new_len);
        match &old_message {
            Some(old_msg) => {
                proof {
                    lemma_map_range_sum_member_bound(
                        m0,
                        content_len(),
                        self.spec_first_id(),
                        self.spec_next_first_id(),
                        msg_id,
                    );
                    lemma_map_range_sum_member_bound(
                        m0,
                        one_each(),
                        self.spec_first_id(),
                        self.spec_next_first_id(),
                        msg_id,
                    );
                }
                self.size_and_amount.removed(old_msg.content.len());
            },
            None => {},
        }
        old_message
    }

    /// Look the id up: loaded content, a garbage-collection tombstone, or
    /// nothing at all.
    pub fn get_message(&self, msg_id: i64) -> (r: GetMessageResult<'_>)
        requires
            self.well_formed(),
        ensures
            match r {
                GetMessageResult::Message(msg) => self.messages@.contains_key(msg_id) && *msg
                    == self.messages@[msg_id],
                GetMessageResult::GarbageCollected => !self.messages@.contains_key(msg_id)
                    && self.garbage_collected.spec_contains(msg_id as int),
                GetMessageResult::Missing => !self.messages@.contains_key(msg_id)
                    && !self.garbage_collected.spec_contains(msg_id as int),
            },
    {
        match self.messages.get(&msg_id) {
            Some(msg) => GetMessageResult::Message(msg),
            None => {
                if self.garbage_collected.has_message(msg_id) {
                    GetMessageResult::GarbageCollected
                } else {
                    GetMessageResult::Missing
                }
            },
        }
    }

    pub fn get_size_and_amount(&self) -> (r: &SizeAndAmount)
        ensures
            *r == self.spec_size_and_amount(),
    {
        &self.size_and_amount
    }

    pub fn get_messages_amount(&self) -> (r: usize)
        ensures
            r == self.messages@.len(),
    {
        self.messages.len()
    }

    /// Evict every loaded id below `min_message_id`: drop the payload,
    /// subtract its bytes, and remember the id as a tombstone.  Ids at or
    /// above `min_message_id` are never touched.  Returns whether the
    /// whole sub-page is reclaimable because eviction reached the next
    /// sub-page.
    #[verifier::rlimit(60)]
    pub fn gc_messages(&mut self, min_message_id: i64) -> (r: bool)
        requires
            old(self).well_formed(),
        ensures
            final(self).well_formed(),
            r == (min_message_id >= old(self).spec_next_first_id()),
            r ==> *final(self) == *old(self),
            !r && min_message_id < old(self).spec_first_id() ==> *final(self) == *old(self),
            !r && min_message_id >= old(self).spec_first_id() ==> {
                &&& forall|k: i64|
                    #[trigger] final(self).messages@.contains_key(k) <==> (old(
                        self,
                    ).messages@.contains_key(k) && k >= min_message_id)
                &&& forall|k: i64|
                    final(self).messages@.contains_key(k) ==> #[trigger] final(self).messages@[k]
                        == old(self).messages@[k]
                &&& forall|x: int|
                    #[trigger] final(self).garbage_collected.spec_contains(x) <==> (old(
                        self,
                    ).garbage_collected.spec_contains(x) || (i64::MIN <= x <= i64::MAX && old(
                        self,
                    ).messages@.contains_key(x as i64) && x < min_message_id))
                &&& final(self).spec_size_and_amount().size == old(
                    self,
                ).spec_size_and_amount().size - map_range_sum(
                    old(self).messages@,
                    content_len(),
                    old(self).spec_first_id(),
                    min_message_id as int,
                )
                &&& final(self).to_persist == old(self).to_persist
                &&& final(self).loaded == old(self).loaded
                &&& final(self).sub_page_id == old(self).sub_page_id
                &&& final(self).created == old(self).created
            },
    {
        let ghost first = self.spec_first_id();
        let ghost next = self.spec_next_first_id();
        let ghost m0 = self.messages@;
        let ghost gc0 = self.garbage_collected;
        let first_message_id_of_next_page = self.sub_page_id.get_first_message_id_of_next_sub_page();
        if min_message_id >= first_message_id_of_next_page {
            return true;
        }
        let first_id = self.sub_page_id.get_first_message_id();
        if min_message_id < first_id {
            return false;
        }
        let mut msg_id = first_id;
        while msg_id < min_message_id
            invariant
                first == first_id,
                next == first + (SUB_PAGE_MESSAGES_AMOUNT as int),
                first <= msg_id <= min_message_id < next,
                next < i64::MAX,
                self.well_formed(),
                self.sub_page_id == old(self).sub_page_id,
                self.spec_first_id() == first,
                self.spec_next_first_id() == next,
                self.to_persist == old(self).to_persist,
                self.loaded == old(self).loaded,
                self.created == old(self).created,
                forall|k: i64|
                    #[trigger] self.messages@.contains_key(k) <==> (m0.contains_key(k) && !(first
                        <= k < msg_id)),
                forall|k: i64|
                    self.messages@.contains_key(k) ==> #[trigger] self.messages@[k] == m0[k],
                forall|x: int|
                    #[trigger] self.garbage_collected.spec_contains(x) <==> (gc0.spec_contains(x)
                        || (i64::MIN <= x <= i64::MAX && m0.contains_key(x as i64) && first <= x
                        < msg_id)),
                self.spec_size_and_amount().size == old(self).spec_size_and_amount().size
                    - map_range_sum(m0, content_len(), first, msg_id as int),
                forall|k: i64| #[trigger] m0.contains_key(k) ==> first <= k < next,
                forall|k: i64| #[trigger] m0.contains_key(k) ==> m0[k].id == k,
            decreases min_message_id - msg_id,
        {
            proof {
                lemma_map_range_sum_split(m0, content_len(), first, msg_id as int, next);
                lemma_map_range_sum_split(
                    m0,
                    content_len(),
                    msg_id as int,
                    msg_id as int + 1,
                    next,
                );
                lemma_map_range_sum_split(m0, content_len(), first, msg_id as int, msg_id as int + 1);
                lemma_map_range_sum_nonneg(m0, content_len(), first, msg_id as int);
                lemma_map_range_sum_nonneg(m0, content_len(), msg_id as int + 1, next);
                assert(map_range_sum(m0, content_len(), msg_id as int + 1, msg_id as int + 1) == 0);
                assert(forall|v: MySbMessageContent| #[trigger] content_len()(v) >= 0);
                assert(forall|v: MySbMessageContent| #[trigger] one_each()(v) >= 0);
            }
            let ghost m_before = self.messages@;
            let removed = self.messages.remove(&msg_id);
            match removed {
                Some(message) => {
                    proof {
                        lemma_map_range_sum_remove(m_before, content_len(), first, next, msg_id);
                        lemma_map_range_sum_remove(m_before, one_each(), first, next, msg_id);
                        lemma_map_range_sum_member_bound(
                            m_before,
                            content_len(),
                            first,
                            next,
                            msg_id,
                        );
                        lemma_map_range_sum_member_bound(m_before, one_each(), first, next, msg_id);
                    }
                    self.size_and_amount.removed(message.content.len());
                    self.garbage_collected.enqueue_new(msg_id);
                },
                None => {
                    proof {
                        assert(self.messages@ =~= m_before);
                    }
                },
            }
            msg_id = msg_id + 1;
        }
        false
    }

    /// Acknowledge one id as durably persisted: take it out of the
    /// pending-persist set.
    pub fn persisted(&mut self, message_id: i64)
        requires
            old(self).well_formed(),
        ensures
            final(self).well_formed(),
            forall|x: int|
                final(self).to_persist.spec_contains(x) <==> (old(self).to_persist.spec_contains(x)
                    && x != message_id as int),
            final(self).messages == old(self).messages,
            final(self).garbage_collected == old(self).garbage_collected,
            final(self).loaded == old(self).loaded,
            final(self).sub_page_id == old(self).sub_page_id,
            final(self).created == old(self).created,
            final(self).spec_size_and_amount() == old(self).spec_size_and_amount(),
    {
        let _removed = self.to_persist.remove(message_id);
    }
}

} // verus!
