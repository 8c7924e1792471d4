use vstd::prelude::*;

use std::sync::Arc;

use crate::messages_page::MessagesPage;
use crate::queue_with_intervals::QueueWithIntervals;
use crate::queue_with_intervals::lemma_ranges_count_is_card;
use crate::queue_with_intervals::ranges_id_set;

verus! {

/// One delivery candidate: which message, which attempt, how many bytes.
#[derive(Debug)]
pub struct MessageToSendModel {
    pub msg_id: i64,
    pub attempt_no: i32,
    pub msg_size: usize,
}

/// Total bytes of a batch of delivery candidates.
pub open spec fn models_sum(s: Seq<MessageToSendModel>) -> int
    decreases s.len(),
{
    if s.len() == 0 {
        0
    } else {
        models_sum(s.drop_last()) + s.last().msg_size
    }
}

/// Some candidate in the batch carries the id.
pub open spec fn models_contain_id(s: Seq<MessageToSendModel>, x: int) -> bool {
    exists|i: int| 0 <= i < s.len() && (#[trigger] s[i]).msg_id == x
}

proof fn lemma_models_sum_nonneg(s: Seq<MessageToSendModel>)
    ensures
        models_sum(s) >= 0,
    decreases s.len(),
{
    if s.len() > 0 {
        lemma_models_sum_nonneg(s.drop_last());
    }
}

/// Taking one candidate out takes exactly its bytes out of the total.
proof fn lemma_models_sum_remove(s: Seq<MessageToSendModel>, i: int)
    requires
        0 <= i < s.len(),
    ensures
        models_sum(s.remove(i)) == models_sum(s) - s[i].msg_size,
    decreases s.len(),
{
    if i == s.len() - 1 {
        assert(s.remove(i) =~= s.drop_last());
    } else {
        assert(s.remove(i).drop_last() =~= s.drop_last().remove(i));
        assert(s.remove(i).last() == s.last());
        lemma_models_sum_remove(s.drop_last(), i);
    }
}

/// Transient working set for one delivery batch from one page: the
/// candidates with their attempt counts and sizes, the id set of the
/// batch, and the ids a recipient has already intermediarily confirmed.
pub struct MessagesBucket {
    pub page: Arc<MessagesPage>,
    pub messages: Vec<MessageToSendModel>,
    pub messages_size: usize,
    pub ids: QueueWithIntervals,
    pub intermediary_confirmed: QueueWithIntervals,
}

impl MessagesBucket {
    /// Structural invariant: the interval set `ids` mirrors the candidate
    /// list exactly; ids are unique; a confirmed id is no longer a
    /// candidate; the byte counter equals the candidates' total bytes.
    pub open spec fn well_formed(self) -> bool {
        &&& self.ids.well_formed()
        &&& self.intermediary_confirmed.well_formed()
        &&& forall|i: int, j: int|
            #![trigger self.messages@[i], self.messages@[j]]
            0 <= i < j < self.messages@.len() ==> self.messages@[i].msg_id
                != self.messages@[j].msg_id
        &&& forall|i: int|
            0 <= i < self.messages@.len() ==> 0 <= (#[trigger] self.messages@[i]).msg_id
                < i64::MAX
        &&& forall|x: int| self.ids.spec_contains(x) <==> models_contain_id(self.messages@, x)
        &&& forall|x: int|
            #[trigger] self.ids.spec_contains(x) ==> !self.intermediary_confirmed.spec_contains(x)
        &&& self.messages_size == models_sum(self.messages@)
    }

    pub fn new(page: Arc<MessagesPage>) -> (r: MessagesBucket)
        ensures
            r.well_formed(),
            r.page == page,
            r.messages@.len() == 0,
            r.messages_size == 0,
            forall|x: int| !r.ids.spec_contains(x),
            forall|x: int| !r.intermediary_confirmed.spec_contains(x),
            r.intermediary_confirmed.spec_count() == 0,
    {
        MessagesBucket {
            page,
            messages: Vec::new(),
            messages_size: 0,
            ids: QueueWithIntervals::new(),
            intermediary_confirmed: QueueWithIntervals::new(),
        }
    }

    /// Record one delivery candidate: remember its attempt number and
    /// size, and add its id to the batch.
    pub fn add(&mut self, msg_id: i64, attempt_no: i32, msg_size: usize)
        requires
            old(self).well_formed(),
            0 <= msg_id < i64::MAX,
            !old(self).ids.spec_contains(msg_id as int),
            !old(self).intermediary_confirmed.spec_contains(msg_id as int),
            old(self).messages_size + msg_size <= usize::MAX,
        ensures
            final(self).well_formed(),
            final(self).messages@ == old(self).messages@.push(
                MessageToSendModel { msg_id, attempt_no, msg_size },
            ),
            final(self).messages_size == old(self).messages_size + msg_size,
            forall|x: int|
                final(self).ids.spec_contains(x) <==> (old(self).ids.spec_contains(x) || x
                    == msg_id as int),
            final(self).intermediary_confirmed == old(self).intermediary_confirmed,
            final(self).page == old(self).page,
    {
        let message = MessageToSendModel { msg_id, attempt_no, msg_size };
        let ghost s0 = self.messages@;
        proof {
            assert forall|i: int| 0 <= i < s0.len() implies (#[trigger] s0[i]).msg_id
                != msg_id by {
                if s0[i].msg_id == msg_id {
                    assert(models_contain_id(s0, msg_id as int));
                }
            }
        }
        self.messages.push(message);
        proof {
            assert(self.messages@.drop_last() =~= s0);
        }
        self.messages_size = self.messages_size + msg_size;
        self.ids.enqueue_new(msg_id);
        proof {
            assert forall|x: int|
                models_contain_id(self.messages@, x) <==> (models_contain_id(s0, x) || x
                    == msg_id as int) by {
                if models_contain_id(self.messages@, x) {
                    let i = choose|i: int|
                        0 <= i < self.messages@.len() && (#[trigger] self.messages@[i]).msg_id
                            == x;
                    if i < s0.len() {
                        assert(s0[i].msg_id == x);
                    }
                }
                if models_contain_id(s0, x) {
                    let i = choose|i: int| 0 <= i < s0.len() && (#[trigger] s0[i]).msg_id == x;
                    assert(self.messages@[i].msg_id == x);
                }
                if x == msg_id as int {
                    assert(self.messages@[s0.len() as int].msg_id == x);
                }
            }
        }
    }

    /// Number of candidates still pending delivery.
    pub fn messages_count(&self) -> (r: usize)
        ensures
            r == self.messages@.len(),
    {
        self.messages.len()
    }

    /// Pending candidates plus intermediarily confirmed ids: everything
    /// this batch still accounts for.
    pub fn messages_count_with_intermediary_confirmed(&self) -> (r: usize)
        requires
            self.well_formed(),
            self.messages@.len() + self.intermediary_confirmed.spec_count() <= usize::MAX,
        ensures
            r == self.messages@.len() + self.intermediary_confirmed.spec_count(),
    {
        let confirmed = self.intermediary_confirmed.len();
        proof {
            crate::queue_with_intervals::lemma_ranges_count_len(
                self.intermediary_confirmed.intervals@,
            );
        }
        self.messages.len() + (confirmed as usize)
    }

    /// Take one candidate out of the batch, reversing `add`.  Reports the
    /// removed candidate, or `None` when the id is not in the batch.
    pub fn remove(&mut self, message_id: i64) -> (r: Option<MessageToSendModel>)
        requires
            old(self).well_formed(),
        ensures
            final(self).well_formed(),
            !old(self).ids.spec_contains(message_id as int) ==> r is None && *final(self) == *old(
                self,
            ),
            old(self).ids.spec_contains(message_id as int) ==> match r {
                Some(model) => {
                    &&& model.msg_id == message_id
                    &&& final(self).messages@.len() == old(self).messages@.len() - 1
                    &&& forall|x: int|
                        final(self).ids.spec_contains(x) <==> (old(self).ids.spec_contains(x) && x
                            != message_id as int)
                    &&& forall|x: int|
                        models_contain_id(final(self).messages@, x) <==> (models_contain_id(
                            old(self).messages@,
                            x,
                        ) && x != message_id as int)
                    &&& final(self).messages_size == old(self).messages_size - model.msg_size
                    &&& final(self).intermediary_confirmed == old(self).intermediary_confirmed
                    &&& final(self).page == old(self).page
                },
                None => false,
            },
    {
        let n = self.messages.len();
        let mut index: usize = 0;
        while index < n
            invariant
                *self == *old(self),
                old(self).well_formed(),
                n == self.messages@.len(),
                0 <= index <= n,
                forall|i: int| 0 <= i < index ==> (#[trigger] self.messages@[i]).msg_id
                    != message_id,
            decreases n - index,
        {
            if self.messages[index].msg_id == message_id {
                let ghost s0 = self.messages@;
                let model = self.messages.remove(index);
                proof {
                    lemma_models_sum_remove(s0, index as int);
                    lemma_models_sum_nonneg(s0.remove(index as int));
                    assert forall|x: int|
                        models_contain_id(self.messages@, x) <==> (models_contain_id(s0, x) && x
                            != message_id as int) by {
                        if models_contain_id(self.messages@, x) {
                            let i = choose|i: int|
                                0 <= i < self.messages@.len() && (
                                #[trigger] self.messages@[i]).msg_id == x;
                            if i < index {
                                assert(s0[i].msg_id == x);
                            } else {
                                assert(s0[i + 1].msg_id == x);
                            }
                        }
                        if models_contain_id(s0, x) && x != message_id as int {
                            let i = choose|i: int|
                                0 <= i < s0.len() && (#[trigger] s0[i]).msg_id == x;
                            if i < index {
                                assert(self.messages@[i].msg_id == x);
                            } else if i > index {
                                assert(self.messages@[i - 1].msg_id == x);
                            }
                        }
                    }
                }
                self.messages_size = self.messages_size - model.msg_size;
                let _ = self.ids.remove(message_id);
                proof {
                    assert(s0[index as int].msg_id == message_id);
                    assert(models_contain_id(s0, message_id as int));
                }
                return Some(model);
            }
            index += 1;
        }
        proof {
            if old(self).ids.spec_contains(message_id as int) {
                let i = choose|i: int|
                    0 <= i < self.messages@.len() && (#[trigger] self.messages@[i]).msg_id
                        == message_id;
                assert(false);
            }
        }
        None
    }

    /// The recipient acknowledged the id short of final commit: it leaves
    /// the pending candidates but stays counted through the confirmed
    /// set, safe from redelivery.
    pub fn intermediary_confirmed(&mut self, message_id: i64)
        requires
            old(self).well_formed(),
            0 <= message_id < i64::MAX,
        ensures
            final(self).well_formed(),
            forall|x: int|
                final(self).intermediary_confirmed.spec_contains(x) <==> (old(
                    self,
                ).intermediary_confirmed.spec_contains(x) || x == message_id as int),
            final(self).intermediary_confirmed.spec_count() == old(
                self,
            ).intermediary_confirmed.spec_count() + (
            if old(self).intermediary_confirmed.spec_contains(message_id as int) {
                0int
            } else {
                1int
            }),
            forall|x: int|
                final(self).ids.spec_contains(x) <==> (old(self).ids.spec_contains(x) && x
                    != message_id as int),
            final(self).messages@.len() == old(self).messages@.len() - (
            if old(self).ids.spec_contains(message_id as int) {
                1int
            } else {
                0int
            }),
            final(self).page == old(self).page,
    {
        let ghost c0 = self.intermediary_confirmed;
        let _ = self.remove(message_id);
        if !self.intermediary_confirmed.has_message(message_id) {
            self.intermediary_confirmed.enqueue_new(message_id);
        }
        proof {
            lemma_ranges_count_is_card(c0.intervals@);
            lemma_ranges_count_is_card(self.intermediary_confirmed.intervals@);
            assert forall|x: int|
                ranges_id_set(self.intermediary_confirmed.intervals@).contains(x) <==> (
                ranges_id_set(c0.intervals@).contains(x) || x == message_id as int) by {
                assert(ranges_id_set(self.intermediary_confirmed.intervals@).contains(x)
                    == self.intermediary_confirmed.spec_contains(x));
                assert(ranges_id_set(c0.intervals@).contains(x) == c0.spec_contains(x));
            }
            if !c0.spec_contains(message_id as int) {
                assert(ranges_id_set(self.intermediary_confirmed.intervals@) =~= ranges_id_set(
                    c0.intervals@,
                ).insert(message_id as int));
            } else {
                assert(ranges_id_set(c0.intervals@).contains(message_id as int));
                assert(ranges_id_set(self.intermediary_confirmed.intervals@) =~= ranges_id_set(
                    c0.intervals@,
                ));
            }
        }
    }
}

} // verus!
