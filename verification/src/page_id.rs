use vstd::prelude::*;

use crate::sub_page_id::SUB_PAGES_PER_PAGE;
use crate::sub_page_id::SubPageId;

verus! {

/// Number of message ids one page holds.  Fixed layout constant: it must
/// match the on-disk and wire layout exactly.
pub const MESSAGES_IN_PAGE: i64 = 100_000;

/// Fixed 100,000-id partition of the message id space: page `p` holds the
/// ids `p * 100_000 ..= (p + 1) * 100_000 - 1`.
#[derive(Debug, Clone, Copy, PartialEq, Eq, PartialOrd, Ord, Hash, Structural)]
pub struct PageId(i64);

impl PageId {
    /// The page number.
    pub closed spec fn spec_value(self) -> int {
        self.0 as int
    }

    /// The page number is small enough that the page's last message id
    /// still fits below `i64::MAX`.
    pub open spec fn in_bounds(self) -> bool {
        0 <= self.spec_value() && (self.spec_value() + 1) * (MESSAGES_IN_PAGE as int) - 1
            < i64::MAX
    }

    pub fn new(value: i64) -> (r: PageId)
        ensures
            r.spec_value() == value,
    {
        PageId(value)
    }

    pub fn from_message_id(message_id: i64) -> (r: PageId)
        requires
            0 <= message_id,
        ensures
            r.spec_value() == message_id as int / (MESSAGES_IN_PAGE as int),
            r.spec_value() * (MESSAGES_IN_PAGE as int) <= message_id < (r.spec_value() + 1) * (
            MESSAGES_IN_PAGE as int),
            message_id as int + (MESSAGES_IN_PAGE as int) <= i64::MAX ==> r.in_bounds(),
    {
        proof {
            vstd::arithmetic::div_mod::lemma_fundamental_div_mod(
                message_id as int,
                MESSAGES_IN_PAGE as int,
            );
        }
        PageId(message_id / MESSAGES_IN_PAGE)
    }

    pub fn get_value(&self) -> (r: i64)
        ensures
            r == self.spec_value(),
    {
        self.0
    }

    /// The first message id belonging to this page.
    pub fn get_first_message_id(&self) -> (r: i64)
        requires
            self.in_bounds(),
        ensures
            r == self.spec_value() * (MESSAGES_IN_PAGE as int),
    {
        self.0 * MESSAGES_IN_PAGE
    }

    /// The last message id belonging to this page.
    pub fn get_last_message_id(&self) -> (r: i64)
        requires
            self.in_bounds(),
        ensures
            r == (self.spec_value() + 1) * (MESSAGES_IN_PAGE as int) - 1,
    {
        (self.0 + 1) * MESSAGES_IN_PAGE - 1
    }

    /// All message ids of this page, in ascending order.
    pub fn iterate_messages(&self) -> (r: PageIdIterator)
        requires
            self.in_bounds(),
        ensures
            r.from_id == self.spec_value() * (MESSAGES_IN_PAGE as int),
            r.to_id == (self.spec_value() + 1) * (MESSAGES_IN_PAGE as int),
    {
        PageIdIterator::new(*self)
    }

    /// All sub-page ids of this page, in ascending order.
    pub fn iterate_sub_page_ids(&self) -> (r: SubPagesIterator)
        requires
            self.in_bounds(),
        ensures
            r.now_id == self.spec_value() * (SUB_PAGES_PER_PAGE as int),
            r.to_id == self.spec_value() * (SUB_PAGES_PER_PAGE as int) + (SUB_PAGES_PER_PAGE
                as int),
    {
        let message_id = self.get_first_message_id();
        let first_sub_page_id = SubPageId::from_message_id(message_id);
        proof {
            assert(self.spec_value() * (MESSAGES_IN_PAGE as int) == 1_000 * (self.spec_value() * (
            SUB_PAGES_PER_PAGE as int))) by (nonlinear_arith);
            vstd::arithmetic::div_mod::lemma_div_multiples_vanish(
                self.spec_value() * (SUB_PAGES_PER_PAGE as int),
                1_000,
            );
        }
        SubPagesIterator {
            now_id: first_sub_page_id.get_value(),
            to_id: first_sub_page_id.get_value() + SUB_PAGES_PER_PAGE,
        }
    }
}

/// Two page numbers with the same value are the same page number.
pub proof fn lemma_page_id_value_equal(a: PageId, b: PageId)
    requires
        a.spec_value() == b.spec_value(),
    ensures
        a == b,
{
}

/// View of any value as a page number.
pub trait AsPageId {
    fn as_page_id(&self) -> PageId;
}

impl AsPageId for i64 {
    fn as_page_id(&self) -> (r: PageId) {
        PageId::new(*self)
    }
}

/// Walks the sub-page ids of one page in ascending order.
pub struct SubPagesIterator {
    pub now_id: i64,
    pub to_id: i64,
}

impl SubPagesIterator {
    pub fn next(&mut self) -> (r: Option<SubPageId>)
        requires
            old(self).to_id < i64::MAX,
        ensures
            final(self).to_id == old(self).to_id,
            old(self).now_id >= old(self).to_id ==> r is None && *final(self) == *old(self),
            old(self).now_id < old(self).to_id ==> match r {
                Some(sp) => sp.spec_value() == old(self).now_id && final(self).now_id == old(
                    self,
                ).now_id + 1,
                None => false,
            },
    {
        if self.now_id >= self.to_id {
            return None;
        }
        let result = SubPageId::new(self.now_id);
        self.now_id = self.now_id + 1;
        Some(result)
    }
}

/// Walks the message ids of one page in ascending order.
pub struct PageIdIterator {
    pub from_id: i64,
    pub to_id: i64,
}

impl PageIdIterator {
    pub fn new(page_id: PageId) -> (r: PageIdIterator)
        requires
            page_id.in_bounds(),
        ensures
            r.from_id == page_id.spec_value() * (MESSAGES_IN_PAGE as int),
            r.to_id == (page_id.spec_value() + 1) * (MESSAGES_IN_PAGE as int),
    {
        let from_id = page_id.get_first_message_id();
        PageIdIterator { from_id, to_id: from_id + MESSAGES_IN_PAGE }
    }

    pub fn next(&mut self) -> (r: Option<i64>)
        requires
            old(self).to_id < i64::MAX,
        ensures
            final(self).to_id == old(self).to_id,
            old(self).from_id >= old(self).to_id ==> r is None && *final(self) == *old(self),
            old(self).from_id < old(self).to_id ==> r == Some(old(self).from_id)
                && final(self).from_id == old(self).from_id + 1,
    {
        if self.from_id >= self.to_id {
            None
        } else {
            let result = self.from_id;
            self.from_id = self.from_id + 1;
            Some(result)
        }
    }
}

} // verus!
