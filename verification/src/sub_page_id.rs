use vstd::prelude::*;

use crate::page_id::PageId;

verus! {

/// Number of message ids one sub-page holds.  Fixed layout constant.
pub const SUB_PAGE_MESSAGES_AMOUNT: i64 = 1_000;

/// Number of sub-pages in one page.  Fixed layout constant.
pub const SUB_PAGES_PER_PAGE: i64 = 100;

/// Fixed 1,000-id partition of the message id space; 100 sub-pages make
/// one page.
#[derive(Debug, Clone, Copy, PartialEq, Eq, PartialOrd, Ord, Hash, Structural)]
pub struct SubPageId(i64);

impl SubPageId {
    /// The sub-page number.
    pub closed spec fn spec_value(self) -> int {
        self.0 as int
    }

    /// The sub-page number is small enough that the sub-page's last
    /// message id still fits below `i64::MAX`.
    pub open spec fn in_bounds(self) -> bool {
        0 <= self.spec_value() && (self.spec_value() + 1) * (SUB_PAGE_MESSAGES_AMOUNT as int)
            < i64::MAX
    }

    /// The first message id belonging to this sub-page.
    pub open spec fn spec_first_message_id(self) -> int {
        self.spec_value() * (SUB_PAGE_MESSAGES_AMOUNT as int)
    }

    /// The id lies inside this sub-page's 1,000-id window.
    pub open spec fn spec_contains_message_id(self, id: int) -> bool {
        self.spec_first_message_id() <= id < self.spec_first_message_id() + (
        SUB_PAGE_MESSAGES_AMOUNT as int)
    }

    pub fn new(value: i64) -> (r: SubPageId)
        ensures
            r.spec_value() == value,
    {
        SubPageId(value)
    }

    pub fn from_message_id(message_id: i64) -> (r: SubPageId)
        requires
            0 <= message_id,
        ensures
            r.spec_value() == message_id as int / (SUB_PAGE_MESSAGES_AMOUNT as int),
            r.spec_contains_message_id(message_id as int),
            message_id as int + (SUB_PAGE_MESSAGES_AMOUNT as int) < i64::MAX ==> r.in_bounds(),
    {
        proof {
            vstd::arithmetic::div_mod::lemma_fundamental_div_mod(
                message_id as int,
                SUB_PAGE_MESSAGES_AMOUNT as int,
            );
        }
        SubPageId(message_id / SUB_PAGE_MESSAGES_AMOUNT)
    }

    /// The first sub-page of the given page: sub-pages and pages line up,
    /// 100 sub-pages to a page.
    pub fn from_page_id(page_id: PageId) -> (r: SubPageId)
        requires
            page_id.in_bounds(),
        ensures
            r.spec_value() == page_id.spec_value() * (SUB_PAGES_PER_PAGE as int),
    {
        SubPageId(page_id.get_value() * SUB_PAGES_PER_PAGE)
    }

    pub fn get_value(&self) -> (r: i64)
        ensures
            r == self.spec_value(),
    {
        self.0
    }

    pub fn get_first_message_id(&self) -> (r: i64)
        requires
            self.in_bounds(),
        ensures
            r == self.spec_first_message_id(),
    {
        self.0 * SUB_PAGE_MESSAGES_AMOUNT
    }

    pub fn get_last_message_id(&self) -> (r: i64)
        requires
            self.in_bounds(),
        ensures
            r == self.spec_first_message_id() + (SUB_PAGE_MESSAGES_AMOUNT as int) - 1,
    {
        self.get_first_message_id_of_next_sub_page() - 1
    }

    pub fn get_first_message_id_of_next_sub_page(&self) -> (r: i64)
        requires
            self.in_bounds(),
        ensures
            r == self.spec_first_message_id() + (SUB_PAGE_MESSAGES_AMOUNT as int),
    {
        self.get_first_message_id() + SUB_PAGE_MESSAGES_AMOUNT
    }

    /// All message ids of this sub-page, in ascending order.
    pub fn iterate_message_ids(&self) -> (r: SubPageMessagesIterator)
        requires
            self.in_bounds(),
        ensures
            r.current_message_id == self.spec_first_message_id(),
            r.max_message_id == self.spec_first_message_id() + (SUB_PAGE_MESSAGES_AMOUNT as int),
    {
        SubPageMessagesIterator::new(self)
    }

    pub fn is_my_message_id(&self, message_id: i64) -> (r: bool)
        requires
            self.in_bounds(),
        ensures
            r == self.spec_contains_message_id(message_id as int),
    {
        let first_message_id = self.get_first_message_id();
        let last_message_id = self.get_last_message_id();
        message_id >= first_message_id && message_id <= last_message_id
    }
}

/// View of any value as a sub-page number.
pub trait AsSubPageId {
    fn as_sub_page_id(&self) -> SubPageId;
}

impl AsSubPageId for i64 {
    fn as_sub_page_id(&self) -> (r: SubPageId) {
        SubPageId::new(*self)
    }
}

/// Walks the message ids of one sub-page in ascending order.
pub struct SubPageMessagesIterator {
    pub current_message_id: i64,
    pub max_message_id: i64,
}

impl SubPageMessagesIterator {
    pub fn new(sub_page_id: &SubPageId) -> (r: SubPageMessagesIterator)
        requires
            sub_page_id.in_bounds(),
        ensures
            r.current_message_id == sub_page_id.spec_first_message_id(),
            r.max_message_id == sub_page_id.spec_first_message_id() + (SUB_PAGE_MESSAGES_AMOUNT
                as int),
    {
        let current_message_id = sub_page_id.get_first_message_id();
        SubPageMessagesIterator {
            current_message_id,
            max_message_id: current_message_id + SUB_PAGE_MESSAGES_AMOUNT,
        }
    }

    pub fn next(&mut self) -> (r: Option<i64>)
        requires
            old(self).max_message_id < i64::MAX,
        ensures
            final(self).max_message_id == old(self).max_message_id,
            old(self).current_message_id >= old(self).max_message_id ==> r is None && *final(self)
                == *old(self),
            old(self).current_message_id < old(self).max_message_id ==> r == Some(
                old(self).current_message_id,
            ) && final(self).current_message_id == old(self).current_message_id + 1,
    {
        if self.current_message_id >= self.max_message_id {
            return None;
        }
        let result = self.current_message_id;
        self.current_message_id = self.current_message_id + 1;
        Some(result)
    }
}

/// Pages and sub-pages partition the id space consistently: the page of a
/// message id is the page of its sub-page, 100 sub-pages to a page.
pub proof fn lemma_sub_page_belongs_to_one_page(id: int)
    requires
        0 <= id,
    ensures
        (id / (SUB_PAGE_MESSAGES_AMOUNT as int)) / (SUB_PAGES_PER_PAGE as int) == id / (
        crate::page_id::MESSAGES_IN_PAGE as int),
{
    vstd::arithmetic::div_mod::lemma_div_denominator(id, 1_000, 100);
}

} // verus!
