use vstd::prelude::*;

use crate::messages::MySbMessage;
use crate::messages_page::MessagesPage;
use crate::messages_page::loaded_at;
use crate::messages_page::record_matches;
use crate::page_id::PageId;
use crate::protobuf_models::MessageProtobufModel;

verus! {

/// Diagnostic summary of one cached page.
pub struct PageInfo {
    pub page_no: PageId,
    pub page_size: usize,
    pub count: usize,
    pub persist_size: i64,
    pub is_being_persisted: bool,
}

/// The pages of one topic currently held in memory, at most one per page
/// number.  Routes the persist handshake to the first page with pending
/// work.
pub struct MessagesPagesCache {
    pub pages: Vec<MessagesPage>,
}

impl MessagesPagesCache {
    /// Every held page is well-formed and no page number repeats.
    pub open spec fn well_formed(self) -> bool {
        &&& forall|i: int| 0 <= i < self.pages@.len() ==> (#[trigger] self.pages@[i]).well_formed()
        &&& forall|i: int, j: int|
            #![trigger self.pages@[i], self.pages@[j]]
            0 <= i < j < self.pages@.len() ==> self.pages@[i].page_id != self.pages@[j].page_id
    }

    /// Some held page carries the page number.
    pub open spec fn spec_has_page(self, page_id: PageId) -> bool {
        exists|i: int| 0 <= i < self.pages@.len() && (#[trigger] self.pages@[i]).page_id == page_id
    }

    pub fn new() -> (r: MessagesPagesCache)
        ensures
            r.well_formed(),
            r.pages@.len() == 0,
    {
        MessagesPagesCache { pages: Vec::new() }
    }

    pub fn has_page(&self, page_id: &PageId) -> (r: bool)
        ensures
            r == self.spec_has_page(*page_id),
    {
        let n = self.pages.len();
        let mut index: usize = 0;
        while index < n
            invariant
                n == self.pages@.len(),
                0 <= index <= n,
                forall|i: int| 0 <= i < index ==> (#[trigger] self.pages@[i]).page_id != *page_id,
            decreases n - index,
        {
            if self.pages[index].page_id.get_value() == page_id.get_value() {
                proof {
                    crate::page_id::lemma_page_id_value_equal(self.pages@[index as int].page_id, *page_id);
                }
                return true;
            }
            index += 1;
        }
        false
    }

    /// The held page with the page number, if any.
    pub fn get_page(&self, page_id: PageId) -> (r: Option<&MessagesPage>)
        ensures
            match r {
                Some(page) => page.page_id == page_id && self.spec_has_page(page_id) && exists|
                    i: int,
                |
                    0 <= i < self.pages@.len() && *page == #[trigger] self.pages@[i],
                None => !self.spec_has_page(page_id),
            },
    {
        let n = self.pages.len();
        let mut index: usize = 0;
        while index < n
            invariant
                n == self.pages@.len(),
                0 <= index <= n,
                forall|i: int| 0 <= i < index ==> (#[trigger] self.pages@[i]).page_id != page_id,
            decreases n - index,
        {
            if self.pages[index].page_id.get_value() == page_id.get_value() {
                proof {
                    crate::page_id::lemma_page_id_value_equal(self.pages@[index as int].page_id, page_id);
                    assert(self.pages@[index as int].page_id == page_id);
                }
                return Some(&self.pages[index]);
            }
            index += 1;
        }
        None
    }

    /// Put a page in, replacing any held page of the same number.
    pub fn restore_page(&mut self, page: MessagesPage)
        requires
            old(self).well_formed(),
            page.well_formed(),
        ensures
            final(self).well_formed(),
            final(self).spec_has_page(page.page_id),
            forall|p: PageId|
                p != page.page_id ==> (final(self).spec_has_page(p) <==> old(self).spec_has_page(
                    p,
                )),
    {
        let page_value = page.page_id.get_value();
        let n = self.pages.len();
        let mut index: usize = 0;
        while index < n
            invariant
                *self == *old(self),
                old(self).well_formed(),
                n == self.pages@.len(),
                0 <= index <= n,
                forall|i: int|
                    0 <= i < index ==> (#[trigger] self.pages@[i]).page_id != page.page_id,
                page_value == page.page_id.spec_value(),
                page.well_formed(),
            decreases n - index,
        {
            if self.pages[index].page_id.get_value() == page_value {
                proof {
                    crate::page_id::lemma_page_id_value_equal(self.pages@[index as int].page_id, page.page_id);
                }
                let ghost s0 = self.pages@;
                self.pages[index] = page;
                proof {
                    assert(self.pages@ == s0.update(index as int, page));
                    assert(self.pages@[index as int].page_id == page.page_id);
                    assert forall|i: int|
                        0 <= i < self.pages@.len() implies (
                    #[trigger] self.pages@[i]).well_formed() by {
                        if i != index {
                            assert(self.pages@[i] == s0[i]);
                            assert(s0[i].well_formed());
                        }
                    }
                    assert forall|i: int, j: int|
                        #![trigger self.pages@[i], self.pages@[j]]
                        0 <= i < j < self.pages@.len() implies self.pages@[i].page_id
                        != self.pages@[j].page_id by {
                        assert(s0[i].page_id != s0[j].page_id);
                        if i != index {
                            assert(self.pages@[i] == s0[i]);
                        }
                        if j != index {
                            assert(self.pages@[j] == s0[j]);
                        }
                        if i == index {
                            assert(self.pages@[i].page_id == s0[index as int].page_id);
                        }
                        if j == index {
                            assert(self.pages@[j].page_id == s0[index as int].page_id);
                        }
                    }
                    assert forall|p: PageId|
                        p != page.page_id implies (final(self).spec_has_page(p) <==> old(
                        self,
                    ).spec_has_page(p)) by {
                        if exists|i: int|
                            0 <= i < self.pages@.len() && (#[trigger] self.pages@[i]).page_id
                                == p {
                            let i = choose|i: int|
                                0 <= i < self.pages@.len() && (#[trigger] self.pages@[i]).page_id
                                    == p;
                            assert(s0[i].page_id == p);
                        }
                        if exists|i: int|
                            0 <= i < s0.len() && (#[trigger] s0[i]).page_id == p {
                            let i = choose|i: int|
                                0 <= i < s0.len() && (#[trigger] s0[i]).page_id == p;
                            assert(self.pages@[i].page_id == p);
                        }
                    }
                }
                return ;
            }
            index += 1;
        }
        let ghost s0 = self.pages@;
        self.pages.push(page);
        proof {
            assert(self.pages@[s0.len() as int].page_id == page.page_id);
            assert forall|p: PageId|
                p != page.page_id implies (final(self).spec_has_page(p) <==> old(
                self,
            ).spec_has_page(p)) by {
                if exists|i: int|
                    0 <= i < self.pages@.len() && (#[trigger] self.pages@[i]).page_id == p {
                    let i = choose|i: int|
                        0 <= i < self.pages@.len() && (#[trigger] self.pages@[i]).page_id == p;
                    assert(i < s0.len());
                    assert(s0[i].page_id == p);
                }
                if exists|i: int| 0 <= i < s0.len() && (#[trigger] s0[i]).page_id == p {
                    let i = choose|i: int| 0 <= i < s0.len() && (#[trigger] s0[i]).page_id == p;
                    assert(self.pages@[i].page_id == p);
                }
            }
        }
    }

    /// Drop the held page of the number, if any.
    pub fn remove_page(&mut self, page_id: &PageId)
        requires
            old(self).well_formed(),
        ensures
            final(self).well_formed(),
            !final(self).spec_has_page(*page_id),
            forall|p: PageId|
                p != *page_id ==> (final(self).spec_has_page(p) <==> old(self).spec_has_page(p)),
    {
        let n = self.pages.len();
        let mut index: usize = 0;
        while index < n
            invariant
                *self == *old(self),
                old(self).well_formed(),
                n == self.pages@.len(),
                0 <= index <= n,
                forall|i: int| 0 <= i < index ==> (#[trigger] self.pages@[i]).page_id != *page_id,
            decreases n - index,
        {
            if self.pages[index].page_id.get_value() == page_id.get_value() {
                proof {
                    crate::page_id::lemma_page_id_value_equal(self.pages@[index as int].page_id, *page_id);
                }
                let ghost s0 = self.pages@;
                self.pages.remove(index);
                proof {
                    assert(self.pages@ == s0.remove(index as int));
                    assert forall|i: int|
                        0 <= i < self.pages@.len() implies (#[trigger] self.pages@[i]).page_id
                        != *page_id by {
                        if i < index {
                            assert(self.pages@[i] == s0[i]);
                            assert(s0[i].page_id != s0[index as int].page_id);
                        } else {
                            assert(self.pages@[i] == s0[i + 1]);
                            assert(s0[index as int].page_id != s0[i + 1].page_id);
                        }
                    }
                    assert forall|i: int, j: int|
                        #![trigger self.pages@[i], self.pages@[j]]
                        0 <= i < j < self.pages@.len() implies self.pages@[i].page_id
                        != self.pages@[j].page_id by {
                        if i >= index {
                            assert(self.pages@[i] == s0[i + 1]);
                        } else {
                            assert(self.pages@[i] == s0[i]);
                        }
                        if j >= index {
                            assert(self.pages@[j] == s0[j + 1]);
                        } else {
                            assert(self.pages@[j] == s0[j]);
                        }
                    }
                    assert forall|p: PageId|
                        p != *page_id implies (final(self).spec_has_page(p) <==> old(
                        self,
                    ).spec_has_page(p)) by {
                        if exists|i: int|
                            0 <= i < self.pages@.len() && (#[trigger] self.pages@[i]).page_id
                                == p {
                            let i = choose|i: int|
                                0 <= i < self.pages@.len() && (#[trigger] self.pages@[i]).page_id
                                    == p;
                            if i < index {
                                assert(s0[i].page_id == p);
                            } else {
                                assert(s0[i + 1].page_id == p);
                            }
                        }
                        if exists|i: int| 0 <= i < s0.len() && (#[trigger] s0[i]).page_id == p {
                            let i = choose|i: int|
                                0 <= i < s0.len() && (#[trigger] s0[i]).page_id == p;
                            assert(i != index);
                            if i < index {
                                assert(self.pages@[i].page_id == p);
                            } else {
                                assert(self.pages@[i - 1] == s0[i]);
                                assert(self.pages@[i - 1].page_id == p);
                            }
                        }
                    }
                }
                return ;
            }
            index += 1;
        }
    }

    /// One summary row per held page.
    pub fn get_pages_info(&self) -> (r: Vec<PageInfo>)
        requires
            self.well_formed(),
        ensures
            r@.len() == self.pages@.len(),
            forall|i: int|
                #![trigger r@[i]]
                0 <= i < self.pages@.len() ==> {
                    let page = self.pages@[i];
                    &&& r@[i].page_no == page.page_id
                    &&& r@[i].page_size == page.size
                    &&& r@[i].count == page.messages@.len()
                    &&& r@[i].persist_size == page.to_be_persisted.spec_count()
                    &&& r@[i].is_being_persisted == page.is_being_persisted
                },
    {
        let n = self.pages.len();
        let mut result: Vec<PageInfo> = Vec::new();
        let mut index: usize = 0;
        while index < n
            invariant
                self.well_formed(),
                n == self.pages@.len(),
                0 <= index <= n,
                result@.len() == index,
                forall|i: int|
                    #![trigger result@[i]]
                    0 <= i < index ==> {
                        let page = self.pages@[i];
                        &&& result@[i].page_no == page.page_id
                        &&& result@[i].page_size == page.size
                        &&& result@[i].count == page.messages@.len()
                        &&& result@[i].persist_size == page.to_be_persisted.spec_count()
                        &&& result@[i].is_being_persisted == page.is_being_persisted
                    },
            decreases n - index,
        {
            let page = &self.pages[index];
            result.push(
                PageInfo {
                    page_no: page.page_id,
                    page_size: page.size,
                    count: page.messages.len(),
                    persist_size: page.to_be_persisted.len(),
                    is_being_persisted: page.is_being_persisted,
                },
            );
            index += 1;
        }
        result
    }

    /// Total number of ids still pending persistence across every held
    /// page.
    pub fn get_persist_queue_size(&self) -> (r: i64)
        requires
            self.well_formed(),
            pages_persist_count(self.pages@, self.pages@.len() as int) <= i64::MAX,
        ensures
            r == pages_persist_count(self.pages@, self.pages@.len() as int),
    {
        let n = self.pages.len();
        let mut result: i64 = 0;
        let mut index: usize = 0;
        while index < n
            invariant
                self.well_formed(),
                n == self.pages@.len(),
                0 <= index <= n,
                result == pages_persist_count(self.pages@, index as int),
                pages_persist_count(self.pages@, n as int) <= i64::MAX,
            decreases n - index,
        {
            proof {
                crate::queue_with_intervals::lemma_ranges_count_len(
                    self.pages@[index as int].to_be_persisted.intervals@,
                );
                lemma_pages_persist_count_bound(self.pages@, index as int + 1, n as int);
            }
            result = result + self.pages[index].to_be_persisted.len();
            index += 1;
        }
        result
    }

    /// The durable write of the page was acknowledged.  An unknown page
    /// number is ignored.
    pub fn persisted(&mut self, page_id: PageId)
        requires
            old(self).well_formed(),
        ensures
            final(self).well_formed(),
            final(self).pages@.len() == old(self).pages@.len(),
            forall|i: int|
                0 <= i < old(self).pages@.len() && (#[trigger] old(self).pages@[i]).page_id
                    != page_id ==> final(self).pages@[i] == old(self).pages@[i],
            forall|i: int|
                0 <= i < old(self).pages@.len() && (#[trigger] old(self).pages@[i]).page_id
                    == page_id ==> {
                    &&& final(self).pages@[i].being_persisted.intervals@.len() == 0
                    &&& final(self).pages@[i].to_be_persisted == old(self).pages@[i].to_be_persisted
                    &&& final(self).pages@[i].messages == old(self).pages@[i].messages
                    &&& final(self).pages@[i].size == old(self).pages@[i].size
                    &&& final(self).pages@[i].page_id == old(self).pages@[i].page_id
                },
    {
        let n = self.pages.len();
        let mut index: usize = 0;
        while index < n
            invariant
                *self == *old(self),
                old(self).well_formed(),
                n == self.pages@.len(),
                0 <= index <= n,
                forall|i: int| 0 <= i < index ==> (#[trigger] self.pages@[i]).page_id != page_id,
            decreases n - index,
        {
            if self.pages[index].page_id.get_value() == page_id.get_value() {
                proof {
                    crate::page_id::lemma_page_id_value_equal(self.pages@[index as int].page_id, page_id);
                }
                let ghost s0 = self.pages@;
                let page = &mut self.pages[index];
                page.persisted();
                proof {
                    assert forall|i: int|
                        0 <= i < s0.len() && (#[trigger] s0[i]).page_id != page_id implies
                        self.pages@[i] == s0[i] by {
                        assert(i != index);
                    }
                }
                return ;
            }
            index += 1;
        }
    }

    /// The durable write of the page failed: its mid-persist ids go back
    /// into its pending set.  An unknown page number is ignored.
    pub fn not_persisted(&mut self, page_id: PageId)
        requires
            old(self).well_formed(),
        ensures
            final(self).well_formed(),
            final(self).pages@.len() == old(self).pages@.len(),
            forall|i: int|
                0 <= i < old(self).pages@.len() && (#[trigger] old(self).pages@[i]).page_id
                    != page_id ==> final(self).pages@[i] == old(self).pages@[i],
            forall|i: int|
                0 <= i < old(self).pages@.len() && (#[trigger] old(self).pages@[i]).page_id
                    == page_id ==> {
                    &&& final(self).pages@[i].being_persisted.intervals@.len() == 0
                    &&& forall|x: int|
                        final(self).pages@[i].to_be_persisted.spec_contains(x) <==> (old(
                            self,
                        ).pages@[i].to_be_persisted.spec_contains(x) || old(
                            self,
                        ).pages@[i].being_persisted.spec_contains(x))
                    &&& final(self).pages@[i].messages == old(self).pages@[i].messages
                    &&& final(self).pages@[i].size == old(self).pages@[i].size
                    &&& final(self).pages@[i].page_id == old(self).pages@[i].page_id
                },
    {
        let n = self.pages.len();
        let mut index: usize = 0;
        while index < n
            invariant
                *self == *old(self),
                old(self).well_formed(),
                n == self.pages@.len(),
                0 <= index <= n,
                forall|i: int| 0 <= i < index ==> (#[trigger] self.pages@[i]).page_id != page_id,
            decreases n - index,
        {
            if self.pages[index].page_id.get_value() == page_id.get_value() {
                proof {
                    crate::page_id::lemma_page_id_value_equal(self.pages@[index as int].page_id, page_id);
                }
                let ghost s0 = self.pages@;
                let page = &mut self.pages[index];
                page.not_persisted();
                proof {
                    assert forall|i: int|
                        0 <= i < s0.len() && (#[trigger] s0[i]).page_id != page_id implies
                        self.pages@[i] == s0[i] by {
                        assert(i != index);
                    }
                }
                return ;
            }
            index += 1;
        }
    }

    /// Drain the first held page that yields records to persist, handing
    /// back its page number with the records.  Pages visited on the way
    /// had nothing loaded pending and end up with empty pending sets.
    pub fn get_messages_to_persist(&mut self) -> (r: Option<(PageId, Vec<MessageProtobufModel>)>)
        requires
            old(self).well_formed(),
        ensures
            final(self).well_formed(),
            final(self).pages@.len() == old(self).pages@.len(),
            forall|i: int|
                #![trigger final(self).pages@[i]]
                0 <= i < old(self).pages@.len() ==> {
                    let page = final(self).pages@[i];
                    &&& page.page_id == old(self).pages@[i].page_id
                    &&& page.messages == old(self).pages@[i].messages
                    &&& page.size == old(self).pages@[i].size
                },
            match r {
                None => forall|i: int|
                    0 <= i < final(self).pages@.len() ==> (
                    #[trigger] final(self).pages@[i]).to_be_persisted.intervals@.len() == 0,
                Some((page_id, v)) => {
                    &&& v@.len() > 0
                    &&& exists|i: int|
                        0 <= i < old(self).pages@.len() && (#[trigger] old(
                            self,
                        ).pages@[i]).page_id == page_id && forall|k: int|
                            0 <= k < v@.len() ==> {
                                let old_page = old(self).pages@[i];
                                &&& old_page.to_be_persisted.spec_contains(
                                    (#[trigger] v@[k]).message_id as int,
                                )
                                &&& loaded_at(old_page.messages@, v@[k].message_id as int)
                                &&& (old_page.messages@[v@[k].message_id] matches
                                    MySbMessage::Loaded(content) && record_matches(v@[k], content))
                            }
                },
            },
    {
        let n = self.pages.len();
        let mut index: usize = 0;
        while index < n
            invariant
                old(self).well_formed(),
                self.well_formed(),
                n == self.pages@.len() == old(self).pages@.len(),
                0 <= index <= n,
                forall|i: int|
                    #![trigger self.pages@[i]]
                    0 <= i < n ==> {
                        let page = self.pages@[i];
                        &&& page.page_id == old(self).pages@[i].page_id
                        &&& page.messages == old(self).pages@[i].messages
                        &&& page.size == old(self).pages@[i].size
                    },
                forall|i: int|
                    index as int <= i < n ==> #[trigger] self.pages@[i] == old(self).pages@[i],
                forall|i: int|
                    0 <= i < index ==> (
                    #[trigger] self.pages@[i]).to_be_persisted.intervals@.len() == 0,
            decreases n - index,
        {
            let ghost s0 = self.pages@;
            let messages_to_persist = {
                let page = &mut self.pages[index];
                page.get_messages_to_persist()
            };
            match messages_to_persist {
                Some(messages) => {
                    let page_id = self.pages[index].page_id;
                    proof {
                        let i = index as int;
                        assert(old(self).pages@[i].page_id == page_id);
                        assert(0 <= i < old(self).pages@.len() && (#[trigger] old(
                            self,
                        ).pages@[i]).page_id == page_id && forall|k: int|
                            0 <= k < messages@.len() ==> {
                                let old_page = old(self).pages@[i];
                                &&& old_page.to_be_persisted.spec_contains(
                                    (#[trigger] messages@[k]).message_id as int,
                                )
                                &&& loaded_at(old_page.messages@, messages@[k].message_id as int)
                                &&& (old_page.messages@[messages@[k].message_id] matches
                                    MySbMessage::Loaded(content) && record_matches(
                                    messages@[k],
                                    content,
                                ))
                            });
                    }
                    return Some((page_id, messages));
                },
                None => {},
            }
            index += 1;
        }
        None
    }
}

/// Total pending-persist count of the first `k` pages.
pub open spec fn pages_persist_count(s: Seq<MessagesPage>, k: int) -> int
    decreases k,
{
    if k <= 0 {
        0
    } else {
        pages_persist_count(s, k - 1) + s[k - 1].to_be_persisted.spec_count()
    }
}

/// Each page's pending count is non-negative, so prefix totals only grow.
proof fn lemma_pages_persist_count_bound(s: Seq<MessagesPage>, k: int, n: int)
    requires
        0 <= k <= n <= s.len(),
        forall|i: int| 0 <= i < s.len() ==> (#[trigger] s[i]).well_formed(),
    ensures
        pages_persist_count(s, k) <= pages_persist_count(s, n),
    decreases n - k,
{
    if k < n {
        crate::queue_with_intervals::lemma_ranges_count_len(s[n - 1].to_be_persisted.intervals@);
        lemma_pages_persist_count_bound(s, k, n - 1);
    }
}

} // verus!
