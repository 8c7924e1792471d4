use vstd::prelude::*;

use vstd::set_lib::lemma_int_range;
use vstd::set_lib::set_int_range;

use crate::queue_index_range::QueueIndexRange;

verus! {

/// Error for operations that refuse an id instead of corrupting the set.
#[derive(Debug, Clone, Copy, PartialEq, Eq, Structural)]
pub enum IntervalError {
    IdAlreadyPresent,
}

/// The stored ranges are sorted, pairwise disjoint and non-adjacent: the gap
/// between two consecutive ranges always holds at least one absent id.  Every
/// stored range is non-empty with ids in `0 ..= i64::MAX - 1`.
pub open spec fn ranges_well_formed(s: Seq<QueueIndexRange>) -> bool {
    &&& forall|i: int| 0 <= i < s.len() ==> (#[trigger] s[i]).well_formed()
    &&& forall|i: int, j: int|
        #![trigger s[i], s[j]]
        0 <= i < j < s.len() ==> s[i].to_id + 1 < s[j].from_id
}

/// Some stored range holds the id.
pub open spec fn ranges_contain(s: Seq<QueueIndexRange>, id: int) -> bool {
    exists|i: int| 0 <= i < s.len() && (#[trigger] s[i]).spec_contains(id)
}

/// Total number of ids the ranges hold.
pub open spec fn ranges_count(s: Seq<QueueIndexRange>) -> int
    decreases s.len(),
{
    if s.len() == 0 {
        0
    } else {
        ranges_count(s.drop_last()) + s.last().spec_len()
    }
}

/// In a well-formed sequence every id of a range at index `i > 0` lies
/// strictly above `s[0].to_id + 1`, so `s[0].from_id` is the minimum.
pub proof fn lemma_first_is_min(s: Seq<QueueIndexRange>, id: int)
    requires
        ranges_well_formed(s),
        s.len() > 0,
        ranges_contain(s, id),
    ensures
        s[0].from_id <= id,
        id <= s[s.len() - 1].to_id,
{
    let i = choose|i: int| 0 <= i < s.len() && (#[trigger] s[i]).spec_contains(id);
    if i > 0 {
        assert(s[0].to_id + 1 < s[i].from_id);
    }
    if i < s.len() - 1 {
        assert(s[i].to_id + 1 < s[s.len() - 1].from_id);
    }
}

/// A set of message ids kept as ordered, disjoint, non-adjacent closed
/// ranges.  Supports FIFO consumption (`dequeue`), arbitrary-element
/// `remove`, single-id `enqueue` and whole-range `enqueue_range`.
#[derive(Debug, Clone)]
pub struct QueueWithIntervals {
    pub intervals: Vec<QueueIndexRange>,
}

impl QueueWithIntervals {
    /// Structural invariant, kept by every operation.
    pub open spec fn well_formed(self) -> bool {
        ranges_well_formed(self.intervals@)
    }

    /// The mathematical content of the set.
    pub open spec fn spec_contains(self, id: int) -> bool {
        ranges_contain(self.intervals@, id)
    }

    /// How many ids the set holds.
    pub open spec fn spec_count(self) -> int {
        ranges_count(self.intervals@)
    }

    pub fn new() -> (r: QueueWithIntervals)
        ensures
            r.well_formed(),
            r.intervals@.len() == 0,
            forall|id: int| !r.spec_contains(id),
    {
        QueueWithIntervals { intervals: Vec::new() }
    }

    pub fn restore(intervals: Vec<QueueIndexRange>) -> (r: QueueWithIntervals)
        requires
            ranges_well_formed(intervals@),
        ensures
            r.well_formed(),
            r.intervals@ == intervals@,
    {
        QueueWithIntervals { intervals }
    }

    pub fn from_single_interval(from_id: i64, to_id: i64) -> (r: QueueWithIntervals)
        requires
            0 <= from_id <= to_id < i64::MAX,
        ensures
            r.well_formed(),
            r.intervals@.len() == 1,
            r.intervals@[0] == (QueueIndexRange { from_id, to_id }),
            forall|id: int| r.spec_contains(id) <==> from_id <= id <= to_id,
    {
        let mut intervals: Vec<QueueIndexRange> = Vec::new();
        intervals.push(QueueIndexRange { from_id, to_id });
        let q = QueueWithIntervals { intervals };
        proof {
            assert forall|id: int| q.spec_contains(id) <==> from_id <= id <= to_id by {
                if from_id <= id <= to_id {
                    assert(q.intervals@[0].spec_contains(id));
                }
            }
        }
        q
    }

    /// Throw the current content away and adopt the given ranges.
    pub fn reset(&mut self, intervals: Vec<QueueIndexRange>)
        requires
            ranges_well_formed(intervals@),
        ensures
            final(self).well_formed(),
            final(self).intervals@ == intervals@,
    {
        self.intervals = intervals;
    }

    /// Drop every id.
    pub fn clean(&mut self)
        ensures
            final(self).well_formed(),
            final(self).intervals@.len() == 0,
            forall|id: int| !final(self).spec_contains(id),
    {
        self.intervals.clear();
    }

    pub fn has_message(&self, id: i64) -> (r: bool)
        requires
            self.well_formed(),
        ensures
            r == self.spec_contains(id as int),
    {
        let n = self.intervals.len();
        let mut index: usize = 0;
        while index < n
            invariant
                n == self.intervals@.len(),
                0 <= index <= n,
                self.well_formed(),
                forall|i: int| 0 <= i < index ==> !(#[trigger] self.intervals@[i]).spec_contains(
                    id as int,
                ),
            decreases n - index,
        {
            let el = self.intervals[index];
            if el.from_id <= id && id <= el.to_id {
                return true;
            }
            index += 1;
        }
        false
    }

    /// Smallest id, without removing it.
    pub fn peek(&self) -> (r: Option<i64>)
        requires
            self.well_formed(),
        ensures
            self.intervals@.len() == 0 ==> r is None,
            self.intervals@.len() > 0 ==> r == Some(self.intervals@[0].from_id),
            match r {
                Some(m) => self.spec_contains(m as int) && forall|id: int|
                    self.spec_contains(id) ==> m <= id,
                None => forall|id: int| !self.spec_contains(id),
            },
    {
        if self.intervals.len() == 0 {
            return None;
        }
        let first = self.intervals[0];
        proof {
            assert(self.intervals@[0].spec_contains(first.from_id as int));
            assert forall|id: int| self.spec_contains(id) implies first.from_id <= id by {
                lemma_first_is_min(self.intervals@, id);
            }
        }
        Some(first.from_id)
    }

    /// Pop the smallest id.
    pub fn dequeue(&mut self) -> (r: Option<i64>)
        requires
            old(self).well_formed(),
        ensures
            final(self).well_formed(),
            old(self).intervals@.len() == 0 ==> r is None && *final(self) == *old(self),
            old(self).intervals@.len() > 0 ==> {
                let m = old(self).intervals@[0].from_id;
                &&& r == Some(m)
                &&& old(self).spec_contains(m as int)
                &&& forall|id: int| old(self).spec_contains(id) ==> m <= id
                &&& forall|id: int|
                    final(self).spec_contains(id) <==> (old(self).spec_contains(id) && id != m)
                &&& final(self).spec_count() == old(self).spec_count() - 1
            },
    {
        proof {
            lemma_ranges_count_len(self.intervals@);
        }
        if self.intervals.len() == 0 {
            return None;
        }
        let ghost s0 = self.intervals@;
        let first = self.intervals[0];
        let result = first.from_id;
        proof {
            assert(s0[0].spec_contains(result as int));
            assert forall|id: int| old(self).spec_contains(id) implies result <= id by {
                lemma_first_is_min(s0, id);
            }
        }
        if first.from_id == first.to_id {
            self.intervals.remove(0);
            proof {
                let s1 = self.intervals@;
                assert(s1 =~= s0.subrange(1, s0.len() as int));
                assert forall|id: int|
                    ranges_contain(s1, id) <==> (ranges_contain(s0, id) && id
                        != result) by {
                    if ranges_contain(s1, id) {
                        let i = choose|i: int|
                            0 <= i < s1.len() && (#[trigger] s1[i]).spec_contains(id);
                        assert(s0[i + 1].spec_contains(id));
                        assert(s0[0].to_id + 1 < s0[i + 1].from_id);
                    }
                    if ranges_contain(s0, id) && id != result {
                        let i = choose|i: int|
                            0 <= i < s0.len() && (#[trigger] s0[i]).spec_contains(id);
                        assert(i > 0);
                        assert(s1[i - 1].spec_contains(id));
                    }
                }
                lemma_ranges_count_tail(s0);
            }
        } else {
            let updated = QueueIndexRange { from_id: first.from_id + 1, to_id: first.to_id };
            self.intervals[0] = updated;
            proof {
                let s1 = self.intervals@;
                assert(s1 == s0.update(0, updated));
                assert forall|id: int|
                    ranges_contain(s1, id) <==> (ranges_contain(s0, id) && id
                        != result) by {
                    if ranges_contain(s1, id) {
                        let i = choose|i: int|
                            0 <= i < s1.len() && (#[trigger] s1[i]).spec_contains(id);
                        assert(s0[i].spec_contains(id));
                        if i > 0 {
                            assert(s0[0].to_id + 1 < s0[i].from_id);
                        }
                    }
                    if ranges_contain(s0, id) && id != result {
                        let i = choose|i: int|
                            0 <= i < s0.len() && (#[trigger] s0[i]).spec_contains(id);
                        assert(s1[i].spec_contains(id));
                    }
                }
                lemma_ranges_count_update_first(s0, updated);
            }
        }
        Some(result)
    }

    /// Number of ids in the set.
    pub fn len(&self) -> (r: i64)
        requires
            self.well_formed(),
        ensures
            r == self.spec_count(),
    {
        proof {
            lemma_ranges_count_len(self.intervals@);
        }
        let n = self.intervals.len();
        let mut result: i64 = 0;
        let mut index: usize = 0;
        while index < n
            invariant
                n == self.intervals@.len(),
                0 <= index <= n,
                self.well_formed(),
                result == ranges_count(self.intervals@.subrange(0, index as int)),
                0 <= result,
                index < n ==> result + (self.intervals@[index as int].to_id
                    - self.intervals@[index as int].from_id + 1) <= i64::MAX,
            decreases n - index,
        {
            let el = self.intervals[index];
            proof {
                lemma_ranges_count_len(self.intervals@.subrange(0, index as int + 1));
                assert(self.intervals@.subrange(0, index as int + 1).drop_last()
                    =~= self.intervals@.subrange(0, index as int));
                if index as int + 1 < n {
                    lemma_ranges_count_bound_next(self.intervals@, index as int + 1);
                }
            }
            result = result + (el.to_id - el.from_id + 1);
            index += 1;
        }
        proof {
            assert(self.intervals@.subrange(0, n as int) =~= self.intervals@);
        }
        result
    }

    /// A copy of the stored ranges.
    pub fn get_snapshot(&self) -> (r: Vec<QueueIndexRange>)
        ensures
            r@ == self.intervals@,
    {
        let n = self.intervals.len();
        let mut result: Vec<QueueIndexRange> = Vec::new();
        let mut index: usize = 0;
        while index < n
            invariant
                n == self.intervals@.len(),
                0 <= index <= n,
                result@ == self.intervals@.subrange(0, index as int),
            decreases n - index,
        {
            result.push(self.intervals[index]);
            proof {
                assert(result@ =~= self.intervals@.subrange(0, index as int + 1));
            }
            index += 1;
        }
        proof {
            assert(self.intervals@.subrange(0, n as int) =~= self.intervals@);
        }
        result
    }

    pub fn get_min_id(&self) -> (r: Option<i64>)
        requires
            self.well_formed(),
        ensures
            self.intervals@.len() == 0 ==> r is None,
            self.intervals@.len() > 0 ==> r == Some(self.intervals@[0].from_id),
            match r {
                Some(m) => self.spec_contains(m as int) && forall|id: int|
                    self.spec_contains(id) ==> m <= id,
                None => forall|id: int| !self.spec_contains(id),
            },
    {
        self.peek()
    }

    pub fn get_max_id(&self) -> (r: Option<i64>)
        requires
            self.well_formed(),
        ensures
            self.intervals@.len() == 0 ==> r is None,
            self.intervals@.len() > 0 ==> r == Some(
                self.intervals@[self.intervals@.len() - 1].to_id,
            ),
            match r {
                Some(m) => self.spec_contains(m as int) && forall|id: int|
                    self.spec_contains(id) ==> id <= m,
                None => forall|id: int| !self.spec_contains(id),
            },
    {
        let n = self.intervals.len();
        if n == 0 {
            return None;
        }
        let last = self.intervals[n - 1];
        proof {
            assert(self.intervals@[n - 1].spec_contains(last.to_id as int));
            assert forall|id: int| self.spec_contains(id) implies id <= last.to_id by {
                lemma_first_is_min(self.intervals@, id);
            }
        }
        Some(last.to_id)
    }
}

/// The count of a well-formed range sequence is non-negative, and bounded by
/// the span from the first id to the last: disjoint ranges cannot hold more
/// ids than the whole stretch they sit in.
pub proof fn lemma_ranges_count_len(s: Seq<QueueIndexRange>)
    requires
        ranges_well_formed(s),
    ensures
        0 <= ranges_count(s),
        s.len() > 0 ==> ranges_count(s) <= s[s.len() - 1].to_id - s[0].from_id + 1,
    decreases s.len(),
{
    if s.len() > 0 {
        lemma_ranges_count_len(s.drop_last());
        if s.len() > 1 {
            assert(s.drop_last()[0] == s[0]);
            assert(s[s.len() - 2].to_id + 1 < s[s.len() - 1].from_id);
        }
    }
}

/// Dropping the first (single-id) range lowers the count by one.
proof fn lemma_ranges_count_tail(s: Seq<QueueIndexRange>)
    requires
        s.len() > 0,
        s[0].from_id == s[0].to_id,
    ensures
        ranges_count(s.subrange(1, s.len() as int)) == ranges_count(s) - 1,
    decreases s.len(),
{
    let tail = s.subrange(1, s.len() as int);
    if s.len() == 1 {
        assert(tail.len() == 0);
        assert(ranges_count(tail) == 0);
        assert(s.drop_last().len() == 0);
        assert(ranges_count(s) == ranges_count(s.drop_last()) + s.last().spec_len());
        assert(s.last() == s[0]);
        assert(s.last().spec_len() == 1);
    } else {
        assert(s.drop_last()[0] == s[0]);
        lemma_ranges_count_tail(s.drop_last());
        assert(tail.drop_last() =~= s.drop_last().subrange(1, s.drop_last().len() as int));
        assert(ranges_count(tail.drop_last()) == ranges_count(s.drop_last()) - 1);
        assert(tail.last() == s.last());
        assert(ranges_count(tail) == ranges_count(tail.drop_last()) + tail.last().spec_len());
        assert(ranges_count(s) == ranges_count(s.drop_last()) + s.last().spec_len());
    }
}

/// Shrinking the first range by its lowest id lowers the count by one.
proof fn lemma_ranges_count_update_first(s: Seq<QueueIndexRange>, updated: QueueIndexRange)
    requires
        s.len() > 0,
        s[0].from_id < s[0].to_id,
        updated.from_id == s[0].from_id + 1,
        updated.to_id == s[0].to_id,
    ensures
        ranges_count(s.update(0, updated)) == ranges_count(s) - 1,
    decreases s.len(),
{
    let s1 = s.update(0, updated);
    if s.len() == 1 {
        assert(s1.drop_last() =~= s.drop_last());
    } else {
        assert(s1.drop_last() =~= s.drop_last().update(0, updated));
        assert(s1.last() == s.last());
        lemma_ranges_count_update_first(s.drop_last(), updated);
    }
}

/// In a well-formed sequence, the count of a prefix plus the span of the
/// remaining stretch stays within the ids available below the last range.
proof fn lemma_ranges_count_bound_next(s: Seq<QueueIndexRange>, k: int)
    requires
        ranges_well_formed(s),
        0 < k < s.len(),
    ensures
        ranges_count(s.subrange(0, k)) <= s[k].from_id,
{
    let prefix = s.subrange(0, k);
    assert(ranges_well_formed(prefix));
    lemma_ranges_count_len(prefix);
    assert(prefix[0] == s[0]);
    assert(prefix[k - 1] == s[k - 1]);
    assert(s[k - 1].to_id + 1 < s[k].from_id);
}


/// The ids of the ranges, as a mathematical set.
pub open spec fn ranges_id_set(s: Seq<QueueIndexRange>) -> Set<int> {
    Set::new(|id: int| ranges_contain(s, id))
}

/// The running count of a well-formed range sequence is exactly the
/// cardinality of the id set it represents: disjointness means no id is
/// ever counted twice.
pub proof fn lemma_ranges_count_is_card(s: Seq<QueueIndexRange>)
    requires
        ranges_well_formed(s),
    ensures
        ranges_id_set(s).finite(),
        ranges_id_set(s).len() == ranges_count(s),
    decreases s.len(),
{
    if s.len() == 0 {
        assert(ranges_id_set(s) =~= Set::<int>::empty());
    } else {
        let n = s.len() as int;
        let prefix = s.drop_last();
        let last = s.last();
        assert forall|i: int, j: int|
            #![trigger prefix[i], prefix[j]]
            0 <= i < j < prefix.len() implies prefix[i].to_id + 1 < prefix[j].from_id by {
            assert(s[i].to_id + 1 < s[j].from_id);
        }
        assert(ranges_well_formed(prefix));
        lemma_ranges_count_is_card(prefix);
        let rset = set_int_range(last.from_id as int, last.to_id + 1);
        lemma_int_range(last.from_id as int, last.to_id + 1);
        assert forall|id: int|
            ranges_contain(s, id) <==> (ranges_contain(prefix, id) || rset.contains(id)) by {
            if ranges_contain(s, id) {
                let i = choose|i: int| 0 <= i < s.len() && (#[trigger] s[i]).spec_contains(id);
                if i < n - 1 {
                    assert(prefix[i].spec_contains(id));
                }
            }
            if ranges_contain(prefix, id) {
                let i = choose|i: int|
                    0 <= i < prefix.len() && (#[trigger] prefix[i]).spec_contains(id);
                assert(s[i].spec_contains(id));
            }
            if rset.contains(id) {
                assert(s[n - 1].spec_contains(id));
            }
        }
        assert(ranges_id_set(s) =~= ranges_id_set(prefix) + rset);
        assert forall|id: int| ranges_id_set(prefix).contains(id) implies !rset.contains(id) by {
            let i = choose|i: int|
                0 <= i < prefix.len() && (#[trigger] prefix[i]).spec_contains(id);
            assert(s[i].to_id + 1 < s[n - 1].from_id);
        }
        assert(ranges_id_set(prefix).disjoint(rset));
        vstd::set_lib::lemma_set_disjoint_lens(ranges_id_set(prefix), rset);
    }
}

impl QueueWithIntervals {
    /// Insert a single id at its sorted position, merging with a
    /// neighbouring range where the id closes the gap.  An id already
    /// present is refused and the set left untouched.
    #[verifier::rlimit(60)]
    pub fn enqueue(&mut self, message_id: i64) -> (r: Result<(), IntervalError>)
        requires
            old(self).well_formed(),
            0 <= message_id < i64::MAX,
        ensures
            final(self).well_formed(),
            old(self).spec_contains(message_id as int) ==> r == Result::<
                (),
                IntervalError,
            >::Err(IntervalError::IdAlreadyPresent) && *final(self) == *old(self),
            !old(self).spec_contains(message_id as int) ==> r is Ok && forall|id: int|
                final(self).spec_contains(id) <==> (old(self).spec_contains(id) || id
                    == message_id as int),
    {
        let ghost s0 = self.intervals@;
        let n = self.intervals.len();
        let mut index: usize = 0;
        while index < n && self.intervals[index].to_id + 1 < message_id
            invariant
                self.intervals@ == s0,
                ranges_well_formed(s0),
                n == s0.len(),
                0 <= index <= n,
                message_id < i64::MAX,
                forall|i: int| 0 <= i < index ==> (#[trigger] s0[i]).to_id + 1 < message_id,
            decreases n - index,
        {
            index += 1;
        }
        if index == n {
            // Every range ends below the gap before the id: append a new one.
            proof {
                assert forall|i: int|
                    0 <= i < n implies !(#[trigger] s0[i]).spec_contains(message_id as int) by {}
            }
            self.intervals.push(QueueIndexRange {
                from_id: message_id,
                to_id: message_id,
            });
            proof {
                let s1 = self.intervals@;
                assert forall|id: int|
                    ranges_contain(s1, id) <==> (ranges_contain(s0, id) || id
                        == message_id as int) by {
                    if ranges_contain(s1, id) {
                        let i = choose|i: int|
                            0 <= i < s1.len() && (#[trigger] s1[i]).spec_contains(id);
                        if i < n {
                            assert(s0[i].spec_contains(id));
                        }
                    }
                    if ranges_contain(s0, id) {
                        let i = choose|i: int|
                            0 <= i < s0.len() && (#[trigger] s0[i]).spec_contains(id);
                        assert(s1[i].spec_contains(id));
                    }
                    assert(s1[n as int].spec_contains(message_id as int));
                }
            }
            return Ok(());
        }
        let cur = self.intervals[index];
        proof {
            assert forall|i: int|
                0 <= i < n && i != index implies !(#[trigger] s0[i]).spec_contains(
                message_id as int,
            ) by {
                if i > index {
                    assert(s0[index as int].to_id + 1 < s0[i].from_id);
                }
            }
        }
        if message_id >= cur.from_id && message_id <= cur.to_id {
            proof {
                assert(s0[index as int].spec_contains(message_id as int));
            }
            return Err(IntervalError::IdAlreadyPresent);
        }
        if message_id == cur.to_id + 1 {
            // The id extends this range upward; it may also close the gap to
            // the next range, in which case the two ranges fuse.
            if index + 1 < n && self.intervals[index + 1].from_id == message_id + 1 {
                let nxt = self.intervals[index + 1];
                let merged = QueueIndexRange { from_id: cur.from_id, to_id: nxt.to_id };
                self.intervals[index] = merged;
                self.intervals.remove(index + 1);
                proof {
                    let s1 = self.intervals@;
                    assert(s1 == s0.update(index as int, merged).remove(index as int + 1));
                    assert forall|i: int, j: int|
                        #![trigger s1[i], s1[j]]
                        0 <= i < j < s1.len() implies s1[i].to_id + 1 < s1[j].from_id by {
                        if j > index {
                            assert(s1[j] == s0[j + 1]);
                        }
                        if i > index {
                            assert(s1[i] == s0[i + 1]);
                        }
                        if i == index {
                            assert(s0[index as int + 1].to_id + 1 < s0[j + 1].from_id);
                        }
                    }
                    assert forall|i: int| 0 <= i < s1.len() implies (#[trigger] s1[i]).well_formed() by {
                        if i > index {
                            assert(s1[i] == s0[i + 1]);
                        }
                    }
                    assert forall|id: int|
                        ranges_contain(s1, id) <==> (ranges_contain(s0, id) || id
                            == message_id as int) by {
                        if ranges_contain(s1, id) {
                            let i = choose|i: int|
                                0 <= i < s1.len() && (#[trigger] s1[i]).spec_contains(id);
                            if i < index {
                                assert(s0[i].spec_contains(id));
                            } else if i == index {
                                if id <= cur.to_id {
                                    assert(s0[index as int].spec_contains(id));
                                } else if id >= nxt.from_id {
                                    assert(s0[index as int + 1].spec_contains(id));
                                }
                            } else {
                                assert(s0[i + 1].spec_contains(id));
                            }
                        }
                        if ranges_contain(s0, id) {
                            let i = choose|i: int|
                                0 <= i < s0.len() && (#[trigger] s0[i]).spec_contains(id);
                            if i < index {
                                assert(s1[i].spec_contains(id));
                            } else if i == index || i == index + 1 {
                                assert(s1[index as int].spec_contains(id));
                            } else {
                                assert(s1[i - 1].spec_contains(id));
                            }
                        }
                        if id == message_id as int {
                            assert(s1[index as int].spec_contains(id));
                        }
                    }
                }
            } else {
                let extended = QueueIndexRange { from_id: cur.from_id, to_id: message_id };
                self.intervals[index] = extended;
                proof {
                    let s1 = self.intervals@;
                    assert(s1 == s0.update(index as int, extended));
                    assert forall|i: int, j: int|
                        #![trigger s1[i], s1[j]]
                        0 <= i < j < s1.len() implies s1[i].to_id + 1 < s1[j].from_id by {
                        if i == index {
                            // the next range, if any, does not start at
                            // message_id + 1, and starts above cur.to_id + 1
                            assert(s0[index as int].to_id + 1 < s0[j].from_id);
                            if j == index as int + 1 {
                                assert(s0[j].from_id != message_id + 1);
                            } else {
                                assert(s0[index as int + 1].to_id + 1 < s0[j].from_id);
                                assert(s0[index as int].to_id + 1 < s0[index as int + 1].from_id);
                            }
                        }
                    }
                    assert forall|id: int|
                        ranges_contain(s1, id) <==> (ranges_contain(s0, id) || id
                            == message_id as int) by {
                        if ranges_contain(s1, id) {
                            let i = choose|i: int|
                                0 <= i < s1.len() && (#[trigger] s1[i]).spec_contains(id);
                            if i != index && 0 <= i < s0.len() {
                                assert(s0[i].spec_contains(id));
                            } else if id != message_id as int {
                                assert(s0[index as int].spec_contains(id));
                            }
                        }
                        if ranges_contain(s0, id) {
                            let i = choose|i: int|
                                0 <= i < s0.len() && (#[trigger] s0[i]).spec_contains(id);
                            assert(s1[i].spec_contains(id));
                        }
                        if id == message_id as int {
                            assert(s1[index as int].spec_contains(id));
                        }
                    }
                }
            }
            return Ok(());
        }
        if message_id == cur.from_id - 1 {
            // The id extends this range downward; the previous range, if
            // any, ends at least two below the id, so no fusing is needed.
            let extended = QueueIndexRange { from_id: message_id, to_id: cur.to_id };
            self.intervals[index] = extended;
            proof {
                let s1 = self.intervals@;
                assert(s1 == s0.update(index as int, extended));
                assert forall|i: int, j: int|
                    #![trigger s1[i], s1[j]]
                    0 <= i < j < s1.len() implies s1[i].to_id + 1 < s1[j].from_id by {
                    if j == index {
                        assert(s0[i].to_id + 1 < message_id);
                    }
                }
                assert forall|id: int|
                    ranges_contain(s1, id) <==> (ranges_contain(s0, id) || id
                        == message_id as int) by {
                    if ranges_contain(s1, id) {
                        let i = choose|i: int|
                            0 <= i < s1.len() && (#[trigger] s1[i]).spec_contains(id);
                        if i != index {
                            assert(s0[i].spec_contains(id));
                        } else if id != message_id as int {
                            assert(s0[index as int].spec_contains(id));
                        }
                    }
                    if ranges_contain(s0, id) {
                        let i = choose|i: int|
                            0 <= i < s0.len() && (#[trigger] s0[i]).spec_contains(id);
                        assert(s1[i].spec_contains(id));
                    }
                    if id == message_id as int {
                        assert(s1[index as int].spec_contains(id));
                    }
                }
            }
            return Ok(());
        }
        // The id sits strictly inside the gap before this range: it becomes
        // a new single-id range of its own.
        let single = QueueIndexRange { from_id: message_id, to_id: message_id };
        self.intervals.insert(index, single);
        proof {
            let s1 = self.intervals@;
            assert(s1 == s0.insert(index as int, single));
            assert forall|i: int| 0 <= i < s1.len() implies (#[trigger] s1[i]).well_formed() by {
                if i > index {
                    assert(s1[i] == s0[i - 1]);
                }
            }
            assert forall|i: int, j: int|
                #![trigger s1[i], s1[j]]
                0 <= i < j < s1.len() implies s1[i].to_id + 1 < s1[j].from_id by {
                if i < index && j == index {
                    assert(s0[i].to_id + 1 < message_id);
                }
                if i == index && j > index {
                    assert(s1[j] == s0[j - 1]);
                    if j > index as int + 1 {
                        assert(s0[index as int].to_id + 1 < s0[j - 1].from_id);
                    }
                }
                if i < index && j > index {
                    assert(s1[j] == s0[j - 1]);
                    if j - 1 > i {
                        assert(s0[i].to_id + 1 < s0[j - 1].from_id);
                    }
                }
                if i > index {
                    assert(s1[i] == s0[i - 1]);
                    assert(s1[j] == s0[j - 1]);
                    assert(s0[i - 1].to_id + 1 < s0[j - 1].from_id);
                }
            }
            assert forall|id: int|
                ranges_contain(s1, id) <==> (ranges_contain(s0, id) || id
                    == message_id as int) by {
                if ranges_contain(s1, id) {
                    let i = choose|i: int|
                        0 <= i < s1.len() && (#[trigger] s1[i]).spec_contains(id);
                    if i < index {
                        assert(s0[i].spec_contains(id));
                    } else if i > index {
                        assert(s0[i - 1].spec_contains(id));
                    }
                }
                if ranges_contain(s0, id) {
                    let i = choose|i: int|
                        0 <= i < s0.len() && (#[trigger] s0[i]).spec_contains(id);
                    if i < index {
                        assert(s1[i].spec_contains(id));
                    } else {
                        assert(s1[i + 1].spec_contains(id));
                    }
                }
                if id == message_id as int {
                    assert(s1[index as int].spec_contains(id));
                }
            }
        }
        Ok(())
    }

    /// Insert an id the caller has shown to be absent; the insertion
    /// cannot be refused.
    pub(crate) fn enqueue_new(&mut self, message_id: i64)
        requires
            old(self).well_formed(),
            0 <= message_id < i64::MAX,
            !old(self).spec_contains(message_id as int),
        ensures
            final(self).well_formed(),
            forall|id: int|
                final(self).spec_contains(id) <==> (old(self).spec_contains(id) || id
                    == message_id as int),
    {
        match self.enqueue(message_id) {
            Ok(_) => {},
            Err(_) => {
                proof {
                    assert(false);
                }
            },
        }
    }

    /// Remove one id wherever it sits: at the sole position of a range, at
    /// one of its edges, or in its interior, splitting the range in two.
    /// Reports whether the id was present.
    pub fn remove(&mut self, id: i64) -> (r: bool)
        requires
            old(self).well_formed(),
        ensures
            final(self).well_formed(),
            r == old(self).spec_contains(id as int),
            forall|x: int|
                final(self).spec_contains(x) <==> (old(self).spec_contains(x) && x != id as int),
            !r ==> *final(self) == *old(self),
    {
        let ghost s0 = self.intervals@;
        let n = self.intervals.len();
        let mut index: usize = 0;
        while index < n && self.intervals[index].to_id < id
            invariant
                self.intervals@ == s0,
                ranges_well_formed(s0),
                n == s0.len(),
                0 <= index <= n,
                forall|i: int| 0 <= i < index ==> (#[trigger] s0[i]).to_id < id,
            decreases n - index,
        {
            index += 1;
        }
        if index == n {
            // every stored range ends below the id, so it is absent
            proof {
                if ranges_contain(s0, id as int) {
                    let i = choose|i: int|
                        0 <= i < s0.len() && (#[trigger] s0[i]).spec_contains(id as int);
                    assert(false);
                }
            }
            return false;
        }
        let cur = self.intervals[index];
        proof {
            assert forall|i: int|
                0 <= i < n && i != index implies !(#[trigger] s0[i]).spec_contains(id as int) by {
                if i > index {
                    assert(s0[index as int].to_id + 1 < s0[i].from_id);
                }
            }
        }
        if id < cur.from_id {
            proof {
                assert(!s0[index as int].spec_contains(id as int));
            }
            return false;
        }
        // The id lies inside this range.
        proof {
            assert(s0[index as int].spec_contains(id as int));
        }
        if cur.from_id == id && cur.to_id == id {
            self.intervals.remove(index);
            proof {
                let s1 = self.intervals@;
                assert(s1 == s0.remove(index as int));
                assert forall|i: int, j: int|
                    #![trigger s1[i], s1[j]]
                    0 <= i < j < s1.len() implies s1[i].to_id + 1 < s1[j].from_id by {
                    if j >= index {
                        assert(s1[j] == s0[j + 1]);
                    }
                    if i >= index {
                        assert(s1[i] == s0[i + 1]);
                    }
                    if i < index && j >= index {
                        assert(s0[i].to_id + 1 < s0[j + 1].from_id);
                    }
                }
                assert forall|i: int| 0 <= i < s1.len() implies (#[trigger] s1[i]).well_formed() by {
                    if i >= index {
                        assert(s1[i] == s0[i + 1]);
                    }
                }
                assert forall|x: int|
                    ranges_contain(s1, x) <==> (ranges_contain(s0, x) && x != id as int) by {
                    if ranges_contain(s1, x) {
                        let i = choose|i: int|
                            0 <= i < s1.len() && (#[trigger] s1[i]).spec_contains(x);
                        if i < index {
                            assert(s0[i].spec_contains(x));
                        } else {
                            assert(s0[i + 1].spec_contains(x));
                        }
                    }
                    if ranges_contain(s0, x) && x != id as int {
                        let i = choose|i: int|
                            0 <= i < s0.len() && (#[trigger] s0[i]).spec_contains(x);
                        if i < index {
                            assert(s1[i].spec_contains(x));
                        } else if i > index {
                            assert(s1[i - 1].spec_contains(x));
                        }
                    }
                }
            }
            return true;
        }
        if cur.from_id == id {
            let shrunk = QueueIndexRange { from_id: id + 1, to_id: cur.to_id };
            self.intervals[index] = shrunk;
            proof {
                lemma_remove_edge(s0, index as int, shrunk, id as int);
            }
            return true;
        }
        if cur.to_id == id {
            let shrunk = QueueIndexRange { from_id: cur.from_id, to_id: id - 1 };
            self.intervals[index] = shrunk;
            proof {
                lemma_remove_edge(s0, index as int, shrunk, id as int);
            }
            return true;
        }
        // Interior id: split the range in two around it.
        let left = QueueIndexRange { from_id: cur.from_id, to_id: id - 1 };
        let right = QueueIndexRange { from_id: id + 1, to_id: cur.to_id };
        self.intervals[index] = left;
        self.intervals.insert(index + 1, right);
        proof {
            let s1 = self.intervals@;
            assert(s1 == s0.update(index as int, left).insert(index as int + 1, right));
            assert forall|i: int| 0 <= i < s1.len() implies (#[trigger] s1[i]).well_formed() by {
                if i > index as int + 1 {
                    assert(s1[i] == s0[i - 1]);
                }
            }
            assert forall|i: int, j: int|
                #![trigger s1[i], s1[j]]
                0 <= i < j < s1.len() implies s1[i].to_id + 1 < s1[j].from_id by {
                if i > index as int + 1 {
                    assert(s1[i] == s0[i - 1]);
                }
                if j > index as int + 1 {
                    assert(s1[j] == s0[j - 1]);
                }
                if i < index && j <= index as int + 1 {
                    assert(s0[i].to_id + 1 < s0[index as int].from_id);
                }
                if i <= index as int + 1 && j > index as int + 1 {
                    assert(s0[index as int].to_id + 1 < s0[j - 1].from_id);
                }
                if i < index && j > index as int + 1 {
                    assert(s0[i].to_id + 1 < s0[j - 1].from_id);
                }
            }
            assert forall|x: int|
                ranges_contain(s1, x) <==> (ranges_contain(s0, x) && x != id as int) by {
                if ranges_contain(s1, x) {
                    let i = choose|i: int| 0 <= i < s1.len() && (#[trigger] s1[i]).spec_contains(x);
                    if i < index {
                        assert(s0[i].spec_contains(x));
                    } else if i == index || i == index as int + 1 {
                        assert(s0[index as int].spec_contains(x));
                    } else {
                        assert(s0[i - 1].spec_contains(x));
                    }
                }
                if ranges_contain(s0, x) && x != id as int {
                    let i = choose|i: int| 0 <= i < s0.len() && (#[trigger] s0[i]).spec_contains(x);
                    if i < index {
                        assert(s1[i].spec_contains(x));
                    } else if i == index {
                        if x < id {
                            assert(s1[index as int].spec_contains(x));
                        } else {
                            assert(s1[index as int + 1].spec_contains(x));
                        }
                    } else {
                        assert(s1[i + 1].spec_contains(x));
                    }
                }
            }
        }
        true
    }
}

/// Shrinking one range at its edge removes exactly the edge id from the set
/// and keeps the sequence well-formed.
proof fn lemma_remove_edge(
    s0: Seq<QueueIndexRange>,
    index: int,
    shrunk: QueueIndexRange,
    id: int,
)
    requires
        ranges_well_formed(s0),
        0 <= index < s0.len(),
        s0[index].spec_contains(id),
        shrunk.well_formed(),
        shrunk.from_id >= s0[index].from_id,
        shrunk.to_id <= s0[index].to_id,
        forall|x: int| shrunk.spec_contains(x) <==> (s0[index].spec_contains(x) && x != id),
    ensures
        ranges_well_formed(s0.update(index, shrunk)),
        forall|x: int|
            ranges_contain(s0.update(index, shrunk), x) <==> (ranges_contain(s0, x) && x != id),
{
    let s1 = s0.update(index, shrunk);
    assert forall|i: int, j: int|
        #![trigger s1[i], s1[j]]
        0 <= i < j < s1.len() implies s1[i].to_id + 1 < s1[j].from_id by {
        assert(s0[i].to_id + 1 < s0[j].from_id);
    }
    assert forall|i: int|
        0 <= i < s0.len() && i != index implies !(#[trigger] s0[i]).spec_contains(id) by {
        if i < index {
            assert(s0[i].to_id + 1 < s0[index].from_id);
        } else {
            assert(s0[index].to_id + 1 < s0[i].from_id);
        }
    }
    assert forall|x: int|
        ranges_contain(s1, x) <==> (ranges_contain(s0, x) && x != id) by {
        if ranges_contain(s1, x) {
            let i = choose|i: int| 0 <= i < s1.len() && (#[trigger] s1[i]).spec_contains(x);
            if i != index {
                assert(s0[i].spec_contains(x));
            } else {
                assert(s0[index].spec_contains(x));
            }
        }
        if ranges_contain(s0, x) && x != id {
            let i = choose|i: int| 0 <= i < s0.len() && (#[trigger] s0[i]).spec_contains(x);
            if i != index {
                assert(s1[i].spec_contains(x));
            } else {
                assert(s1[index].spec_contains(x));
            }
        }
    }
}


impl QueueWithIntervals {
    /// Merge a whole range into the set.  Ranges the new one covers are
    /// absorbed; ranges it overlaps or touches at either boundary fuse with
    /// it; the result is again compact: sorted, disjoint, non-adjacent.
    #[verifier::rlimit(60)]
    pub fn enqueue_range(&mut self, range_to_insert: &QueueIndexRange)
        requires
            old(self).well_formed(),
            range_to_insert.well_formed(),
        ensures
            final(self).well_formed(),
            forall|id: int|
                final(self).spec_contains(id) <==> (old(self).spec_contains(id)
                    || range_to_insert.spec_contains(id)),
    {
        let ghost s0 = self.intervals@;
        let n = self.intervals.len();
        let mut result: Vec<QueueIndexRange> = Vec::new();
        let mut index: usize = 0;
        // Ranges that end at least two ids below the new range stay as they
        // are.
        while index < n && self.intervals[index].to_id + 1 < range_to_insert.from_id
            invariant
                self.intervals@ == s0,
                ranges_well_formed(s0),
                n == s0.len(),
                0 <= index <= n,
                result@ == s0.subrange(0, index as int),
                forall|i: int|
                    0 <= i < index ==> (#[trigger] s0[i]).to_id + 1 < range_to_insert.from_id,
            decreases n - index,
        {
            result.push(self.intervals[index]);
            proof {
                assert(result@ =~= s0.subrange(0, index as int + 1));
            }
            index += 1;
        }
        let ghost k: int = index as int;
        // Every range from here on that starts at or before `to_id + 1`
        // overlaps or touches the growing merged range and is absorbed.
        let mut from_id = range_to_insert.from_id;
        let mut to_id = range_to_insert.to_id;
        while index < n && self.intervals[index].from_id <= to_id + 1
            invariant
                self.intervals@ == s0,
                ranges_well_formed(s0),
                n == s0.len(),
                range_to_insert.well_formed(),
                k <= index <= n,
                result@ == s0.subrange(0, k),
                forall|i: int| 0 <= i < k ==> (#[trigger] s0[i]).to_id + 1 < range_to_insert.from_id,
                0 <= from_id <= range_to_insert.from_id,
                range_to_insert.to_id <= to_id < i64::MAX,
                from_id <= to_id,
                k > 0 ==> s0[k - 1].to_id + 1 < from_id,
                forall|i: int|
                    k <= i < index ==> from_id <= (#[trigger] s0[i]).from_id && s0[i].to_id
                        <= to_id,
                forall|i: int|
                    index <= i < n ==> (#[trigger] s0[i]).to_id + 1 >= from_id,
                forall|id: int|
                    from_id <= id <= to_id ==> (range_to_insert.spec_contains(id)
                        || ranges_contain(s0, id)),
            decreases n - index,
        {
            let el = self.intervals[index];
            let ghost old_from = from_id;
            let ghost old_to = to_id;
            if el.from_id < from_id {
                from_id = el.from_id;
            }
            if el.to_id > to_id {
                to_id = el.to_id;
            }
            proof {
                assert forall|id: int|
                    from_id <= id <= to_id implies (range_to_insert.spec_contains(id)
                        || ranges_contain(s0, id)) by {
                    if id < old_from || id > old_to {
                        assert(s0[index as int].spec_contains(id));
                    }
                }
            }
            index += 1;
        }
        let ghost j: int = index as int;
        let merged = QueueIndexRange { from_id, to_id };
        result.push(merged);
        proof {
            assert(result@ =~= s0.subrange(0, k).push(merged));
            assert(result@ =~= s0.subrange(0, k).push(merged) + s0.subrange(j, j));
        }
        // The remaining ranges start beyond the merged one; they stay.
        while index < n
            invariant
                self.intervals@ == s0,
                ranges_well_formed(s0),
                n == s0.len(),
                0 <= k <= j <= index <= n,
                result@ == s0.subrange(0, k).push(merged) + s0.subrange(j, index as int),
                j < n ==> merged.to_id + 1 < s0[j].from_id,
            decreases n - index,
        {
            result.push(self.intervals[index]);
            proof {
                assert(result@ =~= s0.subrange(0, k).push(merged) + s0.subrange(
                    j,
                    index as int + 1,
                ));
            }
            index += 1;
        }
        self.intervals = result;
        proof {
            let s1 = self.intervals@;
            let m = s1.len();
            assert(m == k + 1 + (n - j));
            assert(s1[k] == merged);
            assert(merged.well_formed());
            assert forall|i: int| 0 <= i < m implies (#[trigger] s1[i]).well_formed() by {
                if i < k {
                    assert(s1[i] == s0[i]);
                } else if i > k {
                    assert(s1[i] == s0[i - 1 + j - k]);
                }
            }
            assert forall|i: int, jj: int|
                #![trigger s1[i], s1[jj]]
                0 <= i < jj < m implies s1[i].to_id + 1 < s1[jj].from_id by {
                if i < k {
                    assert(s1[i] == s0[i]);
                }
                if i > k {
                    assert(s1[i] == s0[i - 1 + j - k]);
                }
                if jj < k {
                    assert(s1[jj] == s0[jj]);
                }
                if jj > k {
                    assert(s1[jj] == s0[jj - 1 + j - k]);
                }
                if i < k && jj < k {
                    assert(s0[i].to_id + 1 < s0[jj].from_id);
                } else if i < k && jj == k {
                    assert(s0[i].to_id + 1 < s0[k - 1].from_id || i == k - 1);
                    assert(s0[i].to_id <= s0[k - 1].to_id);
                } else if i == k && jj > k {
                    assert(s0[j].from_id <= s0[jj - 1 + j - k].from_id);
                } else if i < k && jj > k {
                    assert(s0[i].to_id + 1 < s0[jj - 1 + j - k].from_id);
                } else if i > k && jj > k {
                    assert(s0[i - 1 + j - k].to_id + 1 < s0[jj - 1 + j - k].from_id);
                }
            }
            assert forall|id: int|
                ranges_contain(s1, id) <==> (ranges_contain(s0, id)
                    || range_to_insert.spec_contains(id)) by {
                if ranges_contain(s1, id) {
                    let i = choose|i: int| 0 <= i < s1.len() && (#[trigger] s1[i]).spec_contains(id);
                    if i < k {
                        assert(s0[i].spec_contains(id));
                    } else if i > k {
                        assert(s0[i - 1 + j - k].spec_contains(id));
                    }
                }
                if ranges_contain(s0, id) {
                    let i = choose|i: int| 0 <= i < s0.len() && (#[trigger] s0[i]).spec_contains(id);
                    if i < k {
                        assert(s1[i].spec_contains(id));
                    } else if i < j {
                        assert(s1[k].spec_contains(id));
                    } else {
                        assert(s1[i + 1 - j + k].spec_contains(id));
                    }
                }
                if range_to_insert.spec_contains(id) {
                    assert(s1[k].spec_contains(id));
                }
            }
        }
    }
}

impl QueueWithIntervals {
    /// Split the set at an id.  When the id lies within the set's span, the
    /// left part keeps every id at or below it and the right part every id
    /// above it.  An empty set yields nothing; an id outside the span hands
    /// the whole set back on the left.
    #[verifier::rlimit(60)]
    pub fn split(&self, id: i64) -> (r: (Option<QueueWithIntervals>, Option<QueueWithIntervals>))
        requires
            self.well_formed(),
        ensures
            self.intervals@.len() == 0 ==> r.0 is None && r.1 is None,
            self.intervals@.len() > 0 && (id < self.intervals@[0].from_id || id
                > self.intervals@[self.intervals@.len() - 1].to_id) ==> r.1 is None && match r.0 {
                Some(q) => q.intervals@ == self.intervals@,
                None => false,
            },
            self.intervals@.len() > 0 && self.intervals@[0].from_id <= id
                <= self.intervals@[self.intervals@.len() - 1].to_id ==> match (r.0, r.1) {
                (Some(left), Some(right)) => {
                    &&& left.well_formed()
                    &&& right.well_formed()
                    &&& forall|x: int|
                        left.spec_contains(x) <==> (self.spec_contains(x) && x <= id as int)
                    &&& forall|x: int|
                        right.spec_contains(x) <==> (self.spec_contains(x) && x > id as int)
                },
                _ => false,
            },
    {
        let ghost s0 = self.intervals@;
        let n = self.intervals.len();
        if n == 0 {
            return (None, None);
        }
        let min_id = self.intervals[0].from_id;
        let max_id = self.intervals[n - 1].to_id;
        if id < min_id || id > max_id {
            return (Some(QueueWithIntervals { intervals: self.get_snapshot() }), None);
        }
        let mut left: Vec<QueueIndexRange> = Vec::new();
        let mut right: Vec<QueueIndexRange> = Vec::new();
        let mut index: usize = 0;
        while index < n
            invariant
                self.intervals@ == s0,
                ranges_well_formed(s0),
                n == s0.len(),
                0 <= index <= n,
                ranges_well_formed(left@),
                ranges_well_formed(right@),
                left@.len() > 0 ==> index > 0 && left@[left@.len() - 1].to_id <= s0[index
                    - 1].to_id && left@[left@.len() - 1].to_id <= id,
                right@.len() > 0 ==> index > 0 && right@[right@.len() - 1].to_id == s0[index
                    - 1].to_id,
                forall|x: int|
                    #![trigger ranges_contain(left@, x)]
                    ranges_contain(left@, x) <==> (ranges_contain(s0.subrange(0, index as int), x)
                        && x <= id as int),
                forall|x: int|
                    #![trigger ranges_contain(right@, x)]
                    ranges_contain(right@, x) <==> (ranges_contain(s0.subrange(0, index as int), x)
                        && x > id as int),
            decreases n - index,
        {
            let ghost pre = s0.subrange(0, index as int);
            let ghost post = s0.subrange(0, index as int + 1);
            let ghost left0 = left@;
            let ghost right0 = right@;
            let el = self.intervals[index];
            proof {
                assert forall|x: int|
                    ranges_contain(post, x) <==> (ranges_contain(pre, x)
                        || s0[index as int].spec_contains(x)) by {
                    if ranges_contain(post, x) {
                        let i = choose|i: int|
                            0 <= i < post.len() && (#[trigger] post[i]).spec_contains(x);
                        if i < index {
                            assert(pre[i].spec_contains(x));
                        }
                    }
                    if ranges_contain(pre, x) {
                        let i = choose|i: int|
                            0 <= i < pre.len() && (#[trigger] pre[i]).spec_contains(x);
                        assert(post[i].spec_contains(x));
                    }
                    if s0[index as int].spec_contains(x) {
                        assert(post[index as int].spec_contains(x));
                    }
                }
            }
            if el.to_id <= id {
                left.push(el);
                proof {
                    // A range ending at or below the split id cannot follow
                    // any range that was already routed right of the split.
                    if right0.len() > 0 {
                        let lastr = right0[right0.len() - 1];
                        assert(lastr.well_formed());
                        assert(lastr.spec_contains(lastr.to_id as int));
                        assert(ranges_contain(right0, lastr.to_id as int));
                        assert(s0[index as int - 1].to_id + 1 < s0[index as int].from_id);
                        assert(s0[index as int].well_formed());
                        assert(false);
                    }
                    lemma_ranges_push_preserves(left0, el, s0, index as int, id as int);
                    assert forall|x: int|
                        #![trigger ranges_contain(left@, x)]
                        ranges_contain(left@, x) <==> (ranges_contain(post, x) && x
                            <= id as int) by {
                        lemma_ranges_contain_push(left0, el, x);
                    }
                    assert forall|x: int|
                        #![trigger ranges_contain(right@, x)]
                        ranges_contain(right@, x) <==> (ranges_contain(post, x) && x
                            > id as int) by {
                        if ranges_contain(post, x) && x > id as int {
                            assert(ranges_contain(pre, x) || s0[index as int].spec_contains(x));
                            assert(!s0[index as int].spec_contains(x));
                        }
                    }
                }
            } else if el.from_id > id {
                right.push(el);
                proof {
                    lemma_ranges_push_preserves(right0, el, s0, index as int, i64::MAX as int);
                    assert forall|x: int|
                        #![trigger ranges_contain(right@, x)]
                        ranges_contain(right@, x) <==> (ranges_contain(post, x) && x
                            > id as int) by {
                        lemma_ranges_contain_push(right0, el, x);
                    }
                    assert forall|x: int|
                        #![trigger ranges_contain(left@, x)]
                        ranges_contain(left@, x) <==> (ranges_contain(post, x) && x
                            <= id as int) by {
                        if ranges_contain(post, x) && x <= id as int {
                            assert(ranges_contain(pre, x) || s0[index as int].spec_contains(x));
                            assert(!s0[index as int].spec_contains(x));
                        }
                    }
                }
            } else {
                // The id cuts this range: clip it on both sides.
                let left_part = QueueIndexRange { from_id: el.from_id, to_id: id };
                let right_part = QueueIndexRange { from_id: id + 1, to_id: el.to_id };
                left.push(left_part);
                right.push(right_part);
                proof {
                    lemma_ranges_push_preserves(left0, left_part, s0, index as int, id as int);
                    lemma_ranges_push_preserves(right0, right_part, s0, index as int, i64::MAX as int);
                    assert forall|x: int|
                        #![trigger ranges_contain(left@, x)]
                        ranges_contain(left@, x) <==> (ranges_contain(post, x) && x
                            <= id as int) by {
                        lemma_ranges_contain_push(left0, left_part, x);
                    }
                    assert forall|x: int|
                        #![trigger ranges_contain(right@, x)]
                        ranges_contain(right@, x) <==> (ranges_contain(post, x) && x
                            > id as int) by {
                        lemma_ranges_contain_push(right0, right_part, x);
                    }
                }
            }
            index += 1;
            proof {
                assert(post == s0.subrange(0, index as int));
            }
        }
        proof {
            assert(s0.subrange(0, n as int) =~= s0);
        }
        (
            Some(QueueWithIntervals { intervals: left }),
            Some(QueueWithIntervals { intervals: right }),
        )
    }
}

/// Membership in a pushed sequence is membership in the old sequence or in
/// the new range.
proof fn lemma_ranges_contain_push(s: Seq<QueueIndexRange>, el: QueueIndexRange, x: int)
    ensures
        ranges_contain(s.push(el), x) <==> (ranges_contain(s, x) || el.spec_contains(x)),
{
    let s1 = s.push(el);
    if ranges_contain(s1, x) {
        let i = choose|i: int| 0 <= i < s1.len() && (#[trigger] s1[i]).spec_contains(x);
        if i < s.len() {
            assert(s[i].spec_contains(x));
        }
    }
    if ranges_contain(s, x) {
        let i = choose|i: int| 0 <= i < s.len() && (#[trigger] s[i]).spec_contains(x);
        assert(s1[i].spec_contains(x));
    }
    if el.spec_contains(x) {
        assert(s1[s.len() as int].spec_contains(x));
    }
}

/// Pushing a clipped piece of `s0[index]` onto an output sequence whose last
/// range ends at or before `s0[index - 1].to_id` keeps the output
/// well-formed and keeps the bookkeeping bounds.
proof fn lemma_ranges_push_preserves(
    out: Seq<QueueIndexRange>,
    el: QueueIndexRange,
    s0: Seq<QueueIndexRange>,
    index: int,
    cap: int,
)
    requires
        ranges_well_formed(out),
        ranges_well_formed(s0),
        0 <= index < s0.len(),
        el.well_formed(),
        el.from_id >= s0[index].from_id,
        el.to_id <= s0[index].to_id,
        out.len() > 0 ==> index > 0 && out[out.len() - 1].to_id <= s0[index - 1].to_id,
    ensures
        ranges_well_formed(out.push(el)),
        out.push(el)[out.push(el).len() - 1].to_id == el.to_id,
{
    let s1 = out.push(el);
    assert forall|i: int| 0 <= i < s1.len() implies (#[trigger] s1[i]).well_formed() by {
        if i < out.len() {
            assert(out[i].well_formed());
        }
    }
    assert forall|i: int, j: int|
        #![trigger s1[i], s1[j]]
        0 <= i < j < s1.len() implies s1[i].to_id + 1 < s1[j].from_id by {
        if j < out.len() {
            assert(out[i].to_id + 1 < out[j].from_id);
        } else {
            if i < out.len() - 1 {
                assert(out[i].to_id + 1 < out[out.len() - 1].from_id);
                assert(out[out.len() - 1].from_id <= out[out.len() - 1].to_id);
            }
            if out.len() > 0 {
                assert(s0[index - 1].to_id + 1 < s0[index].from_id);
            }
        }
    }
}

/// Membership in one more range of a prefix: used when walking a stored
/// range list range by range.
pub proof fn lemma_ranges_contain_take_grow(s: Seq<QueueIndexRange>, k: int, x: int)
    requires
        0 <= k < s.len(),
    ensures
        ranges_contain(s.subrange(0, k + 1), x) <==> (ranges_contain(s.subrange(0, k), x)
            || s[k].spec_contains(x)),
{
    let big = s.subrange(0, k + 1);
    let small = s.subrange(0, k);
    if ranges_contain(big, x) {
        let i = choose|i: int| 0 <= i < big.len() && (#[trigger] big[i]).spec_contains(x);
        if i < k {
            assert(small[i].spec_contains(x));
        } else {
            assert(big[i] == s[k]);
        }
    }
    if ranges_contain(small, x) {
        let i = choose|i: int| 0 <= i < small.len() && (#[trigger] small[i]).spec_contains(x);
        assert(big[i].spec_contains(x));
    }
    if s[k].spec_contains(x) {
        assert(big[k].spec_contains(x));
    }
}

} // verus!
