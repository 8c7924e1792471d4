use vstd::prelude::*;

verus! {

/// Result of removing a single id from a range: the range may stay a single
/// range, split in two (the new right half is handed back), or vanish.
pub enum RemoveResult {
    NoUpdate,
    InsertNew(QueueIndexRange),
    RemoveItem,
}

/// Where an id lies relative to a non-empty range.
pub enum QueueIndexRangeCompare {
    Below,
    Inside,
    Above,
}

/// A closed, inclusive block of message ids: `from_id ..= to_id`.
///
/// A range with `to_id < from_id` is empty.  Empty ranges are transient
/// mutation artifacts only; a stored interval set never keeps one.
#[derive(Debug, Clone, Copy, PartialEq, Eq, Structural)]
pub struct QueueIndexRange {
    pub from_id: i64,
    pub to_id: i64,
}

impl QueueIndexRange {
    /// The range holds no id at all.
    pub open spec fn spec_is_empty(self) -> bool {
        self.to_id < self.from_id
    }

    /// The id lies inside the closed range.
    pub open spec fn spec_contains(self, id: int) -> bool {
        self.from_id <= id <= self.to_id
    }

    /// Ids are message ids: non-negative, and strictly below `i64::MAX` so
    /// that the neighbouring ids `from_id - 1` and `to_id + 1` always exist.
    pub open spec fn id_bounds_ok(self) -> bool {
        &&& 0 <= self.from_id
        &&& self.to_id < i64::MAX
    }

    /// A well-formed stored range: non-empty with ids in bounds.
    pub open spec fn well_formed(self) -> bool {
        &&& self.id_bounds_ok()
        &&& !self.spec_is_empty()
    }

    /// Number of ids the range holds.
    pub open spec fn spec_len(self) -> int {
        if self.spec_is_empty() {
            0
        } else {
            self.to_id - self.from_id + 1
        }
    }

    pub fn restore(from_id: i64, to_id: i64) -> (r: QueueIndexRange)
        ensures
            r == (QueueIndexRange { from_id, to_id }),
    {
        QueueIndexRange { from_id, to_id }
    }

    pub fn new_empty(start_id: i64) -> (r: QueueIndexRange)
        requires
            start_id > i64::MIN,
        ensures
            r.spec_is_empty(),
            r.from_id == start_id,
            r.to_id == start_id - 1,
    {
        QueueIndexRange { from_id: start_id, to_id: start_id - 1 }
    }

    pub fn new_with_single_value(value: i64) -> (r: QueueIndexRange)
        ensures
            r.from_id == value,
            r.to_id == value,
            forall|id: int| r.spec_contains(id) <==> id == value,
    {
        QueueIndexRange { from_id: value, to_id: value }
    }

    pub fn is_empty(&self) -> (r: bool)
        ensures
            r == self.spec_is_empty(),
    {
        self.to_id < self.from_id
    }

    pub fn len(&self) -> (r: i64)
        requires
            !self.spec_is_empty() ==> self.to_id - self.from_id + 1 <= i64::MAX,
            self.spec_is_empty() ==> self.to_id == self.from_id - 1,
        ensures
            r == self.spec_len(),
    {
        self.to_id - self.from_id + 1
    }

    pub fn is_in_my_interval(&self, id: i64) -> (r: bool)
        ensures
            r == self.spec_contains(id as int),
    {
        id >= self.from_id && id <= self.to_id
    }

    /// The id either falls inside the range or touches it just below
    /// `from_id`, so the range could grow to the left to absorb it.
    pub fn can_be_joined_to_interval_from_the_left(&self, id: i64) -> (r: bool)
        requires
            self.from_id > i64::MIN,
        ensures
            r == (self.from_id - 1 <= id <= self.to_id),
    {
        self.from_id - 1 <= id && id <= self.to_id
    }

    /// The id either falls inside the range or touches it just above
    /// `to_id`, so the range could grow to the right to absorb it.
    pub fn can_be_joined_to_interval_from_the_right(&self, id: i64) -> (r: bool)
        requires
            self.to_id < i64::MAX,
        ensures
            r == (self.from_id <= id <= self.to_id + 1),
    {
        self.from_id <= id && id <= self.to_id + 1
    }

    pub fn is_my_interval_to_remove(&self, id: i64) -> (r: bool)
        requires
            !self.spec_is_empty(),
        ensures
            r == self.spec_contains(id as int),
    {
        id >= self.from_id && id <= self.to_id
    }

    /// Empty the range, keeping `from_id` as its anchor.
    pub fn init(&mut self)
        requires
            old(self).from_id > i64::MIN,
        ensures
            final(self).from_id == old(self).from_id,
            final(self).to_id == old(self).from_id - 1,
            final(self).spec_is_empty(),
    {
        self.to_id = self.from_id - 1;
    }

    pub fn is_before(&self, id: i64) -> (r: bool)
        requires
            self.from_id > i64::MIN,
        ensures
            r == (id < self.from_id - 1),
    {
        id < self.from_id - 1
    }

    /// Take the id out of the range, which must hold it.
    pub fn remove(&mut self, message_id: i64) -> (r: RemoveResult)
        requires
            old(self).well_formed(),
            old(self).spec_contains(message_id as int),
        ensures
            match r {
                RemoveResult::RemoveItem => {
                    &&& old(self).from_id == message_id == old(self).to_id
                    &&& final(self).spec_is_empty()
                },
                RemoveResult::NoUpdate => {
                    &&& final(self).well_formed()
                    &&& forall|id: int|
                        final(self).spec_contains(id) <==> (old(self).spec_contains(id) && id
                            != message_id)
                },
                RemoveResult::InsertNew(new_item) => {
                    &&& final(self).well_formed()
                    &&& new_item.well_formed()
                    &&& final(self).to_id + 1 < new_item.from_id
                    &&& forall|id: int|
                        (final(self).spec_contains(id) || new_item.spec_contains(id)) <==> (old(
                            self,
                        ).spec_contains(id) && id != message_id)
                },
            },
    {
        if self.from_id == message_id && self.to_id == message_id {
            self.from_id = self.from_id + 1;
            return RemoveResult::RemoveItem;
        }
        if self.from_id == message_id {
            self.from_id = self.from_id + 1;
            return RemoveResult::NoUpdate;
        }
        if self.to_id == message_id {
            self.to_id = self.to_id - 1;
            return RemoveResult::NoUpdate;
        }
        let new_item = QueueIndexRange { from_id: message_id + 1, to_id: self.to_id };
        self.to_id = message_id - 1;
        RemoveResult::InsertNew(new_item)
    }

    /// Pop the smallest id, or `None` when the range is empty.
    pub fn dequeue(&mut self) -> (r: Option<i64>)
        requires
            old(self).from_id < i64::MAX,
        ensures
            old(self).spec_is_empty() ==> r is None && *final(self) == *old(self),
            !old(self).spec_is_empty() ==> {
                &&& r == Some(old(self).from_id)
                &&& final(self).from_id == old(self).from_id + 1
                &&& final(self).to_id == old(self).to_id
            },
    {
        if self.from_id > self.to_id {
            return None;
        }
        let result = self.from_id;
        self.from_id = self.from_id + 1;
        Some(result)
    }

    pub fn peek(&self) -> (r: Option<i64>)
        ensures
            self.spec_is_empty() ==> r is None,
            !self.spec_is_empty() ==> r == Some(self.from_id),
    {
        if self.from_id > self.to_id {
            return None;
        }
        Some(self.from_id)
    }

    /// Add an id that the range can absorb: into an empty range, or touching
    /// one of its two ends.  Any other id is a caller bug, kept out by the
    /// precondition.
    pub fn enqueue(&mut self, id: i64)
        requires
            old(self).id_bounds_ok() || old(self).spec_is_empty(),
            i64::MIN < id < i64::MAX,
            old(self).spec_is_empty() || id == old(self).to_id + 1 || id == old(self).from_id - 1,
        ensures
            old(self).spec_is_empty() ==> *final(self) == (QueueIndexRange {
                from_id: id,
                to_id: id,
            }),
            !old(self).spec_is_empty() ==> forall|x: int|
                final(self).spec_contains(x) <==> (old(self).spec_contains(x) || x == id),
    {
        if self.is_empty() {
            self.from_id = id;
            self.to_id = id;
        } else if self.to_id + 1 == id {
            self.to_id = id;
        } else {
            self.from_id = id;
        }
    }

    /// Absorb `next_one` when it starts exactly one past this range's end.
    pub fn try_join_with_the_next_one(&mut self, next_one: QueueIndexRange) -> (r: bool)
        requires
            old(self).to_id < i64::MAX,
        ensures
            r == (old(self).to_id + 1 == next_one.from_id),
            r ==> *final(self) == (QueueIndexRange {
                from_id: old(self).from_id,
                to_id: next_one.to_id,
            }),
            !r ==> *final(self) == *old(self),
    {
        if self.to_id + 1 == next_one.from_id {
            self.to_id = next_one.to_id;
            return true;
        }
        false
    }

    /// Same join as [`Self::try_join_with_the_next_one`], taking the next
    /// range by reference.
    pub fn try_merge_next(&mut self, next_item: &QueueIndexRange) -> (r: bool)
        requires
            old(self).to_id < i64::MAX,
        ensures
            r == (old(self).to_id + 1 == next_item.from_id),
            r ==> *final(self) == (QueueIndexRange {
                from_id: old(self).from_id,
                to_id: next_item.to_id,
            }),
            !r ==> *final(self) == *old(self),
    {
        if self.to_id + 1 == next_item.from_id {
            self.to_id = next_item.to_id;
            return true;
        }
        false
    }

    /// Absorb a single id touching either end; report whether it was taken.
    /// An empty range absorbs any id.
    pub fn try_join(&mut self, id_to_join: i64) -> (r: bool)
        requires
            i64::MIN < id_to_join < i64::MAX,
            old(self).spec_is_empty() || old(self).id_bounds_ok(),
        ensures
            old(self).spec_is_empty() ==> r && *final(self) == (QueueIndexRange {
                from_id: id_to_join,
                to_id: id_to_join,
            }),
            !old(self).spec_is_empty() ==> {
                &&& r == (id_to_join == old(self).from_id - 1 || id_to_join == old(self).to_id + 1)
                &&& r ==> forall|x: int|
                    final(self).spec_contains(x) <==> (old(self).spec_contains(x) || x
                        == id_to_join)
                &&& !r ==> *final(self) == *old(self)
            },
    {
        if self.is_empty() {
            self.from_id = id_to_join;
            self.to_id = id_to_join;
            return true;
        }
        if id_to_join == self.from_id - 1 {
            self.from_id = id_to_join;
            return true;
        }
        if id_to_join == self.to_id + 1 {
            self.to_id = id_to_join;
            return true;
        }
        false
    }

    /// Classify an id against a non-empty range; `None` for an empty one.
    pub fn compare_with(&self, id: i64) -> (r: Option<QueueIndexRangeCompare>)
        ensures
            self.spec_is_empty() ==> r is None,
            !self.spec_is_empty() ==> match r {
                Some(QueueIndexRangeCompare::Below) => id < self.from_id,
                Some(QueueIndexRangeCompare::Inside) => self.spec_contains(id as int),
                Some(QueueIndexRangeCompare::Above) => id > self.to_id,
                None => false,
            },
    {
        if self.is_empty() {
            return None;
        }
        if id < self.from_id {
            return Some(QueueIndexRangeCompare::Below);
        }
        if id > self.to_id {
            return Some(QueueIndexRangeCompare::Above);
        }
        Some(QueueIndexRangeCompare::Inside)
    }
}

} // verus!
