use vstd::prelude::*;

use crate::queue_index_range::QueueIndexRange;
use crate::queue_with_intervals::QueueWithIntervals;

verus! {

/// Walks the ids of a [`QueueWithIntervals`] in ascending order by
/// consuming a copy of it.
pub struct QueueWithIntervalsIterator {
    pub intervals: QueueWithIntervals,
}

impl QueueWithIntervalsIterator {
    pub fn new(intervals: QueueWithIntervals) -> (r: QueueWithIntervalsIterator)
        requires
            intervals.well_formed(),
        ensures
            r.intervals == intervals,
    {
        QueueWithIntervalsIterator { intervals }
    }

    /// The next id, smallest first; `None` once every id was handed out.
    pub fn next(&mut self) -> (r: Option<i64>)
        requires
            old(self).intervals.well_formed(),
        ensures
            final(self).intervals.well_formed(),
            match r {
                None => {
                    &&& *final(self) == *old(self)
                    &&& forall|id: int| !old(self).intervals.spec_contains(id)
                },
                Some(m) => {
                    &&& old(self).intervals.spec_contains(m as int)
                    &&& forall|id: int| old(self).intervals.spec_contains(id) ==> m <= id
                    &&& forall|id: int|
                        final(self).intervals.spec_contains(id) <==> (old(
                            self,
                        ).intervals.spec_contains(id) && id != m)
                },
            },
    {
        self.intervals.dequeue()
    }
}

/// Walks the ids of one closed range in ascending order.
pub struct QueueIndexRangeIterator {
    pub from_id: i64,
    pub to_id: i64,
}

impl QueueIndexRangeIterator {
    pub fn new(range: &QueueIndexRange) -> (r: QueueIndexRangeIterator)
        ensures
            r.from_id == range.from_id,
            r.to_id == range.to_id,
    {
        QueueIndexRangeIterator { from_id: range.from_id, to_id: range.to_id }
    }

    pub fn next(&mut self) -> (r: Option<i64>)
        requires
            old(self).to_id < i64::MAX,
        ensures
            final(self).to_id == old(self).to_id,
            old(self).from_id > old(self).to_id ==> r is None && *final(self) == *old(self),
            old(self).from_id <= old(self).to_id ==> r == Some(old(self).from_id)
                && final(self).from_id == old(self).from_id + 1,
    {
        if self.from_id <= self.to_id {
            let result = self.from_id;
            self.from_id = self.from_id + 1;
            return Some(result);
        }
        None
    }
}

} // verus!
