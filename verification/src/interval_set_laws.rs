use vstd::prelude::*;

use crate::queue_index_range::QueueIndexRange;
use crate::queue_with_intervals::QueueWithIntervals;
use crate::queue_with_intervals::lemma_first_is_min;
use crate::queue_with_intervals::ranges_contain;
use crate::queue_with_intervals::ranges_well_formed;

verus! {

/// A well-formed interval sequence is a canonical form: two well-formed
/// sequences that hold exactly the same ids are equal, range for range.
/// This is what makes the set's representation independent of the order in
/// which ids were enqueued or removed.
pub proof fn lemma_interval_set_canonical(s1: Seq<QueueIndexRange>, s2: Seq<QueueIndexRange>)
    requires
        ranges_well_formed(s1),
        ranges_well_formed(s2),
        forall|id: int| ranges_contain(s1, id) <==> ranges_contain(s2, id),
    ensures
        s1 == s2,
    decreases s1.len(),
{
    if s1.len() == 0 && s2.len() == 0 {
        assert(s1 =~= s2);
    } else if s1.len() == 0 {
        assert(s2[0].spec_contains(s2[0].from_id as int));
        assert(ranges_contain(s2, s2[0].from_id as int));
        let i = choose|i: int|
            0 <= i < s1.len() && (#[trigger] s1[i]).spec_contains(s2[0].from_id as int);
        assert(false);
    } else if s2.len() == 0 {
        assert(s1[0].spec_contains(s1[0].from_id as int));
        assert(ranges_contain(s1, s1[0].from_id as int));
        let i = choose|i: int|
            0 <= i < s2.len() && (#[trigger] s2[i]).spec_contains(s1[0].from_id as int);
        assert(false);
    } else {
        let a = s1[0];
        let b = s2[0];
        // Both first ranges start at the minimum of the common id set.
        assert(a.spec_contains(a.from_id as int));
        assert(ranges_contain(s1, a.from_id as int));
        lemma_first_is_min(s2, a.from_id as int);
        assert(b.spec_contains(b.from_id as int));
        assert(ranges_contain(s2, b.from_id as int));
        lemma_first_is_min(s1, b.from_id as int);
        assert(a.from_id == b.from_id);
        // Both first ranges end just before the first gap above the minimum.
        if a.to_id < b.to_id {
            let x = a.to_id + 1;
            assert(b.spec_contains(x));
            assert(ranges_contain(s2, x));
            let i = choose|i: int| 0 <= i < s1.len() && (#[trigger] s1[i]).spec_contains(x);
            assert(i > 0);
            assert(s1[0].to_id + 1 < s1[i].from_id);
            assert(false);
        }
        if b.to_id < a.to_id {
            let x = b.to_id + 1;
            assert(a.spec_contains(x));
            assert(ranges_contain(s1, x));
            let i = choose|i: int| 0 <= i < s2.len() && (#[trigger] s2[i]).spec_contains(x);
            assert(i > 0);
            assert(s2[0].to_id + 1 < s2[i].from_id);
            assert(false);
        }
        assert(a == b);
        // The tails hold the common ids above the first range, so they are
        // equal by induction.
        let t1 = s1.subrange(1, s1.len() as int);
        let t2 = s2.subrange(1, s2.len() as int);
        lemma_tail_well_formed(s1);
        lemma_tail_well_formed(s2);
        assert forall|id: int|
            #![trigger ranges_contain(t1, id)]
            ranges_contain(t1, id) <==> (ranges_contain(s1, id) && id > a.to_id) by {
            lemma_tail_contains(s1, id);
        }
        assert forall|id: int|
            #![trigger ranges_contain(t2, id)]
            ranges_contain(t2, id) <==> (ranges_contain(s2, id) && id > b.to_id) by {
            lemma_tail_contains(s2, id);
        }
        lemma_interval_set_canonical(t1, t2);
        assert forall|i: int| 0 <= i < s1.len() implies s1[i] == s2[i] by {
            if i > 0 {
                assert(s1[i] == t1[i - 1]);
                assert(s2[i] == t2[i - 1]);
            }
        }
        assert(s1 =~= s2);
    }
}

/// The tail of a well-formed sequence is well-formed.
proof fn lemma_tail_well_formed(s: Seq<QueueIndexRange>)
    requires
        ranges_well_formed(s),
        s.len() > 0,
    ensures
        ranges_well_formed(s.subrange(1, s.len() as int)),
{
    let t = s.subrange(1, s.len() as int);
    assert forall|i: int| 0 <= i < t.len() implies (#[trigger] t[i]).well_formed() by {
        assert(t[i] == s[i + 1]);
    }
    assert forall|i: int, j: int|
        #![trigger t[i], t[j]]
        0 <= i < j < t.len() implies t[i].to_id + 1 < t[j].from_id by {
        assert(t[i] == s[i + 1]);
        assert(t[j] == s[j + 1]);
        assert(s[i + 1].to_id + 1 < s[j + 1].from_id);
    }
}

/// The tail of a well-formed sequence holds exactly the ids above the first
/// range.
proof fn lemma_tail_contains(s: Seq<QueueIndexRange>, id: int)
    requires
        ranges_well_formed(s),
        s.len() > 0,
    ensures
        ranges_contain(s.subrange(1, s.len() as int), id) <==> (ranges_contain(s, id) && id
            > s[0].to_id),
{
    let t = s.subrange(1, s.len() as int);
    if ranges_contain(t, id) {
        let i = choose|i: int| 0 <= i < t.len() && (#[trigger] t[i]).spec_contains(id);
        assert(s[i + 1].spec_contains(id));
        assert(s[0].to_id + 1 < s[i + 1].from_id);
    }
    if ranges_contain(s, id) && id > s[0].to_id {
        let i = choose|i: int| 0 <= i < s.len() && (#[trigger] s[i]).spec_contains(id);
        assert(i > 0);
        assert(t[i - 1].spec_contains(id));
    }
}

/// Two interval sets that hold the same ids are equal, range for range: the
/// history of enqueues, removes and merges that built them cannot be told
/// apart.  In particular, enqueueing a finite id set in any order builds
/// the same structure, which `dequeue` then drains in ascending order.
pub proof fn lemma_same_ids_same_queue(q1: QueueWithIntervals, q2: QueueWithIntervals)
    requires
        q1.well_formed(),
        q2.well_formed(),
        forall|id: int| q1.spec_contains(id) <==> q2.spec_contains(id),
    ensures
        q1.intervals@ == q2.intervals@,
{
    assert forall|id: int|
        ranges_contain(q1.intervals@, id) <==> ranges_contain(q2.intervals@, id) by {
        assert(q1.spec_contains(id) <==> q2.spec_contains(id));
    }
    lemma_interval_set_canonical(q1.intervals@, q2.intervals@);
}

/// Inverse law: enqueueing an id that was absent and then removing that
/// same id restores the set to exactly its prior state.  The states are
/// related through the membership contracts of `enqueue` and `remove`.
pub proof fn lemma_enqueue_then_remove_restores(
    q0: QueueWithIntervals,
    q1: QueueWithIntervals,
    q2: QueueWithIntervals,
    id: int,
)
    requires
        q0.well_formed(),
        q1.well_formed(),
        q2.well_formed(),
        !q0.spec_contains(id),
        forall|x: int| q1.spec_contains(x) <==> (q0.spec_contains(x) || x == id),
        forall|x: int| q2.spec_contains(x) <==> (q1.spec_contains(x) && x != id),
    ensures
        q2.intervals@ == q0.intervals@,
{
    assert forall|x: int|
        ranges_contain(q2.intervals@, x) <==> ranges_contain(q0.intervals@, x) by {
        assert(q2.spec_contains(x) <==> (q1.spec_contains(x) && x != id));
        assert(q1.spec_contains(x) <==> (q0.spec_contains(x) || x == id));
        assert(q2.spec_contains(x) <==> q0.spec_contains(x));
    }
    lemma_interval_set_canonical(q2.intervals@, q0.intervals@);
}

/// Round-trip law, ordering half: when a dequeue hands out `m1` and a later
/// dequeue of the shrunken set hands out `m2`, then `m1 < m2` — draining a
/// set visits its ids in strictly ascending order.
pub proof fn lemma_dequeue_ascending(
    q0: QueueWithIntervals,
    q1: QueueWithIntervals,
    m1: int,
    m2: int,
)
    requires
        q0.spec_contains(m1),
        forall|id: int| q0.spec_contains(id) ==> m1 <= id,
        forall|id: int| q1.spec_contains(id) <==> (q0.spec_contains(id) && id != m1),
        q1.spec_contains(m2),
    ensures
        m1 < m2,
{
}

} // verus!
