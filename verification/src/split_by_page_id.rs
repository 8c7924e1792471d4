use vstd::prelude::*;

use vstd::arithmetic::div_mod::lemma_div_is_ordered;
use vstd::arithmetic::div_mod::lemma_div_multiples_vanish;
use vstd::arithmetic::div_mod::lemma_fundamental_div_mod;
use vstd::arithmetic::div_mod::lemma_fundamental_div_mod_converse;
use vstd::arithmetic::mul::lemma_mul_inequality;

use crate::page_id::MESSAGES_IN_PAGE;
use crate::page_id::PageId;
use crate::queue_index_range::QueueIndexRange;
use crate::queue_with_intervals::QueueWithIntervals;
use crate::queue_with_intervals::ranges_contain;
use crate::queue_with_intervals::ranges_well_formed;

verus! {

/// The page a message id belongs to.
pub open spec fn page_of(id: int) -> int {
    id / (MESSAGES_IN_PAGE as int)
}

/// One page's worth of ids cut out of an interval set.
pub struct SplittedByPageId {
    pub page_id: PageId,
    pub ids: QueueWithIntervals,
}

/// Lazily partitions an interval set at page boundaries: each call of
/// [`Self::next`] yields the ids of the lowest page still present, with
/// ranges that straddle a page boundary cut at it.
pub struct SplittedByPageIdIterator {
    pub intervals: Vec<QueueIndexRange>,
    pub index: usize,
}

impl SplittedByPageIdIterator {
    /// Ranges not yet handed out.
    pub open spec fn remaining(self) -> Seq<QueueIndexRange> {
        self.intervals@.subrange(self.index as int, self.intervals@.len() as int)
    }

    pub open spec fn well_formed(self) -> bool {
        &&& self.index <= self.intervals@.len()
        &&& ranges_well_formed(self.remaining())
    }

    pub fn new(src: &QueueWithIntervals) -> (r: SplittedByPageIdIterator)
        requires
            src.well_formed(),
        ensures
            r.well_formed(),
            r.remaining() == src.intervals@,
    {
        let r = SplittedByPageIdIterator { intervals: src.get_snapshot(), index: 0 };
        proof {
            assert(r.remaining() =~= src.intervals@);
        }
        r
    }

    /// The ids of the lowest page still present, or `None` when the set is
    /// exhausted.  Afterwards only ids of strictly higher pages remain.
    #[verifier::rlimit(100)]
    pub fn next(&mut self) -> (r: Option<SplittedByPageId>)
        requires
            old(self).well_formed(),
        ensures
            final(self).well_formed(),
            old(self).remaining().len() == 0 ==> r is None && *final(self) == *old(self),
            old(self).remaining().len() > 0 ==> match r {
                Some(item) => {
                    let page = page_of(old(self).remaining()[0].from_id as int);
                    &&& item.page_id.spec_value() == page
                    &&& item.ids.well_formed()
                    &&& item.ids.spec_contains(old(self).remaining()[0].from_id as int)
                    &&& forall|id: int|
                        item.ids.spec_contains(id) <==> (ranges_contain(
                            old(self).remaining(),
                            id,
                        ) && page_of(id) == page)
                    &&& forall|id: int|
                        ranges_contain(final(self).remaining(), id) <==> (ranges_contain(
                            old(self).remaining(),
                            id,
                        ) && page_of(id) > page)
                },
                None => false,
            },
    {
        let n = self.intervals.len();
        if self.index >= n {
            return None;
        }
        let ghost s0 = self.intervals@;
        let ghost i0 = self.index as int;
        let ghost rem0 = self.remaining();
        let ghost m = rem0.len() as int;
        let first = self.intervals[self.index];
        let page_value = first.from_id / MESSAGES_IN_PAGE;
        proof {
            assert(rem0[0] == s0[i0]);
            assert(rem0[0].well_formed());
            lemma_fundamental_div_mod(first.from_id as int, MESSAGES_IN_PAGE as int);
        }
        let mut ids: Vec<QueueIndexRange> = Vec::new();
        let mut cut = false;
        while self.index < n && !cut && self.intervals[self.index].from_id / MESSAGES_IN_PAGE
            == page_value
            invariant
                n == self.intervals@.len(),
                0 <= i0 <= self.index as int <= n,
                0 <= page_value,
                ranges_well_formed(rem0),
                m == rem0.len() == n - i0,
                m > 0,
                page_value == page_of(rem0[0].from_id as int),
                ranges_well_formed(ids@),
                !cut ==> self.intervals@ == s0,
                rem0 == s0.subrange(i0, n as int),
                !cut ==> forall|x: int|
                    #![trigger ranges_contain(ids@, x)]
                    ranges_contain(ids@, x) <==> ranges_contain(
                        rem0.subrange(0, self.index as int - i0),
                        x,
                    ),
                !cut ==> forall|x: int|
                    ranges_contain(rem0.subrange(0, self.index as int - i0), x)
                        ==> #[trigger] page_of(x) == page_value,
                !cut && ids@.len() > 0 ==> i0 < self.index as int && ids@[ids@.len() - 1].to_id
                    <= rem0[self.index as int - i0 - 1].to_id,
                !cut ==> (ids@.len() > 0 <==> i0 < self.index as int),
                cut ==> forall|x: int|
                    #![trigger ranges_contain(ids@, x)]
                    ranges_contain(ids@, x) <==> (ranges_contain(rem0, x) && page_of(x)
                        == page_value),
                cut ==> self.well_formed(),
                cut ==> forall|x: int|
                    #![trigger ranges_contain(self.remaining(), x)]
                    ranges_contain(self.remaining(), x) <==> (ranges_contain(rem0, x) && page_of(x)
                        > page_value),
                cut ==> ids@.len() > 0,
            decreases n - self.index, (if cut {
                0int
            } else {
                1int
            }),
        {
            let el = self.intervals[self.index];
            let ghost ids0 = ids@;
            let ghost k = self.index as int - i0;
            proof {
                assert(el == s0[self.index as int]);
                assert(el == rem0[k]);
                assert(el.well_formed());
                lemma_fundamental_div_mod(el.from_id as int, MESSAGES_IN_PAGE as int);
                lemma_fundamental_div_mod(el.to_id as int, MESSAGES_IN_PAGE as int);
                lemma_div_is_ordered(el.from_id as int, el.to_id as int, MESSAGES_IN_PAGE as int);
            }
            let to_page = el.to_id / MESSAGES_IN_PAGE;
            if to_page > page_value {
                // The range straddles the page boundary: its lower part
                // completes the current page, its upper part stays stored.
                proof {
                    assert((page_value + 1) * (MESSAGES_IN_PAGE as int) <= to_page as int * (
                    MESSAGES_IN_PAGE as int)) by {
                        lemma_mul_inequality(
                            page_value as int + 1,
                            to_page as int,
                            MESSAGES_IN_PAGE as int,
                        );
                    }
                    assert(to_page as int * (MESSAGES_IN_PAGE as int) <= el.to_id as int);
                }
                let boundary = (page_value + 1) * MESSAGES_IN_PAGE - 1;
                proof {
                    lemma_fundamental_div_mod_converse(
                        boundary as int,
                        MESSAGES_IN_PAGE as int,
                        page_value as int,
                        MESSAGES_IN_PAGE as int - 1,
                    );
                    assert(page_of(boundary as int) == page_value);
                    lemma_div_multiples_vanish(page_value as int + 1, MESSAGES_IN_PAGE as int);
                }
                let cut_range = QueueIndexRange { from_id: el.from_id, to_id: boundary };
                ids.push(cut_range);
                let rest_range = QueueIndexRange { from_id: boundary + 1, to_id: el.to_id };
                self.intervals[self.index] = rest_range;
                cut = true;
                proof {
                    let idx = self.index as int;
                    assert(rem0 =~= rem0.subrange(0, m));
                    lemma_pushed_clip_well_formed(ids0, cut_range, rem0, k);
                    // `ids` now holds exactly the current page's ids
                    assert forall|x: int|
                        #![trigger ranges_contain(ids@, x)]
                        ranges_contain(ids@, x) <==> (ranges_contain(rem0, x) && page_of(x)
                            == page_value) by {
                        lemma_ranges_contain_push(ids0, cut_range, x);
                        lemma_subrange_split(rem0, 0, k, m, x);
                        lemma_subrange_grow_front(rem0, k, m, x);
                        if cut_range.spec_contains(x) {
                            lemma_div_is_ordered(el.from_id as int, x, MESSAGES_IN_PAGE as int);
                            lemma_div_is_ordered(x, boundary as int, MESSAGES_IN_PAGE as int);
                            assert(rem0[k].spec_contains(x));
                        }
                        if ranges_contain(rem0, x) && page_of(x) == page_value {
                            if rem0[k].spec_contains(x) && x > boundary {
                                lemma_div_is_ordered(
                                    (page_value as int + 1) * (MESSAGES_IN_PAGE as int),
                                    x,
                                    MESSAGES_IN_PAGE as int,
                                );
                            }
                            if ranges_contain(rem0.subrange(k + 1, m), x) {
                                lemma_later_ranges_above(rem0, k, x);
                                lemma_div_is_ordered(
                                    (page_value as int + 1) * (MESSAGES_IN_PAGE as int),
                                    x,
                                    MESSAGES_IN_PAGE as int,
                                );
                            }
                        }
                    }
                    // the stored suffix stays well-formed
                    let rem1 = self.remaining();
                    assert(rem1 =~= rem0.subrange(k, m).update(0, rest_range));
                    assert forall|i: int| 0 <= i < rem1.len() implies (
                    #[trigger] rem1[i]).well_formed() by {
                        if i > 0 {
                            assert(rem1[i] == rem0[k + i]);
                        }
                    }
                    assert forall|i: int, j: int|
                        #![trigger rem1[i], rem1[j]]
                        0 <= i < j < rem1.len() implies rem1[i].to_id + 1 < rem1[j].from_id by {
                        assert(rem0[k + i].to_id + 1 < rem0[k + j].from_id);
                        if i > 0 {
                            assert(rem1[i] == rem0[k + i]);
                        }
                        assert(rem1[j] == rem0[k + j]);
                    }
                    // and it holds exactly the later-page ids
                    assert forall|x: int|
                        #![trigger ranges_contain(rem1, x)]
                        ranges_contain(rem1, x) <==> (ranges_contain(rem0, x) && page_of(x)
                            > page_value) by {
                        lemma_subrange_split(rem0, 0, k, m, x);
                        lemma_subrange_grow_front(rem0, k, m, x);
                        if ranges_contain(rem1, x) {
                            let i = choose|i: int|
                                0 <= i < rem1.len() && (#[trigger] rem1[i]).spec_contains(x);
                            if i == 0 {
                                assert(rem0[k].spec_contains(x));
                            } else {
                                assert(rem1[i] == rem0[k + i]);
                                assert(rem0[k].to_id + 1 < rem0[k + i].from_id);
                                assert(ranges_contain(rem0.subrange(k + 1, m), x)) by {
                                    assert(rem0.subrange(k + 1, m)[i - 1].spec_contains(x));
                                }
                            }
                            assert(x >= boundary + 1);
                            lemma_div_is_ordered(
                                (page_value as int + 1) * (MESSAGES_IN_PAGE as int),
                                x,
                                MESSAGES_IN_PAGE as int,
                            );
                        }
                        if ranges_contain(rem0, x) && page_of(x) > page_value {
                            if ranges_contain(rem0.subrange(0, k), x) {
                                assert(page_of(x) == page_value);
                                assert(false);
                            }
                            if rem0[k].spec_contains(x) {
                                if x <= boundary {
                                    lemma_div_is_ordered(x, boundary as int, MESSAGES_IN_PAGE as int);
                                    assert(false);
                                }
                                assert(rem1[0].spec_contains(x));
                            } else if ranges_contain(rem0.subrange(k + 1, m), x) {
                                let i = choose|i: int|
                                    0 <= i < m - k - 1 && (#[trigger] rem0.subrange(
                                        k + 1,
                                        m,
                                    )[i]).spec_contains(x);
                                assert(rem1[i + 1] == rem0[k + i + 1]);
                                assert(rem1[i + 1].spec_contains(x));
                            }
                        }
                    }
                }
            } else {
                // The whole range lies inside the current page.
                ids.push(el);
                proof {
                    lemma_pushed_clip_well_formed(ids0, el, rem0, k);
                    assert forall|x: int|
                        #![trigger ranges_contain(ids@, x)]
                        ranges_contain(ids@, x) <==> ranges_contain(
                            rem0.subrange(0, k + 1),
                            x,
                        ) by {
                        lemma_ranges_contain_push(ids0, el, x);
                        lemma_subrange_grow(rem0, 0, k, x);
                    }
                    assert forall|x: int|
                        ranges_contain(rem0.subrange(0, k + 1), x) implies #[trigger] page_of(x)
                            == page_value by {
                        lemma_subrange_grow(rem0, 0, k, x);
                        if rem0[k].spec_contains(x) {
                            lemma_div_is_ordered(el.from_id as int, x, MESSAGES_IN_PAGE as int);
                            lemma_div_is_ordered(x, el.to_id as int, MESSAGES_IN_PAGE as int);
                        }
                    }
                }
                self.index += 1;
            }
        }
        proof {
            if !cut {
                let idx = self.index as int;
                let k = idx - i0;
                let remf = self.remaining();
                assert(rem0 =~= rem0.subrange(0, m));
                assert(remf =~= rem0.subrange(k, m));
                if idx < n {
                    // the next stored range starts on a later page
                    assert(rem0[k].well_formed());
                    lemma_fundamental_div_mod(rem0[k].from_id as int, MESSAGES_IN_PAGE as int);
                    if k == 0 {
                        assert(page_of(rem0[0].from_id as int) == page_value);
                        assert(false);
                    }
                    assert(rem0[0].to_id + 1 < rem0[k].from_id);
                    lemma_div_is_ordered(
                        rem0[0].from_id as int,
                        rem0[k].from_id as int,
                        MESSAGES_IN_PAGE as int,
                    );
                    lemma_rest_is_later_pages(rem0, k, page_value as int);
                } else {
                    assert(remf.len() == 0);
                }
                assert forall|x: int|
                    #![trigger ranges_contain(remf, x)]
                    ranges_contain(remf, x) <==> (ranges_contain(rem0, x) && page_of(x)
                        > page_value) by {
                    lemma_subrange_split(rem0, 0, k, m, x);
                    if ranges_contain(rem0.subrange(0, k), x) {
                        assert(page_of(x) == page_value);
                    }
                    if ranges_contain(remf, x) {
                        assert(ranges_contain(rem0.subrange(k, m), x));
                        if k < m {
                            lemma_rest_is_later_pages(rem0, k, page_value as int);
                        }
                    }
                    if ranges_contain(rem0.subrange(k, m), x) {
                        assert(ranges_contain(remf, x));
                    }
                }
                assert forall|x: int|
                    #![trigger ranges_contain(ids@, x)]
                    ranges_contain(ids@, x) <==> (ranges_contain(rem0, x) && page_of(x)
                        == page_value) by {
                    lemma_subrange_split(rem0, 0, k, m, x);
                    if ranges_contain(rem0.subrange(k, m), x) && k < m {
                        lemma_rest_is_later_pages(rem0, k, page_value as int);
                    }
                }
            }
        }
        let page_id = PageId::new(page_value);
        proof {
            assert(rem0[0].spec_contains(rem0[0].from_id as int));
            assert(ranges_contain(rem0, rem0[0].from_id as int));
        }
        Some(SplittedByPageId { page_id, ids: QueueWithIntervals { intervals: ids } })
    }
}

/// In a well-formed sequence whose range at `k` starts on a later page,
/// every id from `k` on belongs to a later page.
proof fn lemma_rest_is_later_pages(rem: Seq<QueueIndexRange>, k: int, page_value: int)
    requires
        ranges_well_formed(rem),
        0 <= k < rem.len(),
        page_of(rem[k].from_id as int) > page_value,
    ensures
        forall|x: int|
            ranges_contain(rem.subrange(k, rem.len() as int), x) ==> #[trigger] page_of(x)
                > page_value,
{
    assert forall|x: int|
        ranges_contain(rem.subrange(k, rem.len() as int), x) implies #[trigger] page_of(x)
            > page_value by {
        let sub = rem.subrange(k, rem.len() as int);
        let i = choose|i: int| 0 <= i < sub.len() && (#[trigger] sub[i]).spec_contains(x);
        assert(sub[i] == rem[k + i]);
        if i > 0 {
            assert(rem[k].to_id + 1 < rem[k + i].from_id);
        }
        assert(rem[k].from_id <= x);
        lemma_div_is_ordered(rem[k].from_id as int, x, MESSAGES_IN_PAGE as int);
    }
}

/// Every id of a range at an index above `k` lies above the end of the
/// range at `k`, in particular above the page boundary the cut was made at.
proof fn lemma_later_ranges_above(rem: Seq<QueueIndexRange>, k: int, x: int)
    requires
        ranges_well_formed(rem),
        0 <= k < rem.len(),
        ranges_contain(rem.subrange(k + 1, rem.len() as int), x),
    ensures
        x > rem[k].to_id,
{
    let sub = rem.subrange(k + 1, rem.len() as int);
    let i = choose|i: int| 0 <= i < sub.len() && (#[trigger] sub[i]).spec_contains(x);
    assert(sub[i] == rem[k + 1 + i]);
    assert(rem[k].to_id + 1 < rem[k + 1 + i].from_id);
}

/// Membership in a pushed sequence is membership in the old sequence or in
/// the new range.
proof fn lemma_ranges_contain_push(s: Seq<QueueIndexRange>, el: QueueIndexRange, x: int)
    ensures
        ranges_contain(s.push(el), x) <==> (ranges_contain(s, x) || el.spec_contains(x)),
{
    let s1 = s.push(el);
    if ranges_contain(s1, x) {
        let i = choose|i: int| 0 <= i < s1.len() && (#[trigger] s1[i]).spec_contains(x);
        if i < s.len() {
            assert(s[i].spec_contains(x));
        }
    }
    if ranges_contain(s, x) {
        let i = choose|i: int| 0 <= i < s.len() && (#[trigger] s[i]).spec_contains(x);
        assert(s1[i].spec_contains(x));
    }
    if el.spec_contains(x) {
        assert(s1[s.len() as int].spec_contains(x));
    }
}

/// Pushing a piece of `rem[k]` onto an output whose last range ends at or
/// before `rem[k - 1].to_id` keeps the output well-formed.
proof fn lemma_pushed_clip_well_formed(
    ids0: Seq<QueueIndexRange>,
    el: QueueIndexRange,
    rem: Seq<QueueIndexRange>,
    k: int,
)
    requires
        ranges_well_formed(ids0),
        ranges_well_formed(rem),
        0 <= k < rem.len(),
        el.well_formed(),
        el.from_id == rem[k].from_id,
        el.to_id <= rem[k].to_id,
        ids0.len() > 0 ==> k > 0 && ids0[ids0.len() - 1].to_id <= rem[k - 1].to_id,
    ensures
        ranges_well_formed(ids0.push(el)),
        ids0.push(el)[ids0.push(el).len() - 1].to_id == el.to_id,
{
    let s1 = ids0.push(el);
    assert forall|i: int| 0 <= i < s1.len() implies (#[trigger] s1[i]).well_formed() by {
        if i < ids0.len() {
            assert(ids0[i].well_formed());
        }
    }
    assert forall|i: int, j: int|
        #![trigger s1[i], s1[j]]
        0 <= i < j < s1.len() implies s1[i].to_id + 1 < s1[j].from_id by {
        if j < ids0.len() {
            assert(ids0[i].to_id + 1 < ids0[j].from_id);
        } else {
            if i < ids0.len() - 1 {
                assert(ids0[i].to_id + 1 < ids0[ids0.len() - 1].from_id);
                assert(ids0[ids0.len() - 1].from_id <= ids0[ids0.len() - 1].to_id);
            }
            if ids0.len() > 0 {
                assert(rem[k - 1].to_id + 1 < rem[k].from_id);
            }
        }
    }
}

/// Extending a subrange by one element extends its membership by that
/// element's ids.
proof fn lemma_subrange_grow(s: Seq<QueueIndexRange>, lo: int, mid: int, x: int)
    requires
        0 <= lo <= mid < s.len(),
    ensures
        ranges_contain(s.subrange(lo, mid + 1), x) <==> (ranges_contain(s.subrange(lo, mid), x)
            || s[mid].spec_contains(x)),
{
    let big = s.subrange(lo, mid + 1);
    let small = s.subrange(lo, mid);
    if ranges_contain(big, x) {
        let i = choose|i: int| 0 <= i < big.len() && (#[trigger] big[i]).spec_contains(x);
        if i < small.len() {
            assert(small[i].spec_contains(x));
        } else {
            assert(big[i] == s[mid]);
        }
    }
    if ranges_contain(small, x) {
        let i = choose|i: int| 0 <= i < small.len() && (#[trigger] small[i]).spec_contains(x);
        assert(big[i].spec_contains(x));
    }
    if s[mid].spec_contains(x) {
        assert(big[mid - lo].spec_contains(x));
    }
}

/// Membership in a suffix split at its front element.
proof fn lemma_subrange_grow_front(s: Seq<QueueIndexRange>, lo: int, hi: int, x: int)
    requires
        0 <= lo < hi <= s.len(),
    ensures
        ranges_contain(s.subrange(lo, hi), x) <==> (s[lo].spec_contains(x) || ranges_contain(
            s.subrange(lo + 1, hi),
            x,
        )),
{
    let big = s.subrange(lo, hi);
    let small = s.subrange(lo + 1, hi);
    if ranges_contain(big, x) {
        let i = choose|i: int| 0 <= i < big.len() && (#[trigger] big[i]).spec_contains(x);
        if i > 0 {
            assert(small[i - 1].spec_contains(x));
        } else {
            assert(big[0] == s[lo]);
        }
    }
    if ranges_contain(small, x) {
        let i = choose|i: int| 0 <= i < small.len() && (#[trigger] small[i]).spec_contains(x);
        assert(big[i + 1].spec_contains(x));
    }
    if s[lo].spec_contains(x) {
        assert(big[0].spec_contains(x));
    }
}

/// Membership in a subrange splits at any midpoint.
proof fn lemma_subrange_split(s: Seq<QueueIndexRange>, lo: int, mid: int, hi: int, x: int)
    requires
        0 <= lo <= mid <= hi <= s.len(),
    ensures
        ranges_contain(s.subrange(lo, hi), x) <==> (ranges_contain(s.subrange(lo, mid), x)
            || ranges_contain(s.subrange(mid, hi), x)),
{
    let whole = s.subrange(lo, hi);
    let a = s.subrange(lo, mid);
    let b = s.subrange(mid, hi);
    if ranges_contain(whole, x) {
        let i = choose|i: int| 0 <= i < whole.len() && (#[trigger] whole[i]).spec_contains(x);
        if i < mid - lo {
            assert(a[i].spec_contains(x));
        } else {
            assert(b[i - (mid - lo)].spec_contains(x));
        }
    }
    if ranges_contain(a, x) {
        let i = choose|i: int| 0 <= i < a.len() && (#[trigger] a[i]).spec_contains(x);
        assert(whole[i].spec_contains(x));
    }
    if ranges_contain(b, x) {
        let i = choose|i: int| 0 <= i < b.len() && (#[trigger] b[i]).spec_contains(x);
        assert(whole[i + (mid - lo)].spec_contains(x));
    }
}

} // verus!
