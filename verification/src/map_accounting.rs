use vstd::prelude::*;

verus! {

/// Sum of `f` over the values stored under the keys `lo .. hi` of a map.
/// This is how a page states that its running byte counter equals the
/// payload bytes it actually holds.
pub open spec fn map_range_sum<V>(m: Map<i64, V>, f: spec_fn(V) -> int, lo: int, hi: int) -> int
    decreases hi - lo,
{
    if lo >= hi {
        0
    } else {
        (if m.contains_key(lo as i64) {
            f(m[lo as i64])
        } else {
            0
        }) + map_range_sum(m, f, lo + 1, hi)
    }
}

/// A sum over values that `f` keeps non-negative is non-negative.
pub proof fn lemma_map_range_sum_nonneg<V>(m: Map<i64, V>, f: spec_fn(V) -> int, lo: int, hi: int)
    requires
        forall|v: V| #[trigger] f(v) >= 0,
    ensures
        map_range_sum(m, f, lo, hi) >= 0,
    decreases hi - lo,
{
    if lo < hi {
        lemma_map_range_sum_nonneg(m, f, lo + 1, hi);
    }
}

/// Inserting under a key inside the range moves the sum by the new
/// contribution minus the old one.
pub proof fn lemma_map_range_sum_insert<V>(
    m: Map<i64, V>,
    f: spec_fn(V) -> int,
    lo: int,
    hi: int,
    k: i64,
    v: V,
)
    requires
        i64::MIN <= lo,
        hi <= i64::MAX as int + 1,
        lo <= k < hi,
    ensures
        map_range_sum(m.insert(k, v), f, lo, hi) == map_range_sum(m, f, lo, hi) + f(v) - (
        if m.contains_key(k) {
            f(m[k])
        } else {
            0
        }),
    decreases hi - lo,
{
    if lo < hi {
        if lo == k {
            lemma_map_range_sum_agree(m.insert(k, v), m, f, lo + 1, hi);
        } else {
            lemma_map_range_sum_insert(m, f, lo + 1, hi, k, v);
        }
    }
}

/// Removing a key inside the range takes exactly its contribution out of
/// the sum.
pub proof fn lemma_map_range_sum_remove<V>(
    m: Map<i64, V>,
    f: spec_fn(V) -> int,
    lo: int,
    hi: int,
    k: i64,
)
    requires
        i64::MIN <= lo,
        hi <= i64::MAX as int + 1,
        lo <= k < hi,
    ensures
        map_range_sum(m.remove(k), f, lo, hi) == map_range_sum(m, f, lo, hi) - (
        if m.contains_key(k) {
            f(m[k])
        } else {
            0
        }),
    decreases hi - lo,
{
    if lo < hi {
        if lo == k {
            lemma_map_range_sum_agree(m.remove(k), m, f, lo + 1, hi);
        } else {
            lemma_map_range_sum_remove(m, f, lo + 1, hi, k);
        }
    }
}

/// Two maps that agree under every key of the range have the same sum
/// over it.
pub proof fn lemma_map_range_sum_agree<V>(
    m1: Map<i64, V>,
    m2: Map<i64, V>,
    f: spec_fn(V) -> int,
    lo: int,
    hi: int,
)
    requires
        i64::MIN <= lo,
        hi <= i64::MAX as int + 1,
        forall|k: i64|
            lo <= k < hi ==> (#[trigger] m1.contains_key(k) <==> m2.contains_key(k))
                && (m1.contains_key(k) ==> m1[k] == m2[k]),
    ensures
        map_range_sum(m1, f, lo, hi) == map_range_sum(m2, f, lo, hi),
    decreases hi - lo,
{
    if lo < hi {
        lemma_map_range_sum_agree(m1, m2, f, lo + 1, hi);
        assert(m1.contains_key(lo as i64) <==> m2.contains_key(lo as i64));
    }
}

/// The sum over a range splits at any midpoint.
pub proof fn lemma_map_range_sum_split<V>(
    m: Map<i64, V>,
    f: spec_fn(V) -> int,
    lo: int,
    mid: int,
    hi: int,
)
    requires
        lo <= mid <= hi,
    ensures
        map_range_sum(m, f, lo, hi) == map_range_sum(m, f, lo, mid) + map_range_sum(m, f, mid, hi),
    decreases mid - lo,
{
    if lo < mid {
        lemma_map_range_sum_split(m, f, lo + 1, mid, hi);
    }
}


/// A range without any stored key contributes nothing.
pub proof fn lemma_map_range_sum_empty<V>(m: Map<i64, V>, f: spec_fn(V) -> int, lo: int, hi: int)
    requires
        forall|k: i64| lo <= k < hi ==> !(#[trigger] m.contains_key(k)),
        i64::MIN <= lo,
        hi <= i64::MAX as int + 1,
    ensures
        map_range_sum(m, f, lo, hi) == 0,
    decreases hi - lo,
{
    if lo < hi {
        lemma_map_range_sum_empty(m, f, lo + 1, hi);
        assert(!m.contains_key(lo as i64));
    }
}

/// A stored key's contribution never exceeds the whole sum, when `f` is
/// non-negative.
pub proof fn lemma_map_range_sum_member_bound<V>(
    m: Map<i64, V>,
    f: spec_fn(V) -> int,
    lo: int,
    hi: int,
    k: i64,
)
    requires
        forall|v: V| #[trigger] f(v) >= 0,
        lo <= k < hi,
        m.contains_key(k),
    ensures
        f(m[k]) <= map_range_sum(m, f, lo, hi),
{
    lemma_map_range_sum_split(m, f, lo, k as int, hi);
    lemma_map_range_sum_split(m, f, k as int, k as int + 1, hi);
    lemma_map_range_sum_nonneg(m, f, lo, k as int);
    lemma_map_range_sum_nonneg(m, f, k as int + 1, hi);
}

} // verus!
