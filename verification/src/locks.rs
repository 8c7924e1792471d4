use vstd::prelude::*;
use vstd::string::StringExecFns;

verus! {

/// Diagnostic record of one lock: who holds it and since when, as a
/// stack of process descriptions.
#[derive(Debug)]
pub struct LockItem {
    pub id: i64,
    pub data: Vec<String>,
    pub date: i64,
}

impl LockItem {
    /// The held process descriptions joined with an arrow between each
    /// pair, oldest first.
    pub fn to_string(&self) -> (r: String)
        ensures
            self.data@.len() == 0 ==> r@.len() == 0,
            self.data@.len() == 1 ==> r@ == self.data@[0]@,
    {
        let mut result = String::new();
        let n = self.data.len();
        let mut index: usize = 0;
        while index < n
            invariant
                n == self.data@.len(),
                0 <= index <= n,
                index == 0 ==> result@.len() == 0,
                n > 0 && index == 1 ==> result@ == self.data@[0]@,
            decreases n - index,
        {
            if index > 0 {
                result.append("->");
            }
            result.append(self.data[index].as_str());
            index += 1;
        }
        result
    }

    /// Pop the most recent holder; report whether the item is now empty
    /// and can be dropped.
    fn do_exit(&mut self) -> (r: bool)
        requires
            old(self).data@.len() > 0,
        ensures
            final(self).data@ == old(self).data@.drop_last(),
            final(self).id == old(self).id,
            final(self).date == old(self).date,
            r == (final(self).data@.len() == 0),
    {
        let _ = self.data.pop();
        self.data.len() == 0
    }
}

/// The number of processes recorded under an id in a lock list.
pub open spec fn holders_of(s: Seq<LockItem>, id: i64) -> int {
    if exists|i: int| 0 <= i < s.len() && (#[trigger] s[i]).id == id {
        let i = choose|i: int| 0 <= i < s.len() && (#[trigger] s[i]).id == id;
        s[i].data@.len() as int
    } else {
        0
    }
}

/// Diagnostic registry of held locks, keyed by lock id.
pub struct Locks {
    pub data: Vec<LockItem>,
}

impl Locks {
    /// Each lock id appears at most once, and every held lock has at
    /// least one holder recorded.
    pub open spec fn well_formed(self) -> bool {
        &&& forall|i: int, j: int|
            #![trigger self.data@[i], self.data@[j]]
            0 <= i < j < self.data@.len() ==> self.data@[i].id != self.data@[j].id
        &&& forall|i: int| 0 <= i < self.data@.len() ==> (#[trigger] self.data@[i]).data@.len() > 0
    }

    /// The number of processes recorded under the id.
    pub open spec fn spec_holders(self, id: i64) -> int {
        holders_of(self.data@, id)
    }

    pub fn new() -> (r: Locks)
        ensures
            r.well_formed(),
            forall|id: i64| r.spec_holders(id) == 0,
    {
        Locks { data: Vec::new() }
    }

    /// Record that a process entered the lock: push its description onto
    /// the lock's holder stack, creating the record on first entry.
    pub fn new_lock(&mut self, id: i64, process: String)
        requires
            old(self).well_formed(),
            old(self).spec_holders(id) + 1 <= usize::MAX,
        ensures
            final(self).well_formed(),
            final(self).spec_holders(id) == old(self).spec_holders(id) + 1,
            forall|other: i64| other != id ==> final(self).spec_holders(other) == old(
                self,
            ).spec_holders(other),
    {
        let n = self.data.len();
        let mut index: usize = 0;
        while index < n
            invariant
                *self == *old(self),
                old(self).well_formed(),
                n == self.data@.len(),
                0 <= index <= n,
                forall|i: int| 0 <= i < index ==> (#[trigger] self.data@[i]).id != id,
            decreases n - index,
        {
            if self.data[index].id == id {
                let ghost s0 = self.data@;
                let item = &mut self.data[index];
                item.data.push(process);
                proof {
                    lemma_holders_at(s0, index as int, id);
                    lemma_holders_at(self.data@, index as int, id);
                    assert forall|other: i64|
                        other != id implies holders_of(self.data@, other) == holders_of(
                        s0,
                        other,
                    ) by {
                        lemma_holders_other(s0, self.data@, other);
                    }
                }
                return ;
            }
            index += 1;
        }
        let ghost s0 = self.data@;
        let mut data: Vec<String> = Vec::new();
        data.push(process);
        self.data.push(LockItem { id, data, date: 0 });
        proof {
            lemma_holders_at(self.data@, s0.len() as int, id);
            lemma_holders_absent(s0, id);
            assert forall|other: i64|
                other != id implies holders_of(self.data@, other) == holders_of(s0, other) by {
                lemma_holders_other(s0, self.data@, other);
            }
        }
    }

    /// A process left the lock: pop its holder stack, dropping the whole
    /// record when nobody holds it any more.  An unknown id is ignored.
    pub fn exit(&mut self, id: i64)
        requires
            old(self).well_formed(),
        ensures
            final(self).well_formed(),
            old(self).spec_holders(id) > 0 ==> final(self).spec_holders(id) == old(
                self,
            ).spec_holders(id) - 1,
            old(self).spec_holders(id) == 0 ==> *final(self) == *old(self),
            forall|other: i64| other != id ==> final(self).spec_holders(other) == old(
                self,
            ).spec_holders(other),
    {
        let n = self.data.len();
        let mut index: usize = 0;
        while index < n
            invariant
                *self == *old(self),
                old(self).well_formed(),
                n == self.data@.len(),
                0 <= index <= n,
                forall|i: int| 0 <= i < index ==> (#[trigger] self.data@[i]).id != id,
            decreases n - index,
        {
            if self.data[index].id == id {
                let ghost s0 = self.data@;
                let remove_item = {
                    let item = &mut self.data[index];
                    item.do_exit()
                };
                proof {
                    lemma_holders_at(s0, index as int, id);
                }
                if remove_item {
                    let ghost s1 = self.data@;
                    self.data.remove(index);
                    proof {
                        lemma_holders_absent_after_remove(s1, index as int, id);
                        assert forall|other: i64|
                            other != id implies holders_of(self.data@, other) == holders_of(
                            s0,
                            other,
                        ) by {
                            lemma_holders_other_remove(s1, self.data@, index as int, other);
                            lemma_holders_other(s0, s1, other);
                        }
                    }
                } else {
                    proof {
                        lemma_holders_at(self.data@, index as int, id);
                        assert forall|other: i64|
                            other != id implies holders_of(self.data@, other) == holders_of(
                            s0,
                            other,
                        ) by {
                            lemma_holders_other(s0, self.data@, other);
                        }
                    }
                }
                return ;
            }
            index += 1;
        }
        proof {
            lemma_holders_absent(self.data@, id);
        }
    }

    /// A copy of every held lock record.
    pub fn get_all(&self) -> (r: Vec<LockItem>)
        ensures
            r@.len() == self.data@.len(),
            forall|i: int|
                0 <= i < self.data@.len() ==> (#[trigger] r@[i]).id == self.data@[i].id
                    && r@[i].date == self.data@[i].date && r@[i].data@.len()
                    == self.data@[i].data@.len(),
    {
        let n = self.data.len();
        let mut result: Vec<LockItem> = Vec::new();
        let mut index: usize = 0;
        while index < n
            invariant
                n == self.data@.len(),
                0 <= index <= n,
                result@.len() == index,
                forall|i: int|
                    0 <= i < index ==> (#[trigger] result@[i]).id == self.data@[i].id
                        && result@[i].date == self.data@[i].date && result@[i].data@.len()
                        == self.data@[i].data@.len(),
            decreases n - index,
        {
            let src = &self.data[index];
            let mut data: Vec<String> = Vec::new();
            let m = src.data.len();
            let mut j: usize = 0;
            while j < m
                invariant
                    m == src.data@.len(),
                    0 <= j <= m,
                    data@.len() == j,
                decreases m - j,
            {
                data.push(src.data[j].clone());
                j += 1;
            }
            result.push(LockItem { id: src.id, data, date: src.date });
            index += 1;
        }
        result
    }
}

/// When the id sits at a known index of a list with unique ids, the
/// holder count reads off that index.
proof fn lemma_holders_at(s: Seq<LockItem>, index: int, id: i64)
    requires
        0 <= index < s.len(),
        s[index].id == id,
        forall|i: int, j: int|
            #![trigger s[i], s[j]]
            0 <= i < j < s.len() ==> s[i].id != s[j].id,
    ensures
        holders_of(s, id) == s[index].data@.len(),
{
    assert(exists|i: int| 0 <= i < s.len() && (#[trigger] s[i]).id == id);
    let i = choose|i: int| 0 <= i < s.len() && (#[trigger] s[i]).id == id;
    if i != index {
        if i < index {
            assert(s[i].id != s[index].id);
        } else {
            assert(s[index].id != s[i].id);
        }
    }
}

/// An id that appears at no index has no holders.
proof fn lemma_holders_absent(s: Seq<LockItem>, id: i64)
    requires
        forall|i: int| 0 <= i < s.len() ==> (#[trigger] s[i]).id != id,
    ensures
        holders_of(s, id) == 0,
{
    if exists|i: int| 0 <= i < s.len() && (#[trigger] s[i]).id == id {
        let i = choose|i: int| 0 <= i < s.len() && (#[trigger] s[i]).id == id;
        assert(false);
    }
}

/// Removing the index that carried the id leaves the id without holders.
proof fn lemma_holders_absent_after_remove(s: Seq<LockItem>, index: int, id: i64)
    requires
        0 <= index < s.len(),
        s[index].id == id,
        forall|i: int, j: int|
            #![trigger s[i], s[j]]
            0 <= i < j < s.len() ==> s[i].id != s[j].id,
    ensures
        holders_of(s.remove(index), id) == 0,
{
    let s1 = s.remove(index);
    assert forall|i: int| 0 <= i < s1.len() implies (#[trigger] s1[i]).id != id by {
        if i < index {
            assert(s1[i] == s[i]);
            assert(s[i].id != s[index].id);
        } else {
            assert(s1[i] == s[i + 1]);
            assert(s[index].id != s[i + 1].id);
        }
    }
    lemma_holders_absent(s1, id);
}

/// Two lists with unique ids whose entries for an id agree, entry for
/// entry, give that id the same holder count.
proof fn lemma_holders_other(s0: Seq<LockItem>, s1: Seq<LockItem>, other: i64)
    requires
        s0.len() <= s1.len(),
        forall|i: int, j: int|
            #![trigger s0[i], s0[j]]
            0 <= i < j < s0.len() ==> s0[i].id != s0[j].id,
        forall|i: int, j: int|
            #![trigger s1[i], s1[j]]
            0 <= i < j < s1.len() ==> s1[i].id != s1[j].id,
        forall|i: int| 0 <= i < s0.len() && (#[trigger] s0[i]).id == other ==> s1[i] == s0[i],
        forall|i: int|
            0 <= i < s1.len() && (#[trigger] s1[i]).id == other ==> i < s0.len() && s1[i] == s0[i],
    ensures
        holders_of(s0, other) == holders_of(s1, other),
{
    if exists|i: int| 0 <= i < s0.len() && (#[trigger] s0[i]).id == other {
        let i = choose|i: int| 0 <= i < s0.len() && (#[trigger] s0[i]).id == other;
        assert(s1[i] == s0[i]);
        lemma_holders_at(s0, i, other);
        lemma_holders_at(s1, i, other);
    } else {
        if exists|j: int| 0 <= j < s1.len() && (#[trigger] s1[j]).id == other {
            let j = choose|j: int| 0 <= j < s1.len() && (#[trigger] s1[j]).id == other;
            assert(s0[j].id == other);
            assert(false);
        }
    }
}

/// Removing an entry of a different id keeps the other id's holder count.
proof fn lemma_holders_other_remove(s: Seq<LockItem>, s1: Seq<LockItem>, index: int, other: i64)
    requires
        0 <= index < s.len(),
        s[index].id != other,
        s1 == s.remove(index),
        forall|i: int, j: int|
            #![trigger s[i], s[j]]
            0 <= i < j < s.len() ==> s[i].id != s[j].id,
    ensures
        holders_of(s, other) == holders_of(s1, other),
{
    assert forall|i: int, j: int|
        #![trigger s1[i], s1[j]]
        0 <= i < j < s1.len() implies s1[i].id != s1[j].id by {
        if i < index {
            assert(s1[i] == s[i]);
        } else {
            assert(s1[i] == s[i + 1]);
        }
        if j < index {
            assert(s1[j] == s[j]);
        } else {
            assert(s1[j] == s[j + 1]);
        }
    }
    if exists|i: int| 0 <= i < s.len() && (#[trigger] s[i]).id == other {
        let i = choose|i: int| 0 <= i < s.len() && (#[trigger] s[i]).id == other;
        assert(i != index);
        lemma_holders_at(s, i, other);
        if i < index {
            assert(s1[i] == s[i]);
            lemma_holders_at(s1, i, other);
        } else {
            assert(s1[i - 1] == s[i]);
            lemma_holders_at(s1, i - 1, other);
        }
    } else {
        lemma_holders_absent(s, other);
        assert forall|i: int| 0 <= i < s1.len() implies (#[trigger] s1[i]).id != other by {
            if i < index {
                assert(s1[i] == s[i]);
            } else {
                assert(s1[i] == s[i + 1]);
            }
        }
        lemma_holders_absent(s1, other);
    }
}

} // verus!
