use vstd::prelude::*;

verus! {

/// Running byte-size and message-count bookkeeping for a page or
/// sub-page.
#[derive(Debug, Clone, Copy, PartialEq, Eq, Structural)]
pub struct SizeAndAmount {
    pub size: usize,
    pub amount: usize,
}

impl SizeAndAmount {
    pub fn new() -> (r: SizeAndAmount)
        ensures
            r.size == 0,
            r.amount == 0,
    {
        SizeAndAmount { size: 0, amount: 0 }
    }

    /// Account for one added message of the given payload size.
    pub fn added(&mut self, size: usize)
        requires
            old(self).size + size <= usize::MAX,
            old(self).amount + 1 <= usize::MAX,
        ensures
            final(self).size == old(self).size + size,
            final(self).amount == old(self).amount + 1,
    {
        self.size = self.size + size;
        self.amount = self.amount + 1;
    }

    /// Account for one removed message of the given payload size.
    pub fn removed(&mut self, size: usize)
        requires
            size <= old(self).size,
            old(self).amount >= 1,
        ensures
            final(self).size == old(self).size - size,
            final(self).amount == old(self).amount - 1,
    {
        self.size = self.size - size;
        self.amount = self.amount - 1;
    }

    /// Fold a whole page's accounting into this one.
    pub fn added_page(&mut self, other: &SizeAndAmount)
        requires
            old(self).size + other.size <= usize::MAX,
            old(self).amount + other.amount <= usize::MAX,
        ensures
            final(self).size == old(self).size + other.size,
            final(self).amount == old(self).amount + other.amount,
    {
        self.size = self.size + other.size;
        self.amount = self.amount + other.amount;
    }

    /// Take a whole page's accounting out of this one.
    pub fn removed_page(&mut self, other: &SizeAndAmount)
        requires
            other.size <= old(self).size,
            other.amount <= old(self).amount,
        ensures
            final(self).size == old(self).size - other.size,
            final(self).amount == old(self).amount - other.amount,
    {
        self.size = self.size - other.size;
        self.amount = self.amount - other.amount;
    }
}

} // verus!
