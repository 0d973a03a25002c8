//! The pool of root-stack slots that async tasks borrow while they run.

use std::collections::VecDeque;
use vstd::prelude::*;

verus! {

/// A fixed set of slots `0..size`, of which the free ones wait in a double-ended queue.
pub struct StackPool {
    free: VecDeque<usize>,
    n_slots: usize,
}

/// The slots `0..n` in increasing order.
pub open spec fn all_slots(n: nat) -> Seq<usize> {
    Seq::new(n, |i: int| i as usize)
}

impl StackPool {
    /// The free slots, the next one to be lent first.
    pub closed spec fn free_slots(&self) -> Seq<usize> {
        self.free@
    }

    /// The number of slots that the pool was made with.
    pub closed spec fn size(&self) -> nat {
        self.n_slots as nat
    }

    /// Each free slot is a slot of the pool, and none is free twice.
    pub open spec fn wf(&self) -> bool {
        &&& forall|i: int| 0 <= i < self.free_slots().len() ==> #[trigger] self.free_slots()[i] < self.size()
        &&& self.free_slots().no_duplicates()
    }

    /// A pool of `n_slots` slots, all free, lent in increasing order.
    pub fn new(n_slots: usize) -> (p: StackPool)
        ensures
            p.wf(),
            p.size() == n_slots,
            p.free_slots() == all_slots(n_slots as nat),
    {
        let mut free: VecDeque<usize> = VecDeque::new();
        let mut i: usize = 0;
        while i < n_slots
            invariant
                i <= n_slots,
                free@ == all_slots(i as nat),
            decreases n_slots - i,
        {
            free.push_back(i);
            i += 1;
            proof {
                assert(free@ =~= all_slots(i as nat));
            }
        }
        StackPool { free, n_slots }
    }

    /// The number of slots that the pool was made with.
    pub fn capacity(&self) -> (n: usize)
        ensures
            n == self.size(),
    {
        self.n_slots
    }

    /// The number of free slots.
    pub fn n_free(&self) -> (n: usize)
        ensures
            n == self.free_slots().len(),
    {
        self.free.len()
    }

    /// Lends the first free slot; `None`, and no change, when all are lent. Never waits.
    pub fn acquire(&mut self) -> (r: Option<usize>)
        requires
            old(self).wf(),
        ensures
            final(self).wf(),
            final(self).size() == old(self).size(),
            old(self).free_slots().len() == 0 ==> r is None && final(self).free_slots() == old(
                self,
            ).free_slots(),
            old(self).free_slots().len() > 0 ==> r == Some(old(self).free_slots()[0])
                && final(self).free_slots() == old(self).free_slots().drop_first(),
    {
        let r = self.free.pop_front();
        proof {
            if old(self).free_slots().len() > 0 {
                assert(self.free_slots() =~= old(self).free_slots().drop_first());
                assert forall|i: int, j: int|
                    0 <= i < self.free_slots().len() && 0 <= j < self.free_slots().len() && i != j
                        implies self.free_slots()[i] != self.free_slots()[j] by {
                    assert(self.free_slots()[i] == old(self).free_slots()[i + 1]);
                    assert(self.free_slots()[j] == old(self).free_slots()[j + 1]);
                }
                assert forall|i: int| 0 <= i < self.free_slots().len() implies #[trigger] self.free_slots()[i]
                    < self.size() by {
                    assert(self.free_slots()[i] == old(self).free_slots()[i + 1]);
                }
            }
        }
        r
    }

    /// Takes a slot back; it is the next one to be lent.
    pub fn release(&mut self, slot: usize)
        requires
            old(self).wf(),
            slot < old(self).size(),
            !old(self).free_slots().contains(slot),
        ensures
            final(self).wf(),
            final(self).size() == old(self).size(),
            final(self).free_slots() == seq![slot] + old(self).free_slots(),
    {
        self.free.push_front(slot);
        proof {
            let s = self.free_slots();
            let o = old(self).free_slots();
            assert forall|i: int| 0 <= i < s.len() implies #[trigger] s[i] < self.size() by {
                if i > 0 {
                    assert(s[i] == o[i - 1]);
                }
            }
            assert forall|i: int, j: int| 0 <= i < s.len() && 0 <= j < s.len() && i != j implies s[i]
                != s[j] by {
                if i > 0 && j > 0 {
                    assert(s[i] == o[i - 1]);
                    assert(s[j] == o[j - 1]);
                } else if i == 0 {
                    assert(s[j] == o[j - 1]);
                } else {
                    assert(s[i] == o[i - 1]);
                }
            }
        }
    }
}

} // verus!
