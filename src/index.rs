//! A per-step index of bounding boxes, queried for interference.
use vstd::prelude::*;
use crate::geometry::{Aabb, overlaps, intersects};

verus! {

/// How many boxes of `leaves` interfere with `q`.
pub open spec fn count_overlapping(leaves: Seq<Aabb>, q: Aabb) -> nat
    decreases leaves.len(),
{
    if leaves.len() == 0 {
        0
    } else {
        count_overlapping(leaves.drop_last(), q) + if overlaps(q, leaves.last()) {
            1nat
        } else {
            0nat
        }
    }
}

/// The leaves of one simulation step. Leaves carry no payload beyond their box.
pub struct BoxIndex {
    leaves: Vec<Aabb>,
}

impl View for BoxIndex {
    type V = Seq<Aabb>;

    closed spec fn view(&self) -> Seq<Aabb> {
        self.leaves@
    }
}

impl BoxIndex {
    /// An index with no leaves.
    pub fn new() -> (r: BoxIndex)
        ensures
            r@ == Seq::<Aabb>::empty(),
    {
        BoxIndex { leaves: Vec::new() }
    }

    /// Adds one leaf.
    pub fn insert(&mut self, b: Aabb)
        ensures
            final(self)@ == old(self)@.push(b),
    {
        self.leaves.push(b);
    }

    /// The number of leaves.
    pub fn len(&self) -> (r: usize)
        ensures
            r == self@.len(),
    {
        self.leaves.len()
    }

    /// Counts the leaves whose box interferes with `q`.
    pub fn count_interferences(&self, q: &Aabb) -> (r: usize)
        ensures
            r == count_overlapping(self@, *q),
    {
        let mut n: usize = 0;
        let mut i: usize = 0;
        while i < self.leaves.len()
            invariant
                i <= self.leaves@.len(),
                n == count_overlapping(self.leaves@.take(i as int), *q),
                n <= i,
            decreases self.leaves@.len() - i,
        {
            assert(self.leaves@.take(i as int + 1).drop_last() == self.leaves@.take(i as int));
            if intersects(q, &self.leaves[i]) {
                n = n + 1;
            }
            i = i + 1;
        }
        assert(self.leaves@.take(i as int) == self.leaves@);
        n
    }
}

} // verus!
