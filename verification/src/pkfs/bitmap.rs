//! Byte maps that record which blocks and inodes are in use: one byte per
//! slot, nonzero when the slot is used.

use vstd::prelude::*;

verus! {

/// Whether every slot below `max` is used.
pub open spec fn all_used(bits: Seq<u8>, max: int) -> bool {
    forall|i: int| 0 <= i < max ==> bits[i] != 0
}

/// The lowest free slot below `max`, if there is one.
pub open spec fn first_free(bits: Seq<u8>, max: int) -> Option<int> {
    if exists|i: int| 0 <= i < max && bits[i] == 0 {
        Some(choose|i: int| 0 <= i < max && bits[i] == 0 && forall|j: int| 0 <= j < i ==> bits[j] != 0)
    } else {
        None
    }
}

/// A map of used and free slots.
pub trait Bitmap {
    /// The slots, one byte each.
    spec fn slots(&self) -> Seq<u8>;

    /// Whether slot `index` is used.
    fn is_used(&self, index: usize) -> (used: bool)
        requires
            index < self.slots().len(),
        ensures
            used == (self.slots()[index as int] != 0),
    ;

    /// Marks the lowest free slot below `max` used and returns it; `None`, with
    /// nothing changed, when all of them are used.
    fn allocate(&mut self, max: usize) -> (r: Option<usize>)
        requires
            max <= old(self).slots().len() || exists|i: int|
                0 <= i < old(self).slots().len() && old(self).slots()[i] == 0,
        ensures
            match r {
                Some(i) => {
                    &&& i < max
                    &&& old(self).slots()[i as int] == 0
                    &&& forall|j: int| 0 <= j < i ==> old(self).slots()[j] != 0
                    &&& final(self).slots() == old(self).slots().update(i as int, 1)
                },
                None => {
                    &&& all_used(old(self).slots(), max as int)
                    &&& final(self).slots() == old(self).slots()
                },
            },
    ;

    /// Marks slot `index` free.
    fn free(&mut self, index: usize)
        requires
            index < old(self).slots().len(),
        ensures
            final(self).slots() == old(self).slots().update(index as int, 0),
    ;

    /// Marks every slot free.
    fn clear(&mut self)
        ensures
            final(self).slots().len() == old(self).slots().len(),
            forall|i: int| 0 <= i < final(self).slots().len() ==> final(self).slots()[i] == 0,
    ;
}

impl<const N: usize> Bitmap for [u8; N] {
    open spec fn slots(&self) -> Seq<u8> {
        self@
    }

    fn is_used(&self, index: usize) -> (used: bool) {
        self[index] != 0
    }

    fn allocate(&mut self, max: usize) -> (r: Option<usize>) {
        let mut i: usize = 0;
        while i < max
            invariant
                i <= max,
                self@ == old(self)@,
                self@.len() == N,
                forall|j: int| 0 <= j < i ==> self@[j] != 0,
                max <= N || exists|k: int| 0 <= k < N && self@[k] == 0,
            decreases max - i,
        {
            if i >= N {
                // Some slot below N is free, and all below i are used: impossible.
                assert(false);
            }
            if self[i] == 0 {
                self[i] = 1;
                return Some(i);
            }
            i = i + 1;
        }
        None
    }

    fn free(&mut self, index: usize) {
        self[index] = 0;
    }

    fn clear(&mut self) {
        let mut i: usize = 0;
        while i < N
            invariant
                i <= N,
                self@.len() == N,
                forall|j: int| 0 <= j < i ==> self@[j] == 0,
            decreases N - i,
        {
            self[i] = 0;
            i = i + 1;
        }
    }
}

/// A slot that `allocate` handed out is not handed out again: when a first call
/// turned `before` into `after` by marking slot `i`, any slot that a second call
/// on `after` returns (it is free in `after`) differs from `i`.
pub proof fn lemma_allocated_slot_not_reused(before: Seq<u8>, after: Seq<u8>, i: int, j: int)
    requires
        0 <= i < before.len(),
        after == before.update(i, 1),
        0 <= j < after.len(),
        after[j] == 0,
    ensures
        j != i,
{
}

} // verus!
