//! A fixed-size bitmap that tracks which slots of a resource are taken.

use vstd::prelude::*;
use vstd::std_specs::bits::{axiom_u64_trailing_zeros, u64_trailing_zeros};

verus! {

/// Whether bit `b` of `w` is set.
pub open spec fn bit_of(w: u64, b: int) -> bool {
    (w >> (b as u64)) & 1u64 == 1u64
}

proof fn lemma_set_bit(w: u64, b: u64, c: u64)
    requires
        b < 64,
        c < 64,
    ensures
        bit_of(w | (1u64 << b), c as int) == (c == b || bit_of(w, c as int)),
{
    assert((((w | (1u64 << b)) >> c) & 1u64 == 1u64) == (c == b || (w >> c) & 1u64 == 1u64))
        by (bit_vector)
        requires
            b < 64,
            c < 64,
    ;
}

proof fn lemma_clear_bit(w: u64, b: u64, c: u64)
    requires
        b < 64,
        c < 64,
    ensures
        bit_of(w & !(1u64 << b), c as int) == (c != b && bit_of(w, c as int)),
{
    assert((((w & !(1u64 << b)) >> c) & 1u64 == 1u64) == (c != b && (w >> c) & 1u64 == 1u64))
        by (bit_vector)
        requires
            b < 64,
            c < 64,
    ;
}

proof fn lemma_full_word(w: u64, c: u64)
    requires
        c < 64,
    ensures
        w == u64::MAX ==> bit_of(w, c as int),
        (forall|k: u64| k < 64 ==> #[trigger] bit_of(w, k as int)) ==> w == u64::MAX,
{
    assert(w == 0xFFFF_FFFF_FFFF_FFFFu64 ==> (w >> c) & 1u64 == 1u64) by (bit_vector)
        requires
            c < 64,
    ;
    if forall|k: u64| k < 64 ==> #[trigger] bit_of(w, k as int) {
        let nw = !w;
        assert(nw == 0u64) by {
            axiom_u64_trailing_zeros(nw);
            let t = u64_trailing_zeros(nw);
            if t < 64 {
                assert(bit_of(w, t as int));
                assert(((nw >> (t as u64)) & 1u64 == 1u64) ==> !((w >> (t as u64)) & 1u64
                    == 1u64)) by (bit_vector)
                    requires
                        nw == !w,
                ;
            }
        }
        assert(!w == 0u64 ==> w == 0xFFFF_FFFF_FFFF_FFFFu64) by (bit_vector);
    }
}

proof fn lemma_inverted_bit(w: u64, c: u64)
    requires
        c < 64,
    ensures
        ((!w) >> c) & 1u64 == 1u64 <==> !bit_of(w, c as int),
{
    assert(((!w) >> c) & 1u64 == 1u64 <==> !((w >> c) & 1u64 == 1u64)) by (bit_vector)
        requires
            c < 64,
    ;
}

/// A bitmap of `N` 64-bit words; a set bit is a taken slot.
pub struct BitMap<const N: usize> {
    bits: Vec<u64>,
}

impl<const N: usize> BitMap<N> {
    /// The number of slots.
    pub open spec fn spec_capacity() -> nat {
        (N * 64) as nat
    }

    /// The bitmap is well formed: it holds `N` words and its slots can be numbered.
    pub closed spec fn wf(&self) -> bool {
        self.bits@.len() == N && N * 64 <= usize::MAX
    }

    /// Which slots are taken.
    pub closed spec fn slots(&self) -> Seq<bool> {
        Seq::new(Self::spec_capacity(), |i: int| bit_of(self.bits@[i / 64], i % 64))
    }

    /// There is one slot per bit: `N * 64` of them.
    pub proof fn lemma_slots_len(&self)
        ensures
            self.slots().len() == Self::spec_capacity(),
    {
    }

    /// A bitmap with every slot free.
    pub fn new() -> (m: Self)
        requires
            N * 64 <= usize::MAX,
        ensures
            m.wf(),
            m.slots().len() == Self::spec_capacity(),
            m.slots() == Seq::new(Self::spec_capacity(), |i: int| false),
    {
        let mut bits: Vec<u64> = Vec::new();
        let mut i: usize = 0;
        while i < N
            invariant
                i <= N,
                bits@.len() == i,
                forall|j: int| 0 <= j < i ==> bits@[j] == 0,
            decreases N - i,
        {
            bits.push(0);
            i = i + 1;
        }
        let m = BitMap { bits };
        proof {
            assert forall|k: int| 0 <= k < Self::spec_capacity() implies !m.slots()[k] by {
                let c = (k % 64) as u64;
                assert((0u64 >> c) & 1u64 == 0u64) by (bit_vector);
            }
            assert(m.slots() =~= Seq::new(Self::spec_capacity(), |i: int| false));
        }
        m
    }

    /// Marks slot `index` taken; an index past the end changes nothing.
    pub fn set(&mut self, index: usize)
        requires
            old(self).wf(),
        ensures
            final(self).wf(),
            final(self).slots().len() == Self::spec_capacity(),
            index < Self::spec_capacity() ==> final(self).slots() == old(self).slots().update(
                index as int,
                true,
            ),
            index >= Self::spec_capacity() ==> final(self).slots() == old(self).slots(),
    {
        let word = index / 64;
        let bit = index % 64;
        if word < N {
            let w = self.bits[word];
            let nw = w | (1u64 << (bit as u64));
            self.bits.set(word, nw);
            proof {
                let before = old(self).slots();
                let after = self.slots();
                assert forall|k: int| 0 <= k < Self::spec_capacity() implies after[k] == before.update(
                    index as int,
                    true,
                )[k] by {
                    if k / 64 == word as int {
                        lemma_set_bit(w, bit as u64, (k % 64) as u64);
                    }
                }
                assert(after =~= before.update(index as int, true));
            }
        } else {
            proof {
                assert(self.slots() =~= old(self).slots());
            }
        }
    }

    /// Marks slot `index` free; an index past the end changes nothing.
    pub fn clear(&mut self, index: usize)
        requires
            old(self).wf(),
        ensures
            final(self).wf(),
            final(self).slots().len() == Self::spec_capacity(),
            index < Self::spec_capacity() ==> final(self).slots() == old(self).slots().update(
                index as int,
                false,
            ),
            index >= Self::spec_capacity() ==> final(self).slots() == old(self).slots(),
    {
        let word = index / 64;
        let bit = index % 64;
        if word < N {
            let w = self.bits[word];
            let nw = w & !(1u64 << (bit as u64));
            self.bits.set(word, nw);
            proof {
                let before = old(self).slots();
                let after = self.slots();
                assert forall|k: int| 0 <= k < Self::spec_capacity() implies after[k] == before.update(
                    index as int,
                    false,
                )[k] by {
                    if k / 64 == word as int {
                        lemma_clear_bit(w, bit as u64, (k % 64) as u64);
                    }
                }
                assert(after =~= before.update(index as int, false));
            }
        } else {
            proof {
                assert(self.slots() =~= old(self).slots());
            }
        }
    }

    /// Whether slot `index` is taken; an index past the end counts as taken.
    pub fn test(&self, index: usize) -> (t: bool)
        requires
            self.wf(),
        ensures
            t == (index >= Self::spec_capacity() || self.slots()[index as int]),
    {
        let word = index / 64;
        let bit = index % 64;
        if word < N {
            let w = self.bits[word];
            let b = bit as u64;
            let t = (w & (1u64 << b)) != 0;
            assert(((w & (1u64 << b)) != 0u64) == ((w >> b) & 1u64 == 1u64)) by (bit_vector)
                requires
                    b < 64,
            ;
            t
        } else {
            true
        }
    }

    /// Takes the first free slot and returns its index; `None` when every slot is taken.
    pub fn allocate(&mut self) -> (r: Option<usize>)
        requires
            old(self).wf(),
        ensures
            final(self).wf(),
            final(self).slots().len() == Self::spec_capacity(),
            r is None <==> (forall|k: int|
                0 <= k < Self::spec_capacity() ==> #[trigger] old(self).slots()[k]),
            r is None ==> final(self).slots() == old(self).slots(),
            r matches Some(i) ==> i < Self::spec_capacity() && !old(self).slots()[i as int]
                && (forall|k: int| 0 <= k < i ==> #[trigger] old(self).slots()[k])
                && final(self).slots() == old(self).slots().update(i as int, true),
    {
        let mut i: usize = 0;
        while i < N
            invariant
                self.wf(),
                *self == *old(self),
                i <= N,
                forall|j: int| 0 <= j < i ==> #[trigger] self.bits@[j] == u64::MAX,
            decreases N - i,
        {
            let w = self.bits[i];
            if w != u64::MAX {
                let bit = (!w).trailing_zeros() as usize;
                proof {
                    axiom_u64_trailing_zeros(!w);
                    assert(!w != 0u64) by (bit_vector)
                        requires
                            w != 0xFFFF_FFFF_FFFF_FFFFu64,
                    ;
                    lemma_inverted_bit(w, bit as u64);
                    assert forall|c: u64| c < bit implies bit_of(w, c as int) by {
                        lemma_inverted_bit(w, c);
                    }
                }
                let index = i * 64 + bit;
                self.set(index);
                proof {
                    let s = old(self).slots();
                    assert(s[index as int] == bit_of(w, bit as int));
                    assert forall|k: int| 0 <= k < index implies #[trigger] s[k] by {
                        if k / 64 < i as int {
                            lemma_full_word(self.bits@[k / 64], (k % 64) as u64);
                            assert(old(self).bits@[k / 64] == u64::MAX);
                            lemma_full_word(old(self).bits@[k / 64], (k % 64) as u64);
                        } else {
                            assert(bit_of(w, k % 64)) by {
                                assert((k % 64) as u64 == k % 64);
                            }
                        }
                    }
                }
                return Some(index);
            }
            i = i + 1;
        }
        proof {
            assert forall|k: int| 0 <= k < Self::spec_capacity() implies #[trigger] old(
                self,
            ).slots()[k] by {
                lemma_full_word(old(self).bits@[k / 64], (k % 64) as u64);
            }
        }
        None
    }

    /// The number of slots.
    pub fn capacity(&self) -> (c: usize)
        requires
            self.wf(),
        ensures
            c == Self::spec_capacity(),
    {
        N * 64
    }
}

/// Clearing slot `index` frees it and leaves every other slot as it was; an
/// index past the end leaves the bitmap as it was. So setting a free slot and
/// then clearing it gives back the bitmap it started from.
pub proof fn lemma_clear_frees<const N: usize>(before: BitMap<N>, after: BitMap<N>, index: int)
    requires
        0 <= index,
        index < BitMap::<N>::spec_capacity() ==> after.slots() == before.slots().update(index, false),
        index >= BitMap::<N>::spec_capacity() ==> after.slots() == before.slots(),
    ensures
        after.slots().len() == before.slots().len() == BitMap::<N>::spec_capacity(),
        index < BitMap::<N>::spec_capacity() ==> !after.slots()[index],
        forall|j: int| 0 <= j < BitMap::<N>::spec_capacity() && j != index ==> after.slots()[j] == before.slots()[j],
{
    before.lemma_slots_len();
    after.lemma_slots_len();
}

/// Taking a free slot and then freeing it again gives back the bitmap as it was.
pub proof fn lemma_allocate_then_clear(slots: Seq<bool>, i: int)
    requires
        0 <= i < slots.len(),
        !slots[i],
    ensures
        slots.update(i, true).update(i, false) == slots,
{
    assert(slots.update(i, true).update(i, false) =~= slots);
}

} // verus!
