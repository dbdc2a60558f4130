//! A buddy allocator of physical frames.
//!
//! Frames are named by their number (physical address / 4096). Free blocks of
//! `2^order` frames sit on one free list per order; a bitmap marks the first
//! frame of every free block, so that a block's buddy can be found free or not
//! without touching it.

use vstd::prelude::*;

verus! {

/// Orders `0 ..= MAX_ORDER - 1`: blocks of 1 to 2048 frames.
pub const MAX_ORDER: usize = 12;

/// Frame numbers stay below this (a 64-bit physical address space).
pub const FRAME_LIMIT: u64 = 0x10_0000_0000_0000;

/// Frames in a block of order `o`.
pub open spec fn block(o: nat) -> nat
    decreases o,
{
    if o == 0 {
        1
    } else {
        2 * block((o - 1) as nat)
    }
}

pub proof fn lemma_block_bounds(o: nat)
    requires
        o <= 12,
    ensures
        1 <= block(o) <= 4096,
        o < 12 ==> block(o + 1) == 2 * block(o),
{
    reveal_with_fuel(block, 13);
}

/// Whether the bitmap marks frame `i`.
pub open spec fn bit_set(bm: Seq<u64>, i: int) -> bool {
    0 <= i && i / 64 < bm.len() && (bm[i / 64] & (1u64 << ((i % 64) as u64))) != 0
}

/// The bitmap with frame `i` marked or unmarked; a frame past its end is ignored.
pub open spec fn with_bit(bm: Seq<u64>, i: int, v: bool) -> Seq<u64> {
    if i < 0 || i / 64 >= bm.len() {
        bm
    } else {
        bm.update(
            i / 64,
            if v {
                bm[i / 64] | (1u64 << ((i % 64) as u64))
            } else {
                bm[i / 64] & !(1u64 << ((i % 64) as u64))
            },
        )
    }
}

/// What a buddy allocator holds: its free lists (each used as a stack, the
/// last element on top), its bitmap, and its counts of frames.
pub struct BuddyState {
    pub lists: Seq<Seq<u64>>,
    pub bitmap: Seq<u64>,
    pub total: int,
    pub used: int,
}

/// Position of the topmost `p` in a list.
pub open spec fn find_last(l: Seq<u64>, p: u64) -> int
    decreases l.len(),
{
    if l.len() == 0 {
        -1
    } else if l.last() == p {
        l.len() - 1
    } else {
        find_last(l.drop_last(), p)
    }
}

pub proof fn lemma_find_last(l: Seq<u64>, p: u64)
    ensures
        -1 <= find_last(l, p) < l.len(),
        find_last(l, p) >= 0 ==> l[find_last(l, p)] == p,
        find_last(l, p) == -1 <==> !l.contains(p),
    decreases l.len(),
{
    if l.len() > 0 {
        lemma_find_last(l.drop_last(), p);
        if l.last() != p && l.drop_last().contains(p) {
            let k = choose|k: int| 0 <= k < l.drop_last().len() && l.drop_last()[k] == p;
            assert(l[k] == p);
        }
        if l.contains(p) && l.last() != p {
            let k = choose|k: int| 0 <= k < l.len() && l[k] == p;
            assert(l.drop_last()[k] == p);
        }
    }
}

impl BuddyState {
    /// A free block is pushed on its list and marked.
    pub open spec fn push(self, p: u64, o: int) -> BuddyState {
        BuddyState {
            lists: self.lists.update(o, self.lists[o].push(p)),
            bitmap: with_bit(self.bitmap, p as int, true),
            ..self
        }
    }

    /// The block on top of a list is taken off and unmarked.
    pub open spec fn pop(self, o: int) -> (BuddyState, Option<u64>) {
        if self.lists[o].len() == 0 {
            (self, None)
        } else {
            let p = self.lists[o].last();
            (
                BuddyState {
                    lists: self.lists.update(o, self.lists[o].drop_last()),
                    bitmap: with_bit(self.bitmap, p as int, false),
                    ..self
                },
                Some(p),
            )
        }
    }

    /// A free block is taken out of its list and unmarked.
    pub open spec fn remove(self, p: u64, o: int) -> BuddyState {
        BuddyState {
            lists: self.lists.update(o, self.lists[o].remove(find_last(self.lists[o], p))),
            bitmap: with_bit(self.bitmap, p as int, false),
            ..self
        }
    }

    /// Whether the block starting at `p` is free with order `o`.
    pub open spec fn is_free(self, p: u64, o: int) -> bool {
        bit_set(self.bitmap, p as int) && self.lists[o].contains(p)
    }

    /// Freeing the block at `p` of order `o`: while its buddy is free too,
    /// the two are joined into a block of the next order.
    pub open spec fn merge(self, p: u64, o: int) -> BuddyState
        decreases 12 - o,
    {
        if o >= 11 || o < 0 {
            self.push(p, o)
        } else {
            let size = block(o as nat) as int;
            let b = (if (p as int / size) % 2 == 1 { p - size } else { p + size }) as u64;
            if self.is_free(b, o) {
                self.remove(b, o).merge(if p < b { p } else { b }, o + 1)
            } else {
                self.push(p, o)
            }
        }
    }

    /// Allocating a block of order `o`: from its own list if it has one,
    /// else by splitting a block of the next order and freeing its upper half.
    pub open spec fn allocate(self, o: int) -> (BuddyState, Option<u64>)
        decreases 12 - o,
    {
        if o >= 12 || o < 0 {
            (self, None)
        } else {
            let (s1, r) = self.pop(o);
            if r is Some {
                (BuddyState { used: s1.used + block(o as nat), ..s1 }, r)
            } else {
                let (s2, r2) = self.allocate(o + 1);
                match r2 {
                    None => (s2, None),
                    Some(b) => (
                        BuddyState { used: s2.used - block(o as nat), ..s2 }.push(
                            (b + block(o as nat)) as u64,
                            o,
                        ),
                        Some(b),
                    ),
                }
            }
        }
    }

    /// Freeing a block of order `o` at `p`: the used count drops by its size
    /// (stopping at zero), and the block is merged back.
    pub open spec fn dealloc(self, p: u64, o: int) -> BuddyState {
        let used = if self.used >= block(o as nat) { self.used - block(o as nat) } else { 0 };
        BuddyState { used, ..self }.merge(p, o)
    }

    /// Handing the frames `cur .. end` to the allocator one by one.
    pub open spec fn add_range(self, cur: u64, end: u64) -> BuddyState
        decreases end - cur,
    {
        if cur >= end {
            self
        } else {
            BuddyState { total: self.total + 1, ..self }.merge(cur, 0).add_range((cur + 1) as u64, end)
        }
    }

    /// Freeing the frames `cur .. end`, each time the largest block that
    /// starts at `cur`, is aligned to its size and fits.
    pub open spec fn dealloc_range(self, cur: u64, end: u64) -> BuddyState
        decreases end - cur,
    {
        if cur >= end {
            self
        } else {
            let o = range_order(cur as int, end - cur, 0);
            proof {
                reveal_with_fuel(block, 2);
                lemma_range_order(cur as int, end - cur, 0);
                lemma_block_bounds(o as nat);
                assert(cur + block(o as nat) <= end);
            }
            self.dealloc(cur, o).dealloc_range((cur + block(o as nat)) as u64, end)
        }
    }
}

pub proof fn lemma_merge_counts(s: BuddyState, p: u64, o: int)
    ensures
        s.merge(p, o).total == s.total,
        s.merge(p, o).used == s.used,
    decreases 12 - o,
{
    if o >= 11 || o < 0 {
    } else {
        let size = block(o as nat) as int;
        let b = (if (p as int / size) % 2 == 1 { p - size } else { p + size }) as u64;
        if s.is_free(b, o) {
            lemma_merge_counts(s.remove(b, o), if p < b { p } else { b }, o + 1);
        }
    }
}

pub proof fn lemma_alloc_counts(s: BuddyState, o: int)
    ensures
        s.allocate(o).0.total == s.total,
        s.allocate(o).1 is Some ==> s.allocate(o).0.used == s.used + block(o as nat),
        s.allocate(o).1 is None ==> s.allocate(o).0.used == s.used,
    decreases 12 - o,
{
    if 0 <= o < 12 {
        lemma_alloc_counts(s, o + 1);
        lemma_block_bounds(o as nat);
    }
}

/// Every free block starts at a multiple of its size.
pub open spec fn aligned(st: BuddyState) -> bool {
    forall|o: int, k: int|
        0 <= o < 12 && 0 <= k < st.lists[o].len() ==> (#[trigger] st.lists[o][k]) as int % (block(
            o as nat,
        ) as int) == 0
}

/// Arithmetic of buddies: a block aligned to its size `s` and its buddy
/// (the block `s` below or above it, by the parity of `p / s`) start together
/// a block aligned to `2 * s`.
proof fn lemma_buddy_align(p: int, s: int)
    requires
        s > 0,
        p >= 0,
        p % s == 0,
    ensures
        (p / s) % 2 == 1 ==> p - s >= 0 && (p - s) % (2 * s) == 0,
        (p / s) % 2 == 0 ==> p % (2 * s) == 0,
{
    let q = p / s;
    assert(p == q * s) by (nonlinear_arith)
        requires
            s > 0,
            p % s == 0,
            q == p / s,
    ;
    if q % 2 == 1 {
        let h = q / 2;
        assert(q == 2 * h + 1);
        assert(p - s == h * (2 * s)) by (nonlinear_arith)
            requires
                p == q * s,
                q == 2 * h + 1,
        ;
        assert(h >= 0);
        assert((h * (2 * s)) % (2 * s) == 0) by (nonlinear_arith)
            requires
                s > 0,
                h >= 0,
        ;
        assert(p - s >= 0) by (nonlinear_arith)
            requires
                p - s == h * (2 * s),
                h >= 0,
                s > 0,
        ;
    } else {
        let h = q / 2;
        assert(q == 2 * h);
        assert(p == h * (2 * s)) by (nonlinear_arith)
            requires
                p == q * s,
                q == 2 * h,
        ;
        assert((h * (2 * s)) % (2 * s) == 0) by (nonlinear_arith)
            requires
                s > 0,
                h >= 0,
        ;
    }
}

/// A multiple of `2 * s` is a multiple of `s`, and so is it plus `s`.
proof fn lemma_double_align(b: int, s: int)
    requires
        s > 0,
        b >= 0,
        b % (2 * s) == 0,
    ensures
        b % s == 0,
        (b + s) % s == 0,
{
    let h = b / (2 * s);
    assert(b == (2 * h) * s) by (nonlinear_arith)
        requires
            s > 0,
            b % (2 * s) == 0,
            h == b / (2 * s),
    ;
    assert(h >= 0) by (nonlinear_arith)
        requires
            s > 0,
            b >= 0,
            h == b / (2 * s),
    ;
    assert(((2 * h) * s) % s == 0) by (nonlinear_arith)
        requires
            s > 0,
            h >= 0,
    ;
    assert(((2 * h + 1) * s) % s == 0) by (nonlinear_arith)
        requires
            s > 0,
            h >= 0,
    ;
    assert(b + s == (2 * h + 1) * s) by (nonlinear_arith)
        requires
            b == (2 * h) * s,
    ;
}

proof fn lemma_push_aligned(st: BuddyState, p: u64, o: int)
    requires
        aligned(st),
        0 <= o < 12,
        st.lists.len() == 12,
        p as int % (block(o as nat) as int) == 0,
    ensures
        aligned(st.push(p, o)),
{
    let s2 = st.push(p, o);
    assert forall|o2: int, k: int| 0 <= o2 < 12 && 0 <= k < s2.lists[o2].len() implies (#[trigger] s2.lists[o2][k]) as int
        % (block(o2 as nat) as int) == 0 by {
        if o2 != o || k < st.lists[o].len() {
            assert(s2.lists[o2][k] == st.lists[o2][k]);
        }
    }
}

proof fn lemma_pop_aligned(st: BuddyState, o: int)
    requires
        aligned(st),
        0 <= o < 12,
        st.lists.len() == 12,
    ensures
        aligned(st.pop(o).0),
        st.pop(o).1 matches Some(b) ==> b as int % (block(o as nat) as int) == 0,
{
    let s2 = st.pop(o).0;
    if st.lists[o].len() > 0 {
        assert(st.lists[o].last() == st.lists[o][st.lists[o].len() - 1]);
        assert forall|o2: int, k: int| 0 <= o2 < 12 && 0 <= k < s2.lists[o2].len() implies (#[trigger] s2.lists[o2][k]) as int
            % (block(o2 as nat) as int) == 0 by {
            assert(s2.lists[o2][k] == st.lists[o2][k]);
        }
    }
}

proof fn lemma_remove_aligned(st: BuddyState, p: u64, o: int)
    requires
        aligned(st),
        0 <= o < 12,
        st.lists.len() == 12,
        st.lists[o].contains(p),
    ensures
        aligned(st.remove(p, o)),
{
    lemma_find_last(st.lists[o], p);
    let i = find_last(st.lists[o], p);
    let s2 = st.remove(p, o);
    assert forall|o2: int, k: int| 0 <= o2 < 12 && 0 <= k < s2.lists[o2].len() implies (#[trigger] s2.lists[o2][k]) as int
        % (block(o2 as nat) as int) == 0 by {
        if o2 != o {
            assert(s2.lists[o2][k] == st.lists[o2][k]);
        } else if k < i {
            assert(s2.lists[o2][k] == st.lists[o2][k]);
        } else {
            assert(s2.lists[o2][k] == st.lists[o2][k + 1]);
        }
    }
}

/// Freeing an aligned block keeps every free block aligned.
pub proof fn lemma_merge_aligned(st: BuddyState, p: u64, o: int)
    requires
        aligned(st),
        0 <= o < 12,
        st.lists.len() == 12,
        p as int % (block(o as nat) as int) == 0,
        p < FRAME_LIMIT,
    ensures
        aligned(st.merge(p, o)),
        st.merge(p, o).lists.len() == 12,
    decreases 12 - o,
{
    lemma_block_bounds(o as nat);
    if o >= 11 {
        lemma_push_aligned(st, p, o);
    } else {
        let size = block(o as nat) as int;
        let b = (if (p as int / size) % 2 == 1 { p - size } else { p + size }) as u64;
        if st.is_free(b, o) {
            lemma_remove_aligned(st, b, o);
            lemma_buddy_align(p as int, size);
            if (p as int / size) % 2 == 1 {
                assert(b as int == p - size);
            } else {
                assert(b as int == p + size);
            }
            let m = if p < b { p } else { b };
            assert(m as int % (block((o + 1) as nat) as int) == 0);
            lemma_merge_aligned(st.remove(b, o), m, o + 1);
        } else {
            lemma_push_aligned(st, p, o);
        }
    }
}

/// A block handed out has an order's alignment, and every free block stays
/// aligned.
pub proof fn lemma_allocate_aligned(st: BuddyState, o: int)
    requires
        aligned(st),
        blocks_in_range(st),
        st.lists.len() == 12,
    ensures
        aligned(st.allocate(o).0),
        st.allocate(o).0.lists.len() == 12,
        st.allocate(o).1 matches Some(b) ==> 0 <= o < 12 && b as int % (block(o as nat) as int) == 0
            && b + block(o as nat) <= FRAME_LIMIT,
    decreases 12 - o,
{
    if 0 <= o < 12 {
        lemma_block_bounds(o as nat);
        lemma_pop_aligned(st, o);
        let (s1, r) = st.pop(o);
        if r is Some {
            assert(st.lists[o].last() == st.lists[o][st.lists[o].len() - 1]);
        }
        if r is None {
            lemma_allocate_aligned(st, o + 1);
            let (s2, r2) = st.allocate(o + 1);
            if r2 is Some {
                let b = r2->0;
                let size = block(o as nat) as int;
                assert(block((o + 1) as nat) == 2 * block(o as nat));
                lemma_double_align(b as int, size);
                assert((b + block(o as nat)) as u64 as int == b + size);
                let s3 = BuddyState { used: s2.used - block(o as nat), ..s2 };
                lemma_push_aligned(s3, (b + block(o as nat)) as u64, o);
            }
        }
    }
}

/// Handing frames to the allocator keeps every free block aligned.
pub proof fn lemma_add_range_aligned(st: BuddyState, cur: u64, end: u64)
    requires
        aligned(st),
        st.lists.len() == 12,
        end <= FRAME_LIMIT,
    ensures
        aligned(st.add_range(cur, end)),
    decreases end - cur,
{
    if cur < end {
        let s1 = BuddyState { total: st.total + 1, ..st };
        reveal_with_fuel(block, 1);
        lemma_merge_aligned(s1, cur, 0);
        lemma_add_range_aligned(s1.merge(cur, 0), (cur + 1) as u64, end);
    }
}

/// The order of the block that freeing a range at `cur` with `rem` frames
/// left starts with (searching up from `o`).
pub open spec fn range_order(cur: int, rem: int, o: int) -> int
    decreases 11 - o,
{
    if o < 11 && o >= 0 && cur % (block((o + 1) as nat) as int) == 0 && block((o + 1) as nat) <= rem {
        range_order(cur, rem, o + 1)
    } else {
        o
    }
}

pub proof fn lemma_range_order(cur: int, rem: int, o: int)
    requires
        0 <= o <= 11,
        block(o as nat) <= rem,
    ensures
        o <= range_order(cur, rem, o) <= 11,
        block(range_order(cur, rem, o) as nat) <= rem,
    decreases 11 - o,
{
    if o < 11 && cur % (block((o + 1) as nat) as int) == 0 && block((o + 1) as nat) <= rem {
        lemma_range_order(cur, rem, o + 1);
    }
}


/// The size in frames of a block of order `o`.
pub fn block_size(o: usize) -> (n: u64)
    requires
        o <= 12,
    ensures
        n == block(o as nat),
        1 <= n <= 4096,
{
    let mut n: u64 = 1;
    let mut i: usize = 0;
    while i < o
        invariant
            i <= o <= 12,
            n == block(i as nat),
        decreases o - i,
    {
        proof {
            lemma_block_bounds(i as nat);
        }
        n = n * 2;
        i = i + 1;
    }
    proof {
        lemma_block_bounds(o as nat);
    }
    n
}

/// A buddy allocator of physical frames.
pub struct BuddyAllocator {
    free_lists: Vec<Vec<u64>>,
    total_frames: usize,
    used_frames: usize,
    bitmap: Vec<u64>,
}

impl View for BuddyAllocator {
    type V = BuddyState;

    closed spec fn view(&self) -> BuddyState {
        BuddyState {
            lists: self.free_lists@.map_values(|l: Vec<u64>| l@),
            bitmap: self.bitmap@,
            total: self.total_frames as int,
            used: self.used_frames as int,
        }
    }
}

/// Every free block lies below the frame limit.
pub open spec fn blocks_in_range(st: BuddyState) -> bool {
    forall|o: int, k: int|
        0 <= o < 12 && 0 <= k < st.lists[o].len() ==> st.lists[o][k] + block(o as nat)
            <= FRAME_LIMIT
}

impl BuddyAllocator {
    pub closed spec fn wf(&self) -> bool {
        &&& self.free_lists@.len() == 12
        &&& blocks_in_range(self@)
    }

    /// An allocator with no frames and no bitmap.
    pub fn new() -> (a: Self)
        ensures
            a.wf(),
            a@.lists == Seq::new(12, |o: int| Seq::<u64>::empty()),
            a@.bitmap == Seq::<u64>::empty(),
            a@.total == 0,
            a@.used == 0,
            aligned(a@),
    {
        let mut free_lists: Vec<Vec<u64>> = Vec::new();
        let mut i: usize = 0;
        while i < MAX_ORDER
            invariant
                i <= 12,
                free_lists@.len() == i,
                forall|k: int| 0 <= k < i ==> (#[trigger] free_lists@[k])@ == Seq::<u64>::empty(),
            decreases 12 - i,
        {
            free_lists.push(Vec::new());
            i = i + 1;
        }
        let a = BuddyAllocator { free_lists, total_frames: 0, used_frames: 0, bitmap: Vec::new() };
        proof {
            assert(a@.lists =~= Seq::new(12, |o: int| Seq::<u64>::empty()));
        }
        a
    }

    /// Gives the allocator a cleared bitmap of `words` 64-bit words.
    pub fn set_bitmap(&mut self, words: usize)
        requires
            old(self).wf(),
        ensures
            final(self).wf(),
            final(self)@ == (BuddyState { bitmap: Seq::new(words as nat, |i: int| 0u64), ..old(self)@ }),
    {
        let mut bitmap: Vec<u64> = Vec::new();
        let mut i: usize = 0;
        while i < words
            invariant
                i <= words,
                bitmap@ == Seq::new(i as nat, |k: int| 0u64),
            decreases words - i,
        {
            bitmap.push(0);
            i = i + 1;
            proof {
                assert(bitmap@ =~= Seq::new(i as nat, |k: int| 0u64));
            }
        }
        self.bitmap = bitmap;
    }

    /// Marks or unmarks frame `idx`; a frame past the bitmap is ignored.
    pub fn set_bit(&mut self, idx: u64, val: bool)
        requires
            old(self).wf(),
        ensures
            final(self).wf(),
            final(self)@ == (BuddyState { bitmap: with_bit(old(self)@.bitmap, idx as int, val), ..old(self)@ }),
    {
        let word = idx / 64;
        if word >= self.bitmap.len() as u64 {
            return;
        }
        let w = word as usize;
        let bit = idx % 64;
        let v = if val {
            self.bitmap[w] | (1u64 << bit)
        } else {
            self.bitmap[w] & !(1u64 << bit)
        };
        self.bitmap.set(w, v);
        proof {
            assert(self@.lists == old(self)@.lists);
        }
    }

    /// Whether frame `idx` is marked; a frame past the bitmap is not.
    pub fn get_bit(&self, idx: u64) -> (b: bool)
        ensures
            b == bit_set(self@.bitmap, idx as int),
    {
        let word = idx / 64;
        if word >= self.bitmap.len() as u64 {
            return false;
        }
        let bit = idx % 64;
        (self.bitmap[word as usize] & (1u64 << bit)) != 0
    }

    fn push_block(&mut self, p: u64, order: usize)
        requires
            old(self).wf(),
            order < 12,
            p + block(order as nat) <= FRAME_LIMIT,
        ensures
            final(self).wf(),
            final(self)@ == old(self)@.push(p, order as int),
    {
        self.set_bit(p, true);
        let ghost mid = self@;
        self.free_lists[order].push(p);
        proof {
            assert(self@.lists =~= mid.lists.update(order as int, mid.lists[order as int].push(p)));
            assert forall|o: int, k: int|
                0 <= o < 12 && 0 <= k < self@.lists[o].len() implies self@.lists[o][k] + block(
                o as nat,
            ) <= FRAME_LIMIT by {
                if o != order as int || k < mid.lists[o].len() {
                    assert(self@.lists[o][k] == mid.lists[o][k]);
                }
            }
        }
    }

    fn pop_block(&mut self, order: usize) -> (r: Option<u64>)
        requires
            old(self).wf(),
            order < 12,
        ensures
            final(self).wf(),
            (final(self)@, r) == old(self)@.pop(order as int),
            r matches Some(p) ==> p + block(order as nat) <= FRAME_LIMIT,
    {
        let n = self.free_lists[order].len();
        if n == 0 {
            return None;
        }
        let p = self.free_lists[order][n - 1];
        proof {
            assert(self@.lists[order as int][n - 1] == p);
        }
        self.set_bit(p, false);
        let ghost mid = self@;
        self.free_lists[order].pop();
        proof {
            assert(self@.lists =~= mid.lists.update(order as int, mid.lists[order as int].drop_last()));
            assert forall|o: int, k: int|
                0 <= o < 12 && 0 <= k < self@.lists[o].len() implies self@.lists[o][k] + block(
                o as nat,
            ) <= FRAME_LIMIT by {
                assert(self@.lists[o][k] == mid.lists[o][k]);
            }
        }
        Some(p)
    }

    /// Position of the topmost `p` on the list of `order`.
    fn find_block(&self, p: u64, order: usize) -> (i: Option<usize>)
        requires
            self.wf(),
            order < 12,
        ensures
            i matches Some(k) ==> k == find_last(self@.lists[order as int], p),
            i is None ==> find_last(self@.lists[order as int], p) == -1,
    {
        let ghost l = self@.lists[order as int];
        let n = self.free_lists[order].len();
        let mut i = n;
        proof {
            assert(l.take(n as int) =~= l);
        }
        while i > 0
            invariant
                self.wf(),
                order < 12,
                l == self@.lists[order as int],
                n == l.len(),
                i <= n,
                find_last(l, p) == find_last(l.take(i as int), p),
            decreases i,
        {
            proof {
                assert(l.take(i as int).drop_last() =~= l.take(i - 1));
            }
            if self.free_lists[order][i - 1] == p {
                return Some(i - 1);
            }
            i = i - 1;
        }
        None
    }

    fn remove_block(&mut self, p: u64, order: usize)
        requires
            old(self).wf(),
            order < 12,
            old(self)@.lists[order as int].contains(p),
        ensures
            final(self).wf(),
            final(self)@ == old(self)@.remove(p, order as int),
    {
        proof {
            lemma_find_last(self@.lists[order as int], p);
            assert(self@.lists[order as int].take(self@.lists[order as int].len() as int) =~= self@.lists[order as int]);
        }
        self.set_bit(p, false);
        let ghost mid = self@;
        match self.find_block(p, order) {
            Some(i) => {
                self.free_lists[order].remove(i);
                proof {
                    assert(self@.lists =~= mid.lists.update(
                        order as int,
                        mid.lists[order as int].remove(i as int),
                    ));
                    assert forall|o: int, k: int|
                        0 <= o < 12 && 0 <= k < self@.lists[o].len() implies self@.lists[o][k]
                        + block(o as nat) <= FRAME_LIMIT by {
                        if o != order as int {
                            assert(self@.lists[o][k] == mid.lists[o][k]);
                        } else if k < i {
                            assert(self@.lists[o][k] == mid.lists[o][k]);
                        } else {
                            assert(self@.lists[o][k] == mid.lists[o][k + 1]);
                        }
                    }
                }
            },
            None => {},
        }
    }

    fn is_buddy_free(&self, p: u64, order: usize) -> (b: bool)
        requires
            self.wf(),
            order < 12,
        ensures
            b == self@.is_free(p, order as int),
    {
        if !self.get_bit(p) {
            return false;
        }
        let r = self.find_block(p, order);
        proof {
            lemma_find_last(self@.lists[order as int], p);
            assert(self@.lists[order as int].take(self@.lists[order as int].len() as int) =~= self@.lists[order as int]);
        }
        r.is_some()
    }

    fn merge_block(&mut self, p: u64, order: usize)
        requires
            old(self).wf(),
            order < 12,
            p + block(order as nat) <= FRAME_LIMIT,
        ensures
            final(self).wf(),
            final(self)@ == old(self)@.merge(p, order as int),
        decreases 12 - order,
    {
        if order >= MAX_ORDER - 1 {
            self.push_block(p, order);
            return;
        }
        let size = block_size(order);
        proof {
            assert((p / size) % 2 == 1 ==> p >= size) by (nonlinear_arith)
                requires
                    size >= 1,
            ;
        }
        let b = if (p / size) % 2 == 1 { p - size } else { p + size };
        if self.is_buddy_free(b, order) {
            proof {
                lemma_block_bounds(order as nat);
                let k = choose|k: int| 0 <= k < self@.lists[order as int].len() && self@.lists[order as int][k] == b;
                assert(b + size <= FRAME_LIMIT);
            }
            self.remove_block(b, order);
            let merged = if p < b { p } else { b };
            self.merge_block(merged, order + 1);
        } else {
            self.push_block(p, order);
        }
    }

    /// Adds one free frame (merging it with free buddies).
    pub fn add_frame(&mut self, p: u64)
        requires
            old(self).wf(),
            p < FRAME_LIMIT,
            old(self)@.total < usize::MAX,
        ensures
            final(self).wf(),
            final(self)@ == (BuddyState { total: old(self)@.total + 1, ..old(self)@ }).merge(p, 0),
            final(self)@.total == old(self)@.total + 1,
            final(self)@.used == old(self)@.used,
    {
        proof {
            reveal_with_fuel(block, 1);
        }
        self.total_frames = self.total_frames + 1;
        self.merge_block(p, 0);
        proof {
            lemma_merge_counts(BuddyState { total: old(self)@.total + 1, ..old(self)@ }, p, 0);
        }
    }

    /// Adds the free frames `start .. end`, one by one.
    pub fn add_region(&mut self, start: u64, end: u64)
        requires
            old(self).wf(),
            end <= FRAME_LIMIT,
            old(self)@.total + (end - start) <= usize::MAX,
        ensures
            final(self).wf(),
            final(self)@ == old(self)@.add_range(start, end),
            final(self)@.total == old(self)@.total + (if end > start { end - start } else { 0 }),
            aligned(old(self)@) ==> aligned(final(self)@),
    {
        proof {
            if aligned(self@) {
                lemma_add_range_aligned(self@, start, end);
            }
        }
        let mut current = start;
        while current < end
            invariant
                self.wf(),
                end <= FRAME_LIMIT,
                start <= current,
                current <= end || current == start,
                self@.total == old(self)@.total + (current - start),
                old(self)@.total + (end - start) <= usize::MAX,
                old(self)@.add_range(start, end) == self@.add_range(current, end),
            decreases end - current,
        {
            self.add_frame(current);
            current = current + 1;
        }
    }

    /// Allocates a block of `2^order` frames and gives its first frame.
    pub fn allocate(&mut self, order: usize) -> (r: Option<u64>)
        requires
            old(self).wf(),
            old(self)@.used + 4096 <= usize::MAX,
        ensures
            final(self).wf(),
            (final(self)@, r) == old(self)@.allocate(order as int),
            r matches Some(p) ==> order < 12 && p + block(order as nat) <= FRAME_LIMIT,
            aligned(old(self)@) ==> aligned(final(self)@),
            aligned(old(self)@) ==> (r matches Some(p) ==> p as int % (block(order as nat) as int) == 0),
        decreases 12 - order,
    {
        proof {
            if aligned(self@) {
                lemma_allocate_aligned(self@, order as int);
            }
        }
        if order >= MAX_ORDER {
            return None;
        }
        match self.pop_block(order) {
            Some(p) => {
                let size = block_size(order);
                let ghost before = self@;
                self.used_frames = self.used_frames + size as usize;
                proof {
                    assert(self@.lists == before.lists);
                }
                return Some(p);
            },
            None => {},
        }
        proof {
            lemma_alloc_counts(self@, order as int + 1);
            lemma_block_bounds(order as nat);
        }
        match self.allocate(order + 1) {
            None => None,
            Some(b) => {
                let size = block_size(order);
                let ghost before = self@;
                self.used_frames = self.used_frames - size as usize;
                proof {
                    assert(self@.lists == before.lists);
                }
                self.push_block(b + size, order);
                Some(b)
            },
        }
    }

    /// Frees a block of `2^order` frames starting at `p`.
    pub fn dealloc(&mut self, p: u64, order: usize)
        requires
            old(self).wf(),
            order < 12,
            p + block(order as nat) <= FRAME_LIMIT,
        ensures
            final(self).wf(),
            final(self)@ == old(self)@.dealloc(p, order as int),
            aligned(old(self)@) && p as int % (block(order as nat) as int) == 0 ==> aligned(final(self)@),
    {
        proof {
            let st = old(self)@;
            let used = if st.used >= block(order as nat) { st.used - block(order as nat) } else { 0 };
            let st2 = BuddyState { used, ..st };
            if aligned(st) && p as int % (block(order as nat) as int) == 0 {
                assert(aligned(st2));
                lemma_block_bounds(order as nat);
                lemma_merge_aligned(st2, p, order as int);
            }
        }
        let size = block_size(order) as usize;
        if self.used_frames >= size {
            self.used_frames = self.used_frames - size;
        } else {
            self.used_frames = 0;
        }
        proof {
            assert(self@.lists == old(self)@.lists);
        }
        self.merge_block(p, order);
    }

    /// Frees the frames `start .. end`, as blocks as large as their
    /// alignment and the rest of the range allow.
    pub fn dealloc_range(&mut self, start: u64, end: u64)
        requires
            old(self).wf(),
            end <= FRAME_LIMIT,
        ensures
            final(self).wf(),
            final(self)@ == old(self)@.dealloc_range(start, end),
    {
        let mut current = start;
        while current < end
            invariant
                self.wf(),
                end <= FRAME_LIMIT,
                old(self)@.dealloc_range(start, end) == self@.dealloc_range(current, end),
            decreases end - current,
        {
            let remaining = end - current;
            let mut order: usize = 0;
            proof {
                reveal_with_fuel(block, 2);
            }
            while order < MAX_ORDER - 1
                invariant
                    order <= 11,
                    block(order as nat) <= remaining,
                    range_order(current as int, remaining as int, 0) == range_order(
                        current as int,
                        remaining as int,
                        order as int,
                    ),
                ensures
                    order <= 11,
                    block(order as nat) <= remaining,
                    range_order(current as int, remaining as int, 0) == order,
                decreases 11 - order,
            {
                let next = order + 1;
                let size = block_size(next);
                if current % size != 0 {
                    break;
                }
                if size > remaining {
                    break;
                }
                order = next;
            }
            proof {
                lemma_block_bounds(order as nat);
            }
            self.dealloc(current, order);
            current = current + block_size(order);
        }
    }

    /// Frames handed to the allocator.
    pub fn total_frames(&self) -> (n: usize)
        ensures
            n == self@.total,
    {
        self.total_frames
    }

    /// Frames currently allocated.
    pub fn used_frames(&self) -> (n: usize)
        ensures
            n == self@.used,
    {
        self.used_frames
    }

    /// Frames not allocated.
    pub fn free_frames(&self) -> (n: usize)
        requires
            self@.used <= self@.total,
        ensures
            n == self@.total - self@.used,
    {
        self.total_frames - self.used_frames
    }
}

} // verus!
