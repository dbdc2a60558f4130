//! Physical frame allocation on top of the memory map: setting the buddy
//! allocator up, contiguous allocations, statistics, and the simpler bitmap
//! allocator that the boot loader's memory map feeds.

use vstd::prelude::*;
use crate::buddy::{BuddyAllocator, BuddyState, block, lemma_block_bounds, FRAME_LIMIT};
use crate::text::{decimal_digits, push_decimal, string_from_chars};
use crate::vmm::{align_down, align_up};

verus! {

pub const PAGE_SIZE: usize = 4096;

/// Addresses that the memory map may describe (below 2^63).
pub const ADDRESS_LIMIT: u64 = 0x8000_0000_0000_0000;

/// A region of the memory map.
#[derive(Debug, Clone, Copy, PartialEq, Eq, Structural)]
pub struct MemoryRegion {
    pub base: u64,
    pub length: u64,
    /// Whether the region is free RAM that may be allocated.
    pub usable: bool,
}

pub open spec fn region_end(r: MemoryRegion) -> int {
    r.base + r.length
}

/// The highest end of a usable region (0 when there is none).
pub open spec fn max_usable_end(rs: Seq<MemoryRegion>) -> int
    decreases rs.len(),
{
    if rs.len() == 0 {
        0
    } else {
        let m = max_usable_end(rs.drop_last());
        let r = rs.last();
        if r.usable && region_end(r) > m {
            region_end(r)
        } else {
            m
        }
    }
}

/// The number of 64-bit bitmap words that cover memory up to `max_end`.
pub open spec fn bitmap_words(max_end: int) -> int {
    ((max_end + 4095) / 4096 + 63) / 64
}

/// The first usable region at least `bytes` long, as a position (or -1).
pub open spec fn first_fit(rs: Seq<MemoryRegion>, bytes: int) -> int
    decreases rs.len(),
{
    if rs.len() == 0 {
        -1
    } else {
        let k = first_fit(rs.drop_last(), bytes);
        if k >= 0 {
            k
        } else if rs.last().usable && rs.last().length >= bytes {
            rs.len() - 1
        } else {
            -1
        }
    }
}

/// The frames of a usable region that go to the allocator: the region cut
/// to whole pages, less the bitmap when the bitmap starts at the region's
/// start.
pub open spec fn region_frames(r: MemoryRegion, bm_start: int, bm_bytes: int) -> (int, int) {
    let start = if r.base < bm_start + bm_bytes && region_end(r) > bm_start && r.base == bm_start {
        r.base + bm_bytes
    } else {
        r.base as int
    };
    (align_up(start) / 4096, align_down(region_end(r)) / 4096)
}

/// Adding the usable regions, in order, to an allocator.
pub open spec fn add_regions(s: BuddyState, rs: Seq<MemoryRegion>, bm_start: int, bm_bytes: int) -> BuddyState
    decreases rs.len(),
{
    if rs.len() == 0 {
        s
    } else {
        let prev = add_regions(s, rs.drop_last(), bm_start, bm_bytes);
        let r = rs.last();
        let (a, b) = region_frames(r, bm_start, bm_bytes);
        if r.usable && a < b {
            prev.add_range(a as u64, b as u64)
        } else {
            prev
        }
    }
}

/// A memory map whose addresses stay below [`ADDRESS_LIMIT`].
pub open spec fn map_in_range(rs: Seq<MemoryRegion>) -> bool {
    forall|i: int| 0 <= i < rs.len() ==> region_end(#[trigger] rs[i]) <= ADDRESS_LIMIT
}

proof fn lemma_max_usable_end(rs: Seq<MemoryRegion>)
    requires
        map_in_range(rs),
    ensures
        0 <= max_usable_end(rs) <= ADDRESS_LIMIT,
    decreases rs.len(),
{
    if rs.len() > 0 {
        lemma_max_usable_end(rs.drop_last());
        assert(region_end(rs[rs.len() - 1]) <= ADDRESS_LIMIT);
    }
}

proof fn lemma_first_fit(rs: Seq<MemoryRegion>, bytes: int)
    ensures
        -1 <= first_fit(rs, bytes) < rs.len(),
        first_fit(rs, bytes) >= 0 ==> rs[first_fit(rs, bytes)].usable && rs[first_fit(rs, bytes)].length >= bytes,
    decreases rs.len(),
{
    if rs.len() > 0 {
        lemma_first_fit(rs.drop_last(), bytes);
    }
}

/// Where the frame bitmap goes: it needs 8 bytes per 64 pages up to the
/// highest usable address, and is placed at the start of the first usable
/// region that can hold it. `None` when no usable region is big enough.
pub fn bitmap_plan(regions: &[MemoryRegion]) -> (r: Option<(u64, usize)>)
    requires
        map_in_range(regions@),
        bitmap_words(max_usable_end(regions@)) * 8 <= usize::MAX,
    ensures
        ({
            let bytes = bitmap_words(max_usable_end(regions@)) * 8;
            let k = first_fit(regions@, bytes);
            &&& k < 0 ==> r is None
            &&& k >= 0 ==> r == Some((regions@[k].base, bytes as usize))
            &&& r matches Some((start, b)) ==> start + b <= ADDRESS_LIMIT
        }),
{
    let n = regions.len();
    let mut max_end: u64 = 0;
    let mut i: usize = 0;
    while i < n
        invariant
            n == regions@.len(),
            i <= n,
            map_in_range(regions@),
            max_end == max_usable_end(regions@.take(i as int)),
        decreases n - i,
    {
        proof {
            assert(regions@.take(i as int + 1).drop_last() =~= regions@.take(i as int));
            assert(region_end(regions@[i as int]) <= ADDRESS_LIMIT);
        }
        let r = regions[i];
        if r.usable && r.base + r.length > max_end {
            max_end = r.base + r.length;
        }
        i = i + 1;
    }
    proof {
        assert(regions@.take(n as int) =~= regions@);
        lemma_max_usable_end(regions@);
    }
    let total_pages = (max_end + 4095) / 4096;
    let words64 = (total_pages + 63) / 64;
    let bytes64 = words64 * 8;
    let words = words64 as usize;
    let bytes = bytes64 as usize;
    let mut k: usize = 0;
    let mut found = false;
    let mut bm_start: u64 = 0;
    while k < n && !found
        invariant
            n == regions@.len(),
            k <= n,
            bytes == bytes64,
            map_in_range(regions@),
            !found ==> first_fit(regions@.take(k as int), bytes as int) == -1,
            found ==> k >= 1 && first_fit(regions@.take(k as int), bytes as int) == k - 1
                && bm_start == regions@[k - 1].base && bm_start + bytes64 <= ADDRESS_LIMIT,
        decreases n - k,
    {
        proof {
            assert(regions@.take(k as int + 1).drop_last() =~= regions@.take(k as int));
            assert(regions@.take(k as int + 1).last() == regions@[k as int]);
            assert(region_end(regions@[k as int]) <= ADDRESS_LIMIT);
        }
        let r = regions[k];
        if r.usable && r.length >= bytes64 {
            bm_start = r.base;
            found = true;
        }
        k = k + 1;
    }
    proof {
        lemma_first_fit(regions@, bytes as int);
    }
    if !found {
        proof {
            assert(regions@.take(n as int) =~= regions@);
        }
        return None;
    }
    proof {
        // the first fit of the whole map is the first fit of any prefix holding it
        assert(first_fit(regions@, bytes as int) == k - 1) by {
            lemma_first_fit_prefix(regions@, bytes as int, k as int);
        }
    }
    Some((bm_start, bytes))
}

/// Sets an empty allocator up from the memory map: a bitmap big enough for
/// the highest usable address is placed at the start of the first usable
/// region that can hold it, and the usable regions, less that bitmap, are
/// added. An allocator that already has frames is left alone. Gives the
/// physical address and size in bytes of the bitmap.
pub fn init_from_memory_map(alloc: &mut BuddyAllocator, regions: &[MemoryRegion]) -> (r: Option<(u64, usize)>)
    requires
        old(alloc).wf(),
        map_in_range(regions@),
        old(alloc)@.total == 0 ==> first_fit(regions@, bitmap_words(max_usable_end(regions@)) * 8) >= 0,
        bitmap_words(max_usable_end(regions@)) * 8 <= usize::MAX,
        old(alloc)@.total == 0 ==> add_regions(
            BuddyState { bitmap: Seq::new(bitmap_words(max_usable_end(regions@)) as nat, |i: int| 0u64), ..old(alloc)@ },
            regions@,
            regions@[first_fit(regions@, bitmap_words(max_usable_end(regions@)) * 8)].base as int,
            bitmap_words(max_usable_end(regions@)) * 8,
        ).total <= usize::MAX,
    ensures
        final(alloc).wf(),
        old(alloc)@.total != 0 ==> r is None && final(alloc)@ == old(alloc)@,
        old(alloc)@.total == 0 ==> {
            let words = bitmap_words(max_usable_end(regions@));
            let start = regions@[first_fit(regions@, words * 8)].base;
            &&& r == Some((start, (words * 8) as usize))
            &&& final(alloc)@ == add_regions(
                BuddyState { bitmap: Seq::new(words as nat, |i: int| 0u64), ..old(alloc)@ },
                regions@,
                start as int,
                words * 8,
            )
        },
{
    if alloc.total_frames() != 0 {
        return None;
    }
    let n = regions.len();
    let mut max_end: u64 = 0;
    let mut i: usize = 0;
    while i < n
        invariant
            n == regions@.len(),
            i <= n,
            map_in_range(regions@),
            max_end == max_usable_end(regions@.take(i as int)),
        decreases n - i,
    {
        proof {
            assert(regions@.take(i as int + 1).drop_last() =~= regions@.take(i as int));
            assert(region_end(regions@[i as int]) <= ADDRESS_LIMIT);
        }
        let r = regions[i];
        if r.usable && r.base + r.length > max_end {
            max_end = r.base + r.length;
        }
        i = i + 1;
    }
    proof {
        assert(regions@.take(n as int) =~= regions@);
        lemma_max_usable_end(regions@);
    }
    let total_pages = (max_end + 4095) / 4096;
    let words64 = (total_pages + 63) / 64;
    let bytes64 = words64 * 8;
    let words = words64 as usize;
    let bytes = bytes64 as usize;
    let mut k: usize = 0;
    let mut found = false;
    let mut bm_start: u64 = 0;
    while k < n && !found
        invariant
            n == regions@.len(),
            k <= n,
            bytes == bytes64,
            map_in_range(regions@),
            !found ==> first_fit(regions@.take(k as int), bytes as int) == -1,
            found ==> k >= 1 && first_fit(regions@.take(k as int), bytes as int) == k - 1
                && bm_start == regions@[k - 1].base && bm_start + bytes64 <= ADDRESS_LIMIT,
        decreases n - k,
    {
        proof {
            assert(regions@.take(k as int + 1).drop_last() =~= regions@.take(k as int));
            assert(regions@.take(k as int + 1).last() == regions@[k as int]);
            assert(region_end(regions@[k as int]) <= ADDRESS_LIMIT);
        }
        let r = regions[k];
        if r.usable && r.length >= bytes64 {
            bm_start = r.base;
            found = true;
        }
        k = k + 1;
    }
    proof {
        lemma_first_fit(regions@, bytes as int);
        assert(found) by {
            if !found {
                assert(regions@.take(n as int) =~= regions@);
            }
        }
        // the first fit of the whole map is the first fit of any prefix holding it
        assert(first_fit(regions@, bytes as int) == k - 1) by {
            lemma_first_fit_prefix(regions@, bytes as int, k as int);
        }
    }
    alloc.set_bitmap(words);
    let ghost base_state = alloc@;
    let mut j: usize = 0;
    while j < n
        invariant
            alloc.wf(),
            n == regions@.len(),
            j <= n,
            map_in_range(regions@),
            bm_start + bytes <= ADDRESS_LIMIT,
            bytes == bytes64,
            alloc@ == add_regions(base_state, regions@.take(j as int), bm_start as int, bytes as int),
            add_regions(base_state, regions@, bm_start as int, bytes as int).total <= usize::MAX,
        decreases n - j,
    {
        proof {
            assert(regions@.take(j as int + 1).drop_last() =~= regions@.take(j as int));
            assert(region_end(regions@[j as int]) <= ADDRESS_LIMIT);
        }
        let r = regions[j];
        if r.usable {
            let end = r.base + r.length;
            let start = if r.base < bm_start + bytes64 && end > bm_start && r.base == bm_start {
                r.base + bytes64
            } else {
                r.base
            };
            let a = crate::vmm::round_up(start) / 4096;
            let b = crate::vmm::round_down(end) / 4096;
            if a < b {
                proof {
                    lemma_add_regions_total_grows(base_state, regions@, bm_start as int, bytes as int, j as int + 1);
                    lemma_add_range_total(alloc@, a, b);
                }
                alloc.add_region(a, b);
            }
        }
        j = j + 1;
    }
    proof {
        assert(regions@.take(n as int) =~= regions@);
    }
    Some((bm_start, bytes))
}

proof fn lemma_first_fit_prefix(rs: Seq<MemoryRegion>, bytes: int, k: int)
    requires
        1 <= k <= rs.len(),
        first_fit(rs.take(k), bytes) == k - 1,
    ensures
        first_fit(rs, bytes) == k - 1,
    decreases rs.len(),
{
    if rs.len() == k {
        assert(rs.take(k) =~= rs);
    } else {
        assert(rs.drop_last().take(k) =~= rs.take(k));
        lemma_first_fit_prefix(rs.drop_last(), bytes, k);
    }
}

pub proof fn lemma_add_range_total(s: BuddyState, a: u64, b: u64)
    ensures
        s.add_range(a, b).total == s.total + (if b > a { b - a } else { 0 }),
    decreases b - a,
{
    if a < b {
        let t = BuddyState { total: s.total + 1, ..s };
        crate::buddy::lemma_merge_counts(t, a, 0);
        lemma_add_range_total(t.merge(a, 0), (a + 1) as u64, b);
    }
}

proof fn lemma_add_regions_total_grows(s: BuddyState, rs: Seq<MemoryRegion>, bs: int, bb: int, j: int)
    requires
        0 <= j <= rs.len(),
    ensures
        add_regions(s, rs.take(j), bs, bb).total <= add_regions(s, rs, bs, bb).total,
    decreases rs.len(),
{
    if j == rs.len() {
        assert(rs.take(j) =~= rs);
    } else {
        assert(rs.drop_last().take(j) =~= rs.take(j));
        lemma_add_regions_total_grows(s, rs.drop_last(), bs, bb, j);
        let prev = add_regions(s, rs.drop_last(), bs, bb);
        let (a, b) = region_frames(rs.last(), bs, bb);
        lemma_add_range_total(prev, a as u64, b as u64);
    }
}


/// The smallest order from `o` up whose blocks hold `count` frames (12 when none does).
pub open spec fn order_for(count: int, o: int) -> int
    decreases 12 - o,
{
    if o >= 12 || o < 0 || block(o as nat) >= count {
        o
    } else {
        order_for(count, o + 1)
    }
}

/// Allocating `count` contiguous frames: a block of the smallest order that
/// holds them, whose tail beyond `count` is freed again.
pub open spec fn contiguous_spec(s: BuddyState, count: int) -> (BuddyState, Option<u64>) {
    let o = order_for(count, 0);
    if count == 0 || o >= 12 {
        (s, None)
    } else {
        let (s1, r) = s.allocate(o);
        match r {
            None => (s1, None),
            Some(f) => if block(o as nat) > count {
                (s1.dealloc_range((f + count) as u64, (f + block(o as nat)) as u64), Some(f))
            } else {
                (s1, Some(f))
            },
        }
    }
}

proof fn lemma_order_for(count: int, o: int)
    requires
        0 <= o <= 12,
    ensures
        o <= order_for(count, o) <= 12,
        order_for(count, o) < 12 ==> block(order_for(count, o) as nat) >= count,
    decreases 12 - o,
{
    if o < 12 && block(o as nat) < count {
        lemma_order_for(count, o + 1);
    }
}

/// Allocates `count` contiguous frames (see [`contiguous_spec`]); none for
/// zero frames or more than the largest block.
pub fn allocate_contiguous(alloc: &mut BuddyAllocator, count: usize) -> (r: Option<u64>)
    requires
        old(alloc).wf(),
        old(alloc)@.used + 4096 <= usize::MAX,
    ensures
        final(alloc).wf(),
        (final(alloc)@, r) == contiguous_spec(old(alloc)@, count as int),
{
    if count == 0 {
        return None;
    }
    let mut order: usize = 0;
    proof {
        lemma_order_for(count as int, 0);
    }
    while order < 12 && crate::buddy::block_size(order) < count as u64
        invariant
            order <= 12,
            order_for(count as int, 0) == order_for(count as int, order as int),
        decreases 12 - order,
    {
        order = order + 1;
    }
    if order >= 12 {
        return None;
    }
    match alloc.allocate(order) {
        None => None,
        Some(f) => {
            let size = crate::buddy::block_size(order);
            proof {
                lemma_block_bounds(order as nat);
            }
            if size > count as u64 {
                alloc.dealloc_range(f + count as u64, f + size);
            }
            Some(f)
        },
    }
}

/// Frees one frame.
pub fn deallocate_frame(alloc: &mut BuddyAllocator, frame: u64)
    requires
        old(alloc).wf(),
        frame < FRAME_LIMIT,
    ensures
        final(alloc).wf(),
        final(alloc)@ == old(alloc)@.dealloc(frame, 0),
{
    proof {
        reveal_with_fuel(block, 1);
    }
    alloc.dealloc(frame, 0);
}

/// Frees `count` contiguous frames starting at `frame`.
pub fn deallocate_contiguous(alloc: &mut BuddyAllocator, frame: u64, count: usize)
    requires
        old(alloc).wf(),
        frame + count <= FRAME_LIMIT,
    ensures
        final(alloc).wf(),
        final(alloc)@ == old(alloc)@.dealloc_range(frame, (frame + count) as u64),
{
    alloc.dealloc_range(frame, frame + count as u64);
}

/// Frame statistics
#[derive(Debug, Clone, Copy, PartialEq, Eq, Structural)]
pub struct FrameStats {
    /// Total number of frames in the system
    pub total_frames: usize,
    /// Number of free frames
    pub free_frames: usize,
    /// Number of used frames
    pub used_frames: usize,
    /// Total memory in bytes
    pub total_memory: usize,
    /// Free memory in bytes
    pub free_memory: usize,
    /// Used memory in bytes
    pub used_memory: usize,
}

/// The allocator's counts, in frames and in bytes.
pub fn stats(alloc: &BuddyAllocator) -> (st: FrameStats)
    requires
        alloc@.used <= alloc@.total,
        alloc@.total * 4096 <= usize::MAX,
    ensures
        st.total_frames == alloc@.total,
        st.used_frames == alloc@.used,
        st.free_frames == alloc@.total - alloc@.used,
        st.total_memory == alloc@.total * 4096,
        st.used_memory == alloc@.used * 4096,
        st.free_memory == (alloc@.total - alloc@.used) * 4096,
{
    let total = alloc.total_frames();
    let used = alloc.used_frames();
    let free = alloc.free_frames();
    FrameStats {
        total_frames: total,
        free_frames: free,
        used_frames: used,
        total_memory: total * PAGE_SIZE,
        free_memory: free * PAGE_SIZE,
        used_memory: used * PAGE_SIZE,
    }
}

/// The value and unit index after dividing by 1024 while that leaves at
/// least 1 and a larger unit exists.
pub open spec fn scaled(n: nat, k: nat) -> (nat, nat)
    decreases n,
{
    if n >= 1024 && k < 4 {
        scaled(n / 1024, k + 1)
    } else {
        (n, k)
    }
}

pub open spec fn unit_name(k: nat) -> Seq<char> {
    if k == 0 {
        seq!['B']
    } else if k == 1 {
        seq!['K', 'i', 'B']
    } else if k == 2 {
        seq!['M', 'i', 'B']
    } else if k == 3 {
        seq!['G', 'i', 'B']
    } else {
        seq!['T', 'i', 'B']
    }
}

/// A byte count in the largest binary unit up to TiB that keeps it at least 1,
/// rounded down: `"<n> <unit>"`.
pub fn format_bytes(bytes: usize) -> (s: String)
    ensures
        s@ == decimal_digits(scaled(bytes as nat, 0).0) + seq![' '] + unit_name(scaled(bytes as nat, 0).1),
{
    let mut size = bytes;
    let mut unit_index: usize = 0;
    while size >= 1024 && unit_index < 4
        invariant
            unit_index <= 4,
            scaled(bytes as nat, 0) == scaled(size as nat, unit_index as nat),
        decreases size,
    {
        size = size / 1024;
        unit_index = unit_index + 1;
    }
    let mut out: Vec<char> = Vec::new();
    push_decimal(&mut out, size as u64);
    out.push(' ');
    let ghost before_unit = out@;
    if unit_index == 0 {
        out.push('B');
    } else {
        if unit_index == 1 {
            out.push('K');
        } else if unit_index == 2 {
            out.push('M');
        } else if unit_index == 3 {
            out.push('G');
        } else {
            out.push('T');
        }
        out.push('i');
        out.push('B');
    }
    proof {
        assert(out@ =~= decimal_digits(size as nat) + seq![' '] + unit_name(unit_index as nat));
    }
    string_from_chars(&out)
}


/// Whether frame `pfn` is marked used in a byte bitmap (frames past the end
/// count as used).
pub open spec fn frame_used(bm: Seq<u8>, pfn: int) -> bool {
    pfn < 0 || pfn / 8 >= bm.len() || (bm[pfn / 8] >> ((pfn % 8) as u8)) & 1u8 == 1u8
}

/// Whether a reserved (not free) region of the map covers frame `pfn`.
pub open spec fn reserved_covers(r: MemoryRegion, pfn: int) -> bool {
    !r.usable && r.base / 4096 <= pfn < r.base / 4096 + r.length / 4096
}

/// Frames below 50 MiB are never handed out.
pub const LOW_RESERVED_FRAMES: usize = 12800;

proof fn lemma_bit_ops(b: u8, i: u8, j: u8)
    requires
        i < 8,
        j < 8,
    ensures
        ((b | (1u8 << i)) >> i) & 1u8 == 1u8,
        ((b & !(1u8 << i)) >> i) & 1u8 == 0u8,
        i != j ==> ((b | (1u8 << i)) >> j) & 1u8 == (b >> j) & 1u8,
        i != j ==> ((b & !(1u8 << i)) >> j) & 1u8 == (b >> j) & 1u8,
        (0u8 >> j) & 1u8 == 0u8,
        (b >> j) & 1u8 == 0u8 || (b >> j) & 1u8 == 1u8,
{
    assert(((b | (1u8 << i)) >> i) & 1u8 == 1u8) by (bit_vector)
        requires
            i < 8,
    ;
    assert(((b & !(1u8 << i)) >> i) & 1u8 == 0u8) by (bit_vector)
        requires
            i < 8,
    ;
    assert(i != j ==> ((b | (1u8 << i)) >> j) & 1u8 == (b >> j) & 1u8) by (bit_vector)
        requires
            i < 8,
            j < 8,
    ;
    assert(i != j ==> ((b & !(1u8 << i)) >> j) & 1u8 == (b >> j) & 1u8) by (bit_vector)
        requires
            i < 8,
            j < 8,
    ;
    assert((0u8 >> j) & 1u8 == 0u8) by (bit_vector);
    assert((b >> j) & 1u8 == 0u8 || (b >> j) & 1u8 == 1u8) by (bit_vector);
}

/// A frame allocator with one bit per frame: the first free frame below the
/// highest address of the memory map is handed out.
pub struct FrameAlloc {
    bitmap: Vec<u8>,
    max_page: usize,
}

impl FrameAlloc {
    pub closed spec fn bits(&self) -> Seq<u8> {
        self.bitmap@
    }

    pub closed spec fn spec_max_page(&self) -> usize {
        self.max_page
    }

    /// An allocator over a bitmap of `bytes` bytes, all frames free, none below the limit yet.
    pub fn new(bytes: usize) -> (a: Self)
        ensures
            a.bits() == Seq::new(bytes as nat, |i: int| 0u8),
            a.spec_max_page() == 0,
    {
        let mut bitmap: Vec<u8> = Vec::new();
        let mut i: usize = 0;
        while i < bytes
            invariant
                i <= bytes,
                bitmap@ == Seq::new(i as nat, |k: int| 0u8),
            decreases bytes - i,
        {
            bitmap.push(0);
            i = i + 1;
            proof {
                assert(bitmap@ =~= Seq::new(i as nat, |k: int| 0u8));
            }
        }
        FrameAlloc { bitmap, max_page: 0 }
    }

    /// Marks frame `pfn` used (1) or free (0); other values, and frames past
    /// the bitmap, are ignored.
    pub fn set_bit(&mut self, pfn: usize, value: u8)
        ensures
            final(self).spec_max_page() == old(self).spec_max_page(),
            final(self).bits().len() == old(self).bits().len(),
            forall|q: int|
                q != pfn ==> #[trigger] frame_used(final(self).bits(), q) == frame_used(old(self).bits(), q),
            (value == 0 || value == 1) && pfn / 8 < old(self).bits().len() ==> frame_used(
                final(self).bits(),
                pfn as int,
            ) == (value == 1),
            !(value == 0 || value == 1) ==> final(self).bits() == old(self).bits(),
    {
        let byte_idx = pfn / 8;
        let bit_idx = (pfn % 8) as u8;
        if byte_idx >= self.bitmap.len() {
            return;
        }
        let b = self.bitmap[byte_idx];
        if value == 0 {
            self.bitmap.set(byte_idx, b & !(1u8 << bit_idx));
        } else if value == 1 {
            self.bitmap.set(byte_idx, b | (1u8 << bit_idx));
        } else {
            return;
        }
        proof {
            assert forall|q: int| q != pfn implies #[trigger] frame_used(self.bits(), q) == frame_used(
                old(self).bits(),
                q,
            ) by {
                if q >= 0 && q / 8 == byte_idx {
                    assert(q % 8 != pfn % 8);
                    lemma_bit_ops(b, bit_idx, (q % 8) as u8);
                }
            }
            lemma_bit_ops(b, bit_idx, bit_idx);
        }
    }

    /// 1 when frame `pfn` is used (or past the bitmap), else 0.
    pub fn get_bit(&self, pfn: usize) -> (v: u8)
        ensures
            v == (if frame_used(self.bits(), pfn as int) { 1u8 } else { 0u8 }),
    {
        let byte_idx = pfn / 8;
        let bit_idx = (pfn % 8) as u8;
        if byte_idx >= self.bitmap.len() {
            return 1;
        }
        let v = (self.bitmap[byte_idx] >> bit_idx) & 1;
        proof {
            lemma_bit_ops(self.bitmap@[byte_idx as int], bit_idx, bit_idx);
        }
        v
    }

    /// Hands out the lowest free frame below the limit, marking it used;
    /// gives its physical address.
    pub fn allocate_frame(&mut self) -> (r: Option<u64>)
        requires
            old(self).spec_max_page() < 0x10_0000_0000_0000,
        ensures
            final(self).spec_max_page() == old(self).spec_max_page(),
            match r {
                Some(addr) => exists|pfn: int|
                    0 <= pfn < old(self).spec_max_page() && addr == pfn * 4096 && !frame_used(old(self).bits(), pfn)
                        && (forall|q: int| 0 <= q < pfn ==> #[trigger] frame_used(old(self).bits(), q))
                        && frame_used(final(self).bits(), pfn)
                        && (forall|q: int| q != pfn ==> #[trigger] frame_used(final(self).bits(), q) == frame_used(old(self).bits(), q)),
                None => final(self).bits() == old(self).bits() && forall|q: int|
                    0 <= q < old(self).spec_max_page() ==> #[trigger] frame_used(old(self).bits(), q),
            },
    {
        let mut pfn: usize = 0;
        while pfn < self.max_page
            invariant
                self.bitmap@ == old(self).bitmap@,
                self.max_page == old(self).max_page,
                self.max_page < 0x10_0000_0000_0000,
                pfn <= self.max_page,
                forall|q: int| 0 <= q < pfn ==> #[trigger] frame_used(self.bits(), q),
            decreases self.max_page - pfn,
        {
            if self.get_bit(pfn) == 0 {
                self.set_bit(pfn, 1);
                let addr = (pfn as u64) * 4096;
                proof {
                    assert(pfn / 8 < old(self).bits().len());
                    assert(0 <= pfn < old(self).spec_max_page() && addr == pfn * 4096 && !frame_used(
                        old(self).bits(),
                        pfn as int,
                    ));
                }
                return Some(addr);
            }
            pfn = pfn + 1;
        }
        None
    }

    /// Marks the frame of a physical address free again.
    pub fn deallocate_frame(&mut self, addr: u64)
        requires
            addr / 4096 <= usize::MAX,
        ensures
            final(self).spec_max_page() == old(self).spec_max_page(),
            forall|q: int|
                q != (addr / 4096) as int ==> #[trigger] frame_used(final(self).bits(), q) == frame_used(old(self).bits(), q),
            (addr / 4096) / 8 < old(self).bits().len() ==> !frame_used(final(self).bits(), (addr / 4096) as int),
    {
        let pfn = (addr >> 12) as usize;
        assert(addr >> 12 == addr / 4096) by (bit_vector);
        self.set_bit(pfn, 0);
    }

    /// Sets the allocator up from the memory map: frames up to the map's
    /// highest address are managed; frames of reserved regions and the frames
    /// below 50 MiB are marked used, every other frame free.
    pub fn init(&mut self, map: &[MemoryRegion])
        requires
            map@.len() > 0,
            map_in_range(map@),
            max_end(map@) / 4096 <= usize::MAX,
            forall|i: int|
                0 <= i < map@.len() ==> (#[trigger] map@[i]).base / 4096 + map@[i].length / 4096
                    <= usize::MAX,
        ensures
            final(self).spec_max_page() == max_end(map@) / 4096,
            final(self).bits().len() == old(self).bits().len(),
            forall|pfn: int|
                0 <= pfn < 8 * old(self).bits().len() ==> #[trigger] frame_used(final(self).bits(), pfn)
                    == (pfn < LOW_RESERVED_FRAMES || exists|i: int|
                    0 <= i < map@.len() && reserved_covers(#[trigger] map@[i], pfn)),
    {
        let n = map.len();
        let mut max_phys: u64 = 0;
        let mut i: usize = 0;
        while i < n
            invariant
                n == map@.len(),
                i <= n,
                map_in_range(map@),
                max_phys == max_end(map@.take(i as int)),
            decreases n - i,
        {
            proof {
                assert(map@.take(i as int + 1).drop_last() =~= map@.take(i as int));
                assert(region_end(map@[i as int]) <= ADDRESS_LIMIT);
            }
            let e = map[i].base + map[i].length;
            if e > max_phys {
                max_phys = e;
            }
            i = i + 1;
        }
        proof {
            assert(map@.take(n as int) =~= map@);
            lemma_max_end(map@);
        }
        self.max_page = (max_phys / 4096) as usize;
        let len = self.bitmap.len();
        let mut k: usize = 0;
        while k < len
            invariant
                len == self.bitmap@.len(),
                self.max_page == max_end(map@) / 4096,
                k <= len,
                forall|b: int| 0 <= b < k ==> self.bitmap@[b] == 0u8,
            decreases len - k,
        {
            self.bitmap.set(k, 0);
            k = k + 1;
        }
        proof {
            assert forall|pfn: int| 0 <= pfn < 8 * len implies !#[trigger] frame_used(self.bits(), pfn) by {
                lemma_bit_ops(0u8, 0, (pfn % 8) as u8);
            }
        }
        let mut j: usize = 0;
        while j < n
            invariant
                n == map@.len(),
                j <= n,
                len == self.bitmap@.len(),
                self.max_page == max_end(map@) / 4096,
                map_in_range(map@),
                forall|i: int|
                    0 <= i < map@.len() ==> (#[trigger] map@[i]).base / 4096 + map@[i].length / 4096
                        <= usize::MAX,
                forall|pfn: int|
                    0 <= pfn < 8 * len ==> #[trigger] frame_used(self.bits(), pfn) == exists|i: int|
                        0 <= i < j && reserved_covers(#[trigger] map@[i], pfn),
            decreases n - j,
        {
            let r = map[j];
            if !r.usable {
                proof {
                    assert(map@[j as int].base / 4096 + map@[j as int].length / 4096 <= usize::MAX);
                }
                let start = (r.base / 4096) as usize;
                let count = (r.length / 4096) as usize;
                proof {
                    assert(map@[j as int].base / 4096 + map@[j as int].length / 4096 <= usize::MAX);
                }
                let mut pfn = start;
                while pfn < start + count
                    invariant
                        n == map@.len(),
                        j < n,
                        r == map@[j as int],
                        !r.usable,
                        start == r.base / 4096,
                        count == r.length / 4096,
                        start + count <= usize::MAX,
                        start <= pfn,
                        pfn <= start + count || pfn == start,
                        len == self.bitmap@.len(),
                        self.max_page == max_end(map@) / 4096,
                        forall|q: int|
                            0 <= q < 8 * len ==> #[trigger] frame_used(self.bits(), q) == ((exists|i: int|
                                0 <= i < j && reserved_covers(#[trigger] map@[i], q)) || (start <= q < pfn)),
                    decreases start + count - pfn,
                {
                    self.set_bit(pfn, 1);
                    pfn = pfn + 1;
                }
                proof {
                    assert forall|q: int| 0 <= q < 8 * len implies #[trigger] frame_used(self.bits(), q)
                        == exists|i: int| 0 <= i < j + 1 && reserved_covers(#[trigger] map@[i], q) by {
                        if start <= q < start + count {
                            assert(reserved_covers(map@[j as int], q));
                        }
                        if exists|i: int| 0 <= i < j + 1 && reserved_covers(#[trigger] map@[i], q) {
                            let i = choose|i: int| 0 <= i < j + 1 && reserved_covers(#[trigger] map@[i], q);
                            if i < j {
                                assert(exists|i: int| 0 <= i < j && reserved_covers(#[trigger] map@[i], q));
                            }
                        }
                    }
                }
            } else {
                proof {
                    assert forall|q: int| 0 <= q < 8 * len implies #[trigger] frame_used(self.bits(), q)
                        == exists|i: int| 0 <= i < j + 1 && reserved_covers(#[trigger] map@[i], q) by {
                        if exists|i: int| 0 <= i < j + 1 && reserved_covers(#[trigger] map@[i], q) {
                            let i = choose|i: int| 0 <= i < j + 1 && reserved_covers(#[trigger] map@[i], q);
                            assert(i != j);
                            assert(exists|i: int| 0 <= i < j && reserved_covers(#[trigger] map@[i], q));
                        }
                    }
                }
            }
            j = j + 1;
        }
        let mut low: usize = 0;
        while low < LOW_RESERVED_FRAMES
            invariant
                low <= LOW_RESERVED_FRAMES,
                n == map@.len(),
                len == self.bitmap@.len(),
                self.max_page == max_end(map@) / 4096,
                forall|q: int|
                    0 <= q < 8 * len ==> #[trigger] frame_used(self.bits(), q) == ((exists|i: int|
                        0 <= i < n && reserved_covers(#[trigger] map@[i], q)) || q < low),
            decreases LOW_RESERVED_FRAMES - low,
        {
            self.set_bit(low, 1);
            low = low + 1;
        }
    }
}

/// The highest end of any region of the map.
pub open spec fn max_end(rs: Seq<MemoryRegion>) -> int
    decreases rs.len(),
{
    if rs.len() == 0 {
        0
    } else {
        let m = max_end(rs.drop_last());
        if region_end(rs.last()) > m {
            region_end(rs.last())
        } else {
            m
        }
    }
}

proof fn lemma_max_end(rs: Seq<MemoryRegion>)
    requires
        map_in_range(rs),
    ensures
        0 <= max_end(rs) <= ADDRESS_LIMIT,
    decreases rs.len(),
{
    if rs.len() > 0 {
        lemma_max_end(rs.drop_last());
        assert(region_end(rs[rs.len() - 1]) <= ADDRESS_LIMIT);
    }
}

} // verus!
