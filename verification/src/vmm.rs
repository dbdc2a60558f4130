//! Virtual memory areas of the kernel, and the address planning of the ELF
//! loader's memory mapper.
//!
//! Page-table flags are the bits of an x86-64 page-table entry.

use vstd::prelude::*;

verus! {

pub const PAGE_SIZE: u64 = 4096;

/// Entry bit: the page is mapped.
pub const PRESENT: u64 = 0x1;

/// Entry bit: the page may be written.
pub const WRITABLE: u64 = 0x2;

/// Entry bit: the page is kept across address-space switches.
pub const GLOBAL: u64 = 0x100;

/// Entry bit: code may not run from the page.
pub const NO_EXECUTE: u64 = 0x8000_0000_0000_0000;

/// Errors of the memory subsystem.
#[derive(Debug, Clone, Copy, PartialEq, Eq, Structural)]
pub enum MemoryError {
    /// Out of physical memory (no free frames)
    FrameAllocationFailed,
    /// Page table mapping failed
    MappingFailed,
    /// Address is not aligned as expected
    AlignmentError,
    /// Memory area overlap detected
    AreaOverlap,
    /// Requested memory area not found
    AreaNotFound,
    /// Heap expansion failed
    HeapExpansionFailed,
    /// Invalid layout provided for allocation/deallocation
    InvalidLayout,
}

/// Type of virtual memory area
#[derive(Debug, Clone, Copy, PartialEq, Eq, Structural)]
pub enum VmAreaType {
    KernelText,
    KernelRodata,
    KernelData,
    KernelBss,
    KernelHeap,
}

impl VmAreaType {
    pub open spec fn spec_default_flags(self) -> u64 {
        match self {
            VmAreaType::KernelText => PRESENT,
            VmAreaType::KernelRodata => PRESENT | NO_EXECUTE,
            _ => PRESENT | WRITABLE | NO_EXECUTE,
        }
    }

    /// The flags that an area of this type is mapped with: text is only
    /// present, read-only data cannot run, the rest is writable and cannot run.
    pub fn default_flags(&self) -> (f: u64)
        ensures
            f == self.spec_default_flags(),
    {
        match self {
            VmAreaType::KernelText => PRESENT,
            VmAreaType::KernelRodata => PRESENT | NO_EXECUTE,
            VmAreaType::KernelData | VmAreaType::KernelBss | VmAreaType::KernelHeap => PRESENT
                | WRITABLE | NO_EXECUTE,
        }
    }

    /// The short name of this type.
    pub fn name(&self) -> (s: &'static str)
        ensures
            *self == VmAreaType::KernelText ==> s@ == "ktext"@,
            *self == VmAreaType::KernelRodata ==> s@ == "krodata"@,
            *self == VmAreaType::KernelData ==> s@ == "kdata"@,
            *self == VmAreaType::KernelBss ==> s@ == "kbss"@,
            *self == VmAreaType::KernelHeap ==> s@ == "kheap"@,
    {
        match self {
            VmAreaType::KernelText => "ktext",
            VmAreaType::KernelRodata => "krodata",
            VmAreaType::KernelData => "kdata",
            VmAreaType::KernelBss => "kbss",
            VmAreaType::KernelHeap => "kheap",
        }
    }
}

pub open spec fn align_down(a: int) -> int {
    a - a % 4096
}

pub open spec fn align_up(a: int) -> int {
    if a % 4096 == 0 {
        a
    } else {
        a - a % 4096 + 4096
    }
}

/// `a` rounded down to a page boundary.
pub fn round_down(a: u64) -> (r: u64)
    ensures
        r == align_down(a as int),
{
    let r = a & !0xFFFu64;
    assert(r == a - a % 4096) by (bit_vector)
        requires
            r == a & !0xFFFu64,
    ;
    r
}

/// `a` rounded up to a page boundary.
pub fn round_up(a: u64) -> (r: u64)
    requires
        a <= u64::MAX - 4095,
    ensures
        r == align_up(a as int),
{
    let b = a + 0xFFF;
    let r = b & !0xFFFu64;
    assert(r == (if a % 4096 == 0 { a as int } else { a - a % 4096 + 4096 })) by (bit_vector)
        requires
            r == b & !0xFFFu64,
            b == a + 0xFFF,
            a <= 0xFFFF_FFFF_FFFF_F000,
    ;
    r
}

/// A contiguous range of virtual memory `[start, end)` with its flags.
#[derive(Debug, Clone, Copy, PartialEq, Eq, Structural)]
pub struct VmArea {
    pub start: u64,
    pub end: u64,
    pub flags: u64,
    pub area_type: VmAreaType,
}

impl VmArea {
    /// An area from `start` rounded down to a page boundary to `end` rounded
    /// up to one.
    pub fn new(start: u64, end: u64, flags: u64, area_type: VmAreaType) -> (a: Self)
        requires
            end <= u64::MAX - 4095,
            align_down(start as int) < align_up(end as int),
        ensures
            a.start == align_down(start as int),
            a.end == align_up(end as int),
            a.flags == flags,
            a.area_type == area_type,
    {
        let s = round_down(start);
        let e = round_up(end);
        VmArea { start: s, end: e, flags, area_type }
    }
}


impl VmArea {
    /// An area with the default flags of its type.
    pub fn new_with_type(start: u64, end: u64, area_type: VmAreaType) -> (a: Self)
        requires
            end <= u64::MAX - 4095,
            align_down(start as int) < align_up(end as int),
        ensures
            a.start == align_down(start as int),
            a.end == align_up(end as int),
            a.flags == area_type.spec_default_flags(),
            a.area_type == area_type,
    {
        let flags = area_type.default_flags();
        Self::new(start, end, flags, area_type)
    }

    /// The name of this area's type.
    pub fn name(&self) -> (s: &'static str)
        ensures
            self.area_type == VmAreaType::KernelText ==> s@ == "ktext"@,
            self.area_type == VmAreaType::KernelRodata ==> s@ == "krodata"@,
            self.area_type == VmAreaType::KernelData ==> s@ == "kdata"@,
            self.area_type == VmAreaType::KernelBss ==> s@ == "kbss"@,
            self.area_type == VmAreaType::KernelHeap ==> s@ == "kheap"@,
    {
        self.area_type.name()
    }

    pub open spec fn spec_contains(self, addr: u64) -> bool {
        self.start <= addr < self.end
    }

    pub open spec fn spec_overlaps(self, other: VmArea) -> bool {
        self.start < other.end && other.start < self.end
    }

    /// Whether `addr` lies in the area.
    pub fn contains(&self, addr: u64) -> (b: bool)
        ensures
            b == self.spec_contains(addr),
    {
        addr >= self.start && addr < self.end
    }

    /// Whether the two areas share an address.
    pub fn overlaps(&self, other: &VmArea) -> (b: bool)
        ensures
            b == self.spec_overlaps(*other),
    {
        self.start < other.end && other.start < self.end
    }

    /// The size of the area in bytes.
    pub fn size(&self) -> (n: u64)
        requires
            self.start <= self.end,
        ensures
            n == self.end - self.start,
    {
        self.end - self.start
    }
}

/// Areas in order of their start address.
pub open spec fn sorted_by_start(s: Seq<VmArea>) -> bool {
    forall|a: int, b: int| 0 <= a < b < s.len() ==> s[a].start <= s[b].start
}

proof fn lemma_swap_keeps_multiset(s: Seq<VmArea>, j: int)
    requires
        0 < j < s.len(),
    ensures
        s.update(j - 1, s[j]).update(j, s[j - 1]).to_multiset() == s.to_multiset(),
{
    broadcast use vstd::seq_lib::to_multiset_update;
    broadcast use vstd::multiset::group_multiset_axioms;

    broadcast use vstd::seq_lib::to_multiset_contains;

    let a = s[j - 1];
    let b = s[j];
    let m = s.to_multiset();
    let s1 = s.update(j - 1, b);
    assert(s1[j] == b);
    assert(s.contains(a));
    assert(m.count(a) > 0);
    let m1 = m.insert(b).remove(a);
    assert(s1.to_multiset() == m1);
    assert(m1.count(b) > 0) by {
        if a == b {
        } else {
        }
    }
    assert(s1.update(j, a).to_multiset() == m1.insert(a).remove(b));
    assert(m1.insert(a).remove(b) =~= m);
}

/// No two areas at different positions share an address.
pub open spec fn pairwise_disjoint(s: Seq<VmArea>) -> bool {
    forall|a: int, b: int|
        0 <= a < s.len() && 0 <= b < s.len() && a != b ==> !(#[trigger] s[a]).spec_overlaps(
            #[trigger] s[b],
        )
}

/// Two positions of a sequence are two positions of any rearrangement of it.
proof fn lemma_two_positions<T>(p: Seq<T>, q: Seq<T>, i: int, j: int) -> (ab: (int, int))
    requires
        p.to_multiset() == q.to_multiset(),
        0 <= i < q.len(),
        0 <= j < q.len(),
        i != j,
    ensures
        0 <= ab.0 < p.len(),
        0 <= ab.1 < p.len(),
        ab.0 != ab.1,
        p[ab.0] == q[i],
        p[ab.1] == q[j],
{
    broadcast use vstd::seq_lib::to_multiset_contains;
    broadcast use vstd::seq_lib::to_multiset_remove;

    assert(q.contains(q[i]));
    assert(p.to_multiset().count(q[i]) > 0);
    let a = choose|a: int| 0 <= a < p.len() && p[a] == q[i];
    let pr = p.remove(a);
    let qr = q.remove(i);
    assert(pr.to_multiset() == qr.to_multiset());
    let jj = if j < i { j } else { j - 1 };
    assert(qr[jj] == q[j]);
    assert(qr.contains(q[j]));
    assert(pr.to_multiset().count(q[j]) > 0);
    let c = choose|c: int| 0 <= c < pr.len() && pr[c] == q[j];
    let b = if c < a { c } else { c + 1 };
    assert(p[b] == pr[c]);
    (a, b)
}

/// Adding an area that overlaps none of a disjoint set, in any order, leaves
/// a disjoint set.
proof fn lemma_insert_keeps_disjoint(before: Seq<VmArea>, area: VmArea, after: Seq<VmArea>)
    requires
        pairwise_disjoint(before),
        forall|i: int| 0 <= i < before.len() ==> !(#[trigger] before[i]).spec_overlaps(area),
        after.to_multiset() == before.push(area).to_multiset(),
    ensures
        pairwise_disjoint(after),
{
    let p = before.push(area);
    assert forall|a: int, b: int|
        0 <= a < after.len() && 0 <= b < after.len() && a != b implies !(
        #[trigger] after[a]).spec_overlaps(#[trigger] after[b]) by {
        let (x, y) = lemma_two_positions(p, after, a, b);
        if x < before.len() && y < before.len() {
            assert(p[x] == before[x] && p[y] == before[y]);
        } else if x < before.len() {
            assert(p[x] == before[x]);
        } else {
            assert(p[y] == before[y]);
        }
    }
}

/// Sorts areas by start address, stably.
fn sort_areas(v: &mut Vec<VmArea>)
    ensures
        final(v)@.len() == old(v)@.len(),
        final(v)@.to_multiset() == old(v)@.to_multiset(),
        sorted_by_start(final(v)@),
{
    let n = v.len();
    let mut i: usize = 1;
    if n == 0 {
        return;
    }
    while i < n
        invariant
            1 <= i <= n,
            n == v@.len(),
            v@.to_multiset() == old(v)@.to_multiset(),
            sorted_by_start(v@.take(i as int)),
        decreases n - i,
    {
        let mut j = i;
        proof {
            assert forall|a: int, b: int| 0 <= a < b <= i && a != j && b != j implies v@[a].start
                <= v@[b].start by {
                assert(v@.take(i as int)[a] == v@[a]);
                assert(v@.take(i as int)[b] == v@[b]);
            }
        }
        while j > 0 && v[j - 1].start > v[j].start
            invariant
                0 <= j <= i < n,
                n == v@.len(),
                v@.to_multiset() == old(v)@.to_multiset(),
                forall|a: int, b: int|
                    0 <= a < b <= i && a != j && b != j ==> v@[a].start <= v@[b].start,
                forall|k: int| j < k <= i ==> v@[j as int].start < v@[k].start,
            decreases j,
        {
            proof {
                lemma_swap_keeps_multiset(v@, j as int);
            }
            let a = v[j - 1];
            let b = v[j];
            v.set(j - 1, b);
            v.set(j, a);
            j = j - 1;
        }
        proof {
            assert forall|a: int, b: int| 0 <= a < b < i + 1 implies (#[trigger] v@.take(
                i as int + 1,
            )[a]).start <= (#[trigger] v@.take(i as int + 1)[b]).start by {
                if a != j && b != j {
                } else if b == j {
                    if a < j - 1 {
                        assert(v@[a].start <= v@[j - 1].start);
                    }
                } else {
                }
            }
        }
        i = i + 1;
    }
    proof {
        assert(v@.take(n as int) =~= v@);
    }
}

/// The kernel's virtual memory areas (the page table itself is handled by
/// the caller).
pub struct MemorySet {
    pub areas: Vec<VmArea>,
}

impl MemorySet {
    pub fn new() -> (m: Self)
        ensures
            m.areas@ == Seq::<VmArea>::empty(),
    {
        MemorySet { areas: Vec::new() }
    }

    /// Adds an area, unless it overlaps one already there; the areas are
    /// then kept in order of their start.
    pub fn insert_area(&mut self, area: VmArea) -> (r: Result<(), MemoryError>)
        ensures
            (exists|i: int| 0 <= i < old(self).areas@.len() && (#[trigger] old(self).areas@[i]).spec_overlaps(area))
                ==> r == Err::<(), MemoryError>(MemoryError::AreaOverlap) && final(self).areas@ == old(self).areas@,
            (forall|i: int| 0 <= i < old(self).areas@.len() ==> !(#[trigger] old(self).areas@[i]).spec_overlaps(area))
                ==> r is Ok
                && final(self).areas@.to_multiset() == old(self).areas@.push(area).to_multiset()
                && final(self).areas@.len() == old(self).areas@.len() + 1
                && sorted_by_start(final(self).areas@),
            pairwise_disjoint(old(self).areas@) ==> pairwise_disjoint(final(self).areas@),
    {
        let mut i: usize = 0;
        while i < self.areas.len()
            invariant
                i <= self.areas@.len(),
                self.areas@ == old(self).areas@,
                forall|k: int| 0 <= k < i ==> !(#[trigger] self.areas@[k]).spec_overlaps(area),
            decreases self.areas@.len() - i,
        {
            if self.areas[i].overlaps(&area) {
                return Err(MemoryError::AreaOverlap);
            }
            i = i + 1;
        }
        let ghost before = self.areas@;
        self.areas.push(area);
        sort_areas(&mut self.areas);
        proof {
            if pairwise_disjoint(before) {
                lemma_insert_keeps_disjoint(before, area, self.areas@);
            }
        }
        Ok(())
    }

    /// The position of the first area that contains `addr`.
    pub fn find_area(&self, addr: u64) -> (r: Option<usize>)
        ensures
            match r {
                Some(i) => i < self.areas@.len() && self.areas@[i as int].spec_contains(addr)
                    && forall|k: int| 0 <= k < i ==> !(#[trigger] self.areas@[k]).spec_contains(addr),
                None => forall|k: int| 0 <= k < self.areas@.len() ==> !(#[trigger] self.areas@[k]).spec_contains(addr),
            },
    {
        let mut i: usize = 0;
        while i < self.areas.len()
            invariant
                i <= self.areas@.len(),
                forall|k: int| 0 <= k < i ==> !(#[trigger] self.areas@[k]).spec_contains(addr),
            decreases self.areas@.len() - i,
        {
            if self.areas[i].contains(addr) {
                return Some(i);
            }
            i = i + 1;
        }
        None
    }

    /// Grows the first heap area to cover `[start, end)`; with no heap area,
    /// adds one (writable, not executable) from `start` to `end`.
    pub fn expand_heap(&mut self, start: u64, end: u64) -> (r: Result<(), MemoryError>)
        requires
            end <= u64::MAX - 4095,
            align_down(start as int) < align_up(end as int),
        ensures
            ({
                let old_areas = old(self).areas@;
                let heap = |a: VmArea| a.area_type == VmAreaType::KernelHeap;
                if exists|i: int| 0 <= i < old_areas.len() && heap(#[trigger] old_areas[i]) {
                    let i = choose|i: int|
                        0 <= i < old_areas.len() && heap(#[trigger] old_areas[i]) && forall|k: int|
                            0 <= k < i ==> !heap(#[trigger] old_areas[k]);
                    let a = old_areas[i];
                    &&& r is Ok
                    &&& final(self).areas@ == old_areas.update(
                        i,
                        VmArea {
                            start: if start < a.start { start } else { a.start },
                            end: if end > a.end { end } else { a.end },
                            ..a
                        },
                    )
                } else {
                    let new_area = VmArea {
                        start: align_down(start as int) as u64,
                        end: align_up(end as int) as u64,
                        flags: PRESENT | WRITABLE | NO_EXECUTE,
                        area_type: VmAreaType::KernelHeap,
                    };
                    &&& (exists|k: int| 0 <= k < old_areas.len() && (#[trigger] old_areas[k]).spec_overlaps(new_area))
                        ==> r == Err::<(), MemoryError>(MemoryError::AreaOverlap) && final(self).areas@ == old_areas
                    &&& (forall|k: int| 0 <= k < old_areas.len() ==> !(#[trigger] old_areas[k]).spec_overlaps(new_area))
                        ==> r is Ok && final(self).areas@.to_multiset() == old_areas.push(new_area).to_multiset()
                        && final(self).areas@.len() == old_areas.len() + 1 && sorted_by_start(final(self).areas@)
                }
            }),
    {
        let mut i: usize = 0;
        while i < self.areas.len()
            invariant
                i <= self.areas@.len(),
                self.areas@ == old(self).areas@,
                forall|k: int| 0 <= k < i ==> (#[trigger] self.areas@[k]).area_type != VmAreaType::KernelHeap,
            decreases self.areas@.len() - i,
        {
            if self.areas[i].area_type == VmAreaType::KernelHeap {
                let mut a = self.areas[i];
                if start < a.start {
                    a.start = start;
                }
                if end > a.end {
                    a.end = end;
                }
                self.areas.set(i, a);
                proof {
                    let old_areas = old(self).areas@;
                    let heap = |a: VmArea| a.area_type == VmAreaType::KernelHeap;
                    let c = choose|c: int|
                        0 <= c < old_areas.len() && heap(#[trigger] old_areas[c]) && forall|k: int|
                            0 <= k < c ==> !heap(#[trigger] old_areas[k]);
                    assert(0 <= i < old_areas.len() && heap(old_areas[i as int]) && forall|k: int|
                            0 <= k < i ==> !heap(#[trigger] old_areas[k]));
                    if c < i {
                        assert(!heap(old_areas[c]));
                    } else if c > i {
                        assert(!heap(old_areas[i as int]));
                    }
                }
                return Ok(());
            }
            i = i + 1;
        }
        let area = VmArea::new(start, end, PRESENT | WRITABLE | NO_EXECUTE, VmAreaType::KernelHeap);
        self.insert_area(area)
    }
}


/// Start of the kernel address range that ELF images are placed in.
pub const KERNEL_ELF_REGION_START: u64 = 0xffff_ffff_8100_0000;

/// Size of that range (256 MiB).
pub const KERNEL_ELF_REGION_SIZE: u64 = 0x1000_0000;

/// Why the ELF loader's memory mapper refused a request.
#[derive(Debug, Clone, Copy, PartialEq, Eq, Structural)]
pub enum MmapError {
    /// File-backed mappings are not supported.
    FileBacked,
    /// A mapping of zero bytes was asked for.
    ZeroLength,
    /// The ELF range has no room left.
    RegionExhausted,
    /// A null address or a zero length was given to unmap or protect.
    InvalidArguments,
}

/// Page-table flags for the protection an ELF segment asks for: always
/// present, writable when asked, not executable unless asked.
pub fn prot_to_flags(write: bool, exec: bool) -> (f: u64)
    ensures
        f == (PRESENT | (if write { WRITABLE } else { 0 }) | (if exec { 0 } else { NO_EXECUTE })),
{
    let writable = if write { WRITABLE } else { 0 };
    let no_execute = if exec { 0 } else { NO_EXECUTE };
    PRESENT | writable | no_execute
}

/// Where a mapping goes: its first page and how many pages it spans.
#[derive(Debug, Clone, Copy, PartialEq, Eq, Structural)]
pub struct MmapPlan {
    pub start: u64,
    pub page_count: usize,
}

/// Pages needed for `len` bytes.
pub open spec fn pages_for(len: int) -> int {
    (len + 4095) / 4096
}

/// The ELF loader's memory mapper: hands out addresses in the ELF range one
/// after another (a bump allocator), leaving a guard page after each.
pub struct KernelMmap {
    offset: u64,
}

impl KernelMmap {
    /// How far into the ELF range the next mapping starts.
    pub closed spec fn spec_offset(&self) -> u64 {
        self.offset
    }

    pub fn new() -> (m: Self)
        ensures
            m.spec_offset() == 0,
    {
        KernelMmap { offset: 0 }
    }

    pub fn offset(&self) -> (o: u64)
        ensures
            o == self.spec_offset(),
    {
        self.offset
    }

    /// Whether a request of `len` bytes can be served without the address
    /// arithmetic leaving 64 bits.
    pub open spec fn fits(&self, len: usize) -> bool {
        &&& KERNEL_ELF_REGION_START + self.spec_offset() <= u64::MAX
        &&& self.spec_offset() + align_up(len as int) + 4096 <= u64::MAX
        &&& len <= usize::MAX - 4095
    }

    /// Takes the next address of the ELF range for `len` bytes.
    fn bump(&mut self, len: usize) -> (a: u64)
        requires
            old(self).fits(len),
        ensures
            a == KERNEL_ELF_REGION_START + old(self).spec_offset(),
            final(self).spec_offset() == old(self).spec_offset() + align_up(len as int) + 4096,
    {
        let alloc_addr = KERNEL_ELF_REGION_START + self.offset;
        let len64 = len as u64;
        let size = round_up(len64);
        self.offset = self.offset + size + 4096;
        alloc_addr
    }

    /// Places an anonymous mapping of `len` bytes: at `addr` rounded down to
    /// a page when it is not zero, else at the next free address of the ELF
    /// range (which moves on by the rounded length and a guard page, even
    /// when the range turns out to be exhausted).
    pub fn mmap_anonymous(&mut self, addr: usize, len: usize) -> (r: Result<MmapPlan, MmapError>)
        requires
            old(self).fits(len),
        ensures
            len == 0 ==> r == Err::<MmapPlan, MmapError>(MmapError::ZeroLength) && final(self).spec_offset() == old(self).spec_offset(),
            len > 0 && addr != 0 ==> r == Ok::<MmapPlan, MmapError>(
                MmapPlan { start: align_down(addr as int) as u64, page_count: pages_for(len as int) as usize },
            ) && final(self).spec_offset() == old(self).spec_offset(),
            len > 0 && addr == 0 ==> final(self).spec_offset() == old(self).spec_offset()
                + align_up(len as int) + 4096 && (if final(self).spec_offset()
                >= KERNEL_ELF_REGION_SIZE {
                r == Err::<MmapPlan, MmapError>(MmapError::RegionExhausted)
            } else {
                r == Ok::<MmapPlan, MmapError>(
                    MmapPlan {
                        start: (KERNEL_ELF_REGION_START + old(self).spec_offset()) as u64,
                        page_count: pages_for(len as int) as usize,
                    },
                )
            }),
    {
        if len == 0 {
            return Err(MmapError::ZeroLength);
        }
        let page_count = (len + 4095) / 4096;
        let start = if addr != 0 {
            round_down(addr as u64)
        } else {
            let a = self.bump(len);
            if self.offset >= KERNEL_ELF_REGION_SIZE {
                return Err(MmapError::RegionExhausted);
            }
            a
        };
        Ok(MmapPlan { start, page_count })
    }

    /// Places a mapping: file-backed ones are refused, anonymous ones are
    /// placed as by `mmap_anonymous` (at `addr`, or anywhere when none is given).
    pub fn mmap(&mut self, addr: Option<usize>, len: usize, file_backed: bool) -> (r: Result<
        MmapPlan,
        MmapError,
    >)
        requires
            old(self).fits(len),
        ensures
            file_backed ==> r == Err::<MmapPlan, MmapError>(MmapError::FileBacked) && final(self).spec_offset() == old(self).spec_offset(),
            !file_backed ==> ({
                let a = match addr {
                    Some(a) => a,
                    None => 0,
                };
                &&& len == 0 ==> r == Err::<MmapPlan, MmapError>(MmapError::ZeroLength)
                    && final(self).spec_offset() == old(self).spec_offset()
                &&& len > 0 && a != 0 ==> r == Ok::<MmapPlan, MmapError>(
                    MmapPlan { start: align_down(a as int) as u64, page_count: pages_for(len as int) as usize },
                ) && final(self).spec_offset() == old(self).spec_offset()
                &&& len > 0 && a == 0 ==> final(self).spec_offset() == old(self).spec_offset()
                    + align_up(len as int) + 4096 && (if final(self).spec_offset()
                    >= KERNEL_ELF_REGION_SIZE {
                    r == Err::<MmapPlan, MmapError>(MmapError::RegionExhausted)
                } else {
                    r == Ok::<MmapPlan, MmapError>(
                        MmapPlan {
                            start: (KERNEL_ELF_REGION_START + old(self).spec_offset()) as u64,
                            page_count: pages_for(len as int) as usize,
                        },
                    )
                })
            }),
    {
        if file_backed {
            return Err(MmapError::FileBacked);
        }
        let a = match addr {
            Some(a) => a,
            None => 0,
        };
        self.mmap_anonymous(a, len)
    }

    /// Reserves address space without mapping it: `addr` rounded down to a
    /// page when given, else the next free address of the ELF range.
    pub fn mmap_reserve(&mut self, addr: Option<usize>, len: usize) -> (r: Result<u64, MmapError>)
        requires
            old(self).fits(len),
        ensures
            len == 0 ==> r == Err::<u64, MmapError>(MmapError::ZeroLength) && final(self).spec_offset()
                == old(self).spec_offset(),
            len > 0 ==> match addr {
                Some(a) if a != 0 => r == Ok::<u64, MmapError>(align_down(a as int) as u64)
                    && final(self).spec_offset() == old(self).spec_offset(),
                _ => r == Ok::<u64, MmapError>((KERNEL_ELF_REGION_START + old(self).spec_offset()) as u64)
                    && final(self).spec_offset() == old(self).spec_offset() + align_up(len as int) + 4096,
            },
    {
        if len == 0 {
            return Err(MmapError::ZeroLength);
        }
        let start = match addr {
            Some(a) => a,
            None => 0,
        };
        if start != 0 {
            Ok(round_down(start as u64))
        } else {
            Ok(self.bump(len))
        }
    }

    /// The pages that unmapping `len` bytes at `addr` covers; a null address
    /// or a zero length is refused.
    pub fn munmap(addr: usize, len: usize) -> (r: Result<MmapPlan, MmapError>)
        requires
            len <= usize::MAX - 4095,
        ensures
            addr == 0 || len == 0 ==> r == Err::<MmapPlan, MmapError>(MmapError::InvalidArguments),
            addr != 0 && len != 0 ==> r == Ok::<MmapPlan, MmapError>(
                MmapPlan { start: align_down(addr as int) as u64, page_count: pages_for(len as int) as usize },
            ),
    {
        if addr == 0 || len == 0 {
            return Err(MmapError::InvalidArguments);
        }
        Ok(MmapPlan { start: round_down(addr as u64), page_count: (len + 4095) / 4096 })
    }

    /// The pages and new flags for changing the protection of `len` bytes at
    /// `addr`; a null address or a zero length is refused.
    pub fn mprotect(addr: usize, len: usize, write: bool, exec: bool) -> (r: Result<
        (MmapPlan, u64),
        MmapError,
    >)
        requires
            len <= usize::MAX - 4095,
        ensures
            addr == 0 || len == 0 ==> r == Err::<(MmapPlan, u64), MmapError>(
                MmapError::InvalidArguments,
            ),
            addr != 0 && len != 0 ==> r == Ok::<(MmapPlan, u64), MmapError>(
                (
                    MmapPlan { start: align_down(addr as int) as u64, page_count: pages_for(len as int) as usize },
                    (PRESENT | (if write { WRITABLE } else { 0 }) | (if exec { 0 } else { NO_EXECUTE })),
                ),
            ),
    {
        if addr == 0 || len == 0 {
            return Err(MmapError::InvalidArguments);
        }
        let flags = prot_to_flags(write, exec);
        Ok((MmapPlan { start: round_down(addr as u64), page_count: (len + 4095) / 4096 }, flags))
    }
}

} // verus!
