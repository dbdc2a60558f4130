//! The table of MMIO regions mapped for PCI devices, and where their huge pages go.

use vstd::prelude::*;

verus! {

/// How many regions the table holds.
pub const MMIO_TABLE_SIZE: usize = 64;
/// Where the display's region is mapped.
pub const DISPLAY_VIRT: u64 = 0xffff_e000_0000_0000;
/// How much of the display's region is mapped.
pub const DISPLAY_LENGTH: u64 = 0x100_0000;
/// The PCI class of display controllers.
pub const DISPLAY_CLASS: u8 = 0x03;
/// The size of a huge page.
pub const HUGE_PAGE_SIZE: u64 = 0x20_0000;
/// The largest region that is mapped.
pub const MAX_MMIO_SIZE: u64 = 0x1_0000_0000_0000;

/// One mapped MMIO region.
#[derive(Debug, Clone, Copy, PartialEq, Eq, Structural)]
pub struct MmioEntry {
    /// The physical address.
    pub phys: u64,
    /// The virtual address it is mapped at.
    pub virt: u64,
    /// Its length.
    pub length: u64,
    /// The PCI class of its device.
    pub class: u32,
    /// The PCI subclass of its device.
    pub subclass: u32,
}

impl MmioEntry {
    /// An unused entry.
    pub open spec fn empty() -> Self {
        MmioEntry { phys: 0, virt: 0, length: 0, class: 0, subclass: 0 }
    }
}

impl Default for MmioEntry {
    fn default() -> (e: Self)
        ensures
            e == MmioEntry::empty(),
    {
        MmioEntry { phys: 0, virt: 0, length: 0, class: 0, subclass: 0 }
    }
}

/// The table of MMIO regions: `count` entries are in use.
pub struct MmioTable {
    pub entries: Vec<MmioEntry>,
    pub count: u8,
}

/// What was done with a device's MMIO region.
#[derive(Debug, PartialEq, Eq)]
pub enum MmioPlan {
    /// No base, no size, or too large a size: nothing is mapped.
    Skipped,
    /// A display: its region is already mapped; only its physical address is recorded.
    Display,
    /// The region goes at `virt`; the huge pages numbered in `pages` are to be mapped.
    Mapped { virt: u64, pages: Vec<u64> },
}

impl MmioTable {
    /// The table has its fixed number of entries.
    pub open spec fn wf(&self) -> bool {
        self.entries@.len() == MMIO_TABLE_SIZE && self.count <= MMIO_TABLE_SIZE
    }

    /// An empty table.
    pub fn new() -> (t: Self)
        ensures
            t.wf(),
            t.count == 0,
            forall|i: int| 0 <= i < MMIO_TABLE_SIZE ==> #[trigger] t.entries@[i]
                == MmioEntry::empty(),
    {
        let mut entries: Vec<MmioEntry> = Vec::new();
        let mut i: usize = 0;
        while i < MMIO_TABLE_SIZE
            invariant
                i <= MMIO_TABLE_SIZE,
                entries@.len() == i,
                forall|j: int| 0 <= j < i ==> #[trigger] entries@[j] == MmioEntry::empty(),
            decreases MMIO_TABLE_SIZE - i,
        {
            entries.push(MmioEntry::default());
            i = i + 1;
        }
        MmioTable { entries, count: 0 }
    }

    /// The kernel's table at boot: the display's region is already mapped,
    /// its physical address not yet known.
    pub fn with_display() -> (t: Self)
        ensures
            t.wf(),
            t.count == 1,
            t.entries@[0] == (MmioEntry { virt: DISPLAY_VIRT, length: DISPLAY_LENGTH, ..MmioEntry::empty() }),
            forall|i: int| 1 <= i < MMIO_TABLE_SIZE ==> #[trigger] t.entries@[i]
                == MmioEntry::empty(),
    {
        let mut t = MmioTable::new();
        let mut e = t.entries[0];
        e.virt = DISPLAY_VIRT;
        e.length = DISPLAY_LENGTH;
        t.entries.set(0, e);
        t.count = 1;
        t
    }

    /// Records the MMIO region of a PCI device of class `class`. A region
    /// with no base or size, or larger than 256 TiB, is skipped. A display's
    /// physical address goes into the first entry. Any other region goes
    /// right after the last one in use, and is mapped with huge pages
    /// numbered from 0 up to its size over the huge-page size.
    pub fn record_device(&mut self, mmio_base: u64, mmio_size: u64, class: u8) -> (p: MmioPlan)
        requires
            old(self).wf(),
            old(self).count >= 1,
            !(mmio_base == 0 || mmio_size == 0 || mmio_size > MAX_MMIO_SIZE) && class
                != DISPLAY_CLASS ==> old(self).count < MMIO_TABLE_SIZE && old(self).entries@[old(
                self,
            ).count - 1].virt + old(self).entries@[old(self).count - 1].length <= u64::MAX,
        ensures
            final(self).wf(),
            final(self).count >= 1,
            (mmio_base == 0 || mmio_size == 0 || mmio_size > MAX_MMIO_SIZE) ==> p == MmioPlan::Skipped
                && *final(self) == *old(self),
            !(mmio_base == 0 || mmio_size == 0 || mmio_size > MAX_MMIO_SIZE) && class
                == DISPLAY_CLASS ==> p == MmioPlan::Display && final(self).count == old(self).count
                && final(self).entries@ == old(self).entries@.update(
                0,
                MmioEntry { phys: mmio_base, ..old(self).entries@[0] },
            ),
            !(mmio_base == 0 || mmio_size == 0 || mmio_size > MAX_MMIO_SIZE) && class
                != DISPLAY_CLASS ==> ({
                let last = old(self).entries@[old(self).count - 1];
                let virt = (last.virt + last.length) as u64;
                &&& p matches MmioPlan::Mapped { virt: v, pages } && v == virt && pages@
                    == Seq::new((mmio_size / HUGE_PAGE_SIZE + 1) as nat, |k: int| k as u64)
                &&& final(self).count == old(self).count + 1
                &&& final(self).entries@ == old(self).entries@.update(
                    old(self).count as int,
                    MmioEntry {
                        phys: mmio_base,
                        virt,
                        length: mmio_size,
                        ..old(self).entries@[old(self).count as int]
                    },
                )
            }),
    {
        if mmio_base == 0 || mmio_size == 0 || mmio_size > MAX_MMIO_SIZE {
            return MmioPlan::Skipped;
        }
        if class == DISPLAY_CLASS {
            let mut e = self.entries[0];
            e.phys = mmio_base;
            self.entries.set(0, e);
            return MmioPlan::Display;
        }
        let idx = (self.count - 1) as usize;
        let virt = self.entries[idx].virt + self.entries[idx].length;
        let mut pages: Vec<u64> = Vec::new();
        let mut offset: u64 = 0;
        while offset <= mmio_size
            invariant
                mmio_size <= MAX_MMIO_SIZE,
                offset % HUGE_PAGE_SIZE == 0,
                offset <= mmio_size + HUGE_PAGE_SIZE,
                pages@ == Seq::new((offset / HUGE_PAGE_SIZE) as nat, |k: int| k as u64),
            decreases mmio_size + HUGE_PAGE_SIZE - offset,
        {
            pages.push(offset / HUGE_PAGE_SIZE);
            proof {
                assert(pages@ =~= Seq::new(
                    ((offset as int + HUGE_PAGE_SIZE as int) / (HUGE_PAGE_SIZE as int)) as nat,
                    |k: int| k as u64,
                ));
            }
            offset = offset + HUGE_PAGE_SIZE;
        }
        proof {
            assert(offset / HUGE_PAGE_SIZE == mmio_size / HUGE_PAGE_SIZE + 1);
        }
        let i = self.count as usize;
        let mut e = self.entries[i];
        e.phys = mmio_base;
        e.virt = virt;
        e.length = mmio_size;
        self.entries.set(i, e);
        self.count = self.count + 1;
        MmioPlan::Mapped { virt, pages }
    }
}

/// Where the next huge page of MMIO goes: the page directory pointer slot in
/// use and the physical address of the next page directory to hand out (0
/// until the first is needed).
#[derive(Debug, Clone, Copy, PartialEq, Eq, Structural)]
pub struct MmioMapper {
    pub pdpt_idx: usize,
    pub next_pdt_phy: u64,
}

/// A page directory to hook into a page directory pointer slot.
#[derive(Debug, Clone, Copy, PartialEq, Eq, Structural)]
pub struct NewPdt {
    pub slot: usize,
    pub phys: u64,
}

/// One huge-page mapping: a new page directory to hook in first, if the
/// current one is full, then the page directory entry to fill.
#[derive(Debug, Clone, Copy, PartialEq, Eq, Structural)]
pub struct MapStep {
    /// The page directory pointer slot and the page directory to put there.
    pub new_pdt: Option<NewPdt>,
    /// The page directory pointer slot whose page directory gets the entry.
    pub pdpt_idx: usize,
    /// The entry within that page directory.
    pub pdt_index: usize,
}

impl MmioMapper {
    pub fn new() -> (m: Self)
        ensures
            m == (MmioMapper { pdpt_idx: 0, next_pdt_phy: 0 }),
    {
        MmioMapper { pdpt_idx: 0, next_pdt_phy: 0 }
    }

    /// Places huge page `offset_idx` of a region. The first eight entries of
    /// the page directory are the display's; past the 512th entry the next
    /// page directory pointer slot is taken, with a new page directory after
    /// the tables found through `pml4_448_addr`.
    pub fn step(&mut self, offset_idx: u64, pml4_448_addr: u64) -> (s: MapStep)
        requires
            offset_idx + 8 <= u64::MAX,
            offset_idx + 8 >= 512 ==> old(self).pdpt_idx < 511 && (if old(self).next_pdt_phy
                == 0 {
                (pml4_448_addr % 0x10000) + 0x9000
            } else {
                old(self).next_pdt_phy + 0x1000
            }) <= u64::MAX,
        ensures
            offset_idx + 8 < 512 ==> s.new_pdt is None && *final(self) == *old(self),
            offset_idx + 8 >= 512 ==> ({
                let first = if old(self).next_pdt_phy == 0 {
                    (pml4_448_addr % 0x10000) + 0x8000
                } else {
                    old(self).next_pdt_phy as int
                };
                &&& s.new_pdt == Some(NewPdt { slot: (old(self).pdpt_idx + 1) as usize, phys: first as u64 })
                &&& final(self).pdpt_idx == old(self).pdpt_idx + 1
                &&& final(self).next_pdt_phy == first + 0x1000
            }),
            s.pdpt_idx == final(self).pdpt_idx,
            s.pdt_index == (offset_idx + 8) % 512,
    {
        let entry_idx = offset_idx + 8;
        let mut new_pdt: Option<NewPdt> = None;
        if entry_idx >= 512 {
            self.pdpt_idx = self.pdpt_idx + 1;
            if self.next_pdt_phy == 0 {
                let low = pml4_448_addr & 0xFFFF;
                assert(pml4_448_addr & 0xFFFFu64 == pml4_448_addr % 0x10000) by (bit_vector);
                self.next_pdt_phy = low + 0x8000;
            }
            new_pdt = Some(NewPdt { slot: self.pdpt_idx, phys: self.next_pdt_phy });
            self.next_pdt_phy = self.next_pdt_phy + 0x1000;
        }
        MapStep { new_pdt, pdpt_idx: self.pdpt_idx, pdt_index: (entry_idx % 512) as usize }
    }
}

} // verus!
