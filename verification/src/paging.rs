//! The boot page tables of the kernel: which entries are written, with what.
//!
//! Low memory (the first 2 MiB) is mapped to itself; the kernel's 32 MiB at
//! physical 0x200000 and the initial ramdisk's 32 MiB after it are mapped
//! from 0xffff800000000000 on; the framebuffer keeps the mapping the boot
//! loader gave it.

use vstd::prelude::*;
use crate::vmm::{PRESENT, WRITABLE, NO_EXECUTE};

verus! {

pub const PML4_ADDR: u64 = 0x100000;
pub const PDPT_LOW_ADDR: u64 = 0x101000;
pub const PDPT_HIGH_ADDR: u64 = 0x102000;
pub const PDT_LOW_ADDR: u64 = 0x103000;
pub const PDT_HIGH_ADDR: u64 = 0x104000;
pub const PT_LOW_ADDR: u64 = 0x105000;
pub const PT_HIGH_ADDR: u64 = 0x106000;

/// One write into a page table: entry `index` of the table at physical
/// address `table` points at `phys` with `flags`.
#[derive(Debug, Clone, Copy, PartialEq, Eq, Structural)]
pub struct TableEntry {
    pub table: u64,
    pub index: u64,
    pub phys: u64,
    pub flags: u64,
}

pub open spec fn entry(table: int, index: int, phys: int, flags: u64) -> TableEntry {
    TableEntry { table: table as u64, index: index as u64, phys: phys as u64, flags }
}

/// Flags of the table links and of the kernel's pages.
pub open spec fn rw() -> u64 {
    PRESENT | WRITABLE
}

/// Flags of the ramdisk's pages.
pub open spec fn ro_nx() -> u64 {
    PRESENT | NO_EXECUTE
}

/// The 512 entries that map the first 2 MiB to themselves.
pub open spec fn identity_entries() -> Seq<TableEntry> {
    Seq::new(512, |i: int| entry(PT_LOW_ADDR as int, i, i * 0x1000, rw()))
}

/// The page table for the `i`-th 2 MiB of the higher half, mapping from
/// physical `base` with `flags`, followed by its link from the directory.
pub open spec fn high_table(i: int, base: int, flags: u64) -> Seq<TableEntry> {
    Seq::new(512, |j: int| entry(PT_HIGH_ADDR + i * 0x1000, j, base + j * 0x1000, flags)).push(
        entry(PDT_HIGH_ADDR as int, i, PT_HIGH_ADDR + i * 0x1000, rw()),
    )
}

/// The first `n` tables of the kernel's mapping.
pub open spec fn kernel_tables(n: nat) -> Seq<TableEntry>
    decreases n,
{
    if n == 0 {
        Seq::empty()
    } else {
        let i = n - 1;
        kernel_tables((n - 1) as nat) + high_table(i, 0x200000 + i * 0x200000, rw())
    }
}

/// The first `n` tables of the ramdisk's mapping (directory slots 16 on).
pub open spec fn initrd_tables(n: nat) -> Seq<TableEntry>
    decreases n,
{
    if n == 0 {
        Seq::empty()
    } else {
        let k = n - 1;
        initrd_tables((n - 1) as nat) + high_table(16 + k, 0x2200000 + k * 0x200000, ro_nx())
    }
}

/// Every entry written while building the boot page tables, in order; the
/// framebuffer's slot takes the directory pointer `fb_pdpt` from the
/// boot loader's tables.
pub open spec fn boot_entries(fb_pdpt: u64) -> Seq<TableEntry> {
    seq![
        entry(PML4_ADDR as int, 0, PDPT_LOW_ADDR as int, rw()),
        entry(PDPT_LOW_ADDR as int, 0, PDT_LOW_ADDR as int, rw()),
        entry(PDT_LOW_ADDR as int, 0, PT_LOW_ADDR as int, rw()),
    ] + identity_entries() + seq![
        entry(PML4_ADDR as int, 256, PDPT_HIGH_ADDR as int, rw()),
        entry(PDPT_HIGH_ADDR as int, 0, PDT_HIGH_ADDR as int, rw()),
    ] + kernel_tables(16) + initrd_tables(16) + seq![
        entry(PML4_ADDR as int, 448, fb_pdpt as int, rw()),
    ]
}

/// Appends a high-half page table and its directory link.
fn push_high_table(out: &mut Vec<TableEntry>, i: u64, base: u64, flags: u64)
    requires
        i < 32,
        base <= 0x4200000,
    ensures
        final(out)@ == old(out)@ + high_table(i as int, base as int, flags),
{
    let pt = PT_HIGH_ADDR + i * 0x1000;
    let ghost start = out@;
    let mut j: u64 = 0;
    while j < 512
        invariant
            j <= 512,
            pt == PT_HIGH_ADDR + i * 0x1000,
            base <= 0x4200000,
            i < 32,
            out@ == start + Seq::new(
                j as nat,
                |k: int| entry(PT_HIGH_ADDR + i * 0x1000, k, base + k * 0x1000, flags),
            ),
        decreases 512 - j,
    {
        out.push(TableEntry { table: pt, index: j, phys: base + j * 0x1000, flags });
        j = j + 1;
        proof {
            assert(out@ =~= start + Seq::new(
                j as nat,
                |k: int| entry(PT_HIGH_ADDR + i * 0x1000, k, base + k * 0x1000, flags),
            ));
        }
    }
    out.push(TableEntry { table: PDT_HIGH_ADDR, index: i, phys: pt, flags: PRESENT | WRITABLE });
    proof {
        assert(out@ =~= start + high_table(i as int, base as int, flags));
    }
}

/// The entries of the boot page tables, in the order they are written.
pub fn boot_page_table_entries(fb_pdpt: u64) -> (es: Vec<TableEntry>)
    ensures
        es@ == boot_entries(fb_pdpt),
{
    let flags = PRESENT | WRITABLE;
    let mut out: Vec<TableEntry> = Vec::new();
    out.push(TableEntry { table: PML4_ADDR, index: 0, phys: PDPT_LOW_ADDR, flags });
    out.push(TableEntry { table: PDPT_LOW_ADDR, index: 0, phys: PDT_LOW_ADDR, flags });
    out.push(TableEntry { table: PDT_LOW_ADDR, index: 0, phys: PT_LOW_ADDR, flags });
    let ghost head = out@;
    let mut i: u64 = 0;
    while i < 512
        invariant
            i <= 512,
            flags == rw(),
            out@ == head + Seq::new(
                i as nat,
                |k: int| entry(PT_LOW_ADDR as int, k, k * 0x1000, rw()),
            ),
        decreases 512 - i,
    {
        out.push(TableEntry { table: PT_LOW_ADDR, index: i, phys: i * 0x1000, flags });
        i = i + 1;
        proof {
            assert(out@ =~= head + Seq::new(
                i as nat,
                |k: int| entry(PT_LOW_ADDR as int, k, k * 0x1000, rw()),
            ));
        }
    }
    out.push(TableEntry { table: PML4_ADDR, index: 256, phys: PDPT_HIGH_ADDR, flags });
    out.push(TableEntry { table: PDPT_HIGH_ADDR, index: 0, phys: PDT_HIGH_ADDR, flags });
    let ghost mid = out@;
    let mut n: u64 = 0;
    while n < 16
        invariant
            n <= 16,
            flags == rw(),
            out@ == mid + kernel_tables(n as nat),
        decreases 16 - n,
    {
        push_high_table(&mut out, n, 0x200000 + n * 0x200000, flags);
        n = n + 1;
        proof {
            assert(out@ =~= mid + kernel_tables(n as nat));
        }
    }
    let ghost mid2 = out@;
    let initrd_flags = PRESENT | NO_EXECUTE;
    let mut k: u64 = 0;
    while k < 16
        invariant
            k <= 16,
            initrd_flags == ro_nx(),
            out@ == mid2 + initrd_tables(k as nat),
        decreases 16 - k,
    {
        push_high_table(&mut out, 16 + k, 0x2200000 + k * 0x200000, initrd_flags);
        k = k + 1;
        proof {
            assert(out@ =~= mid2 + initrd_tables(k as nat));
        }
    }
    out.push(TableEntry { table: PML4_ADDR, index: 448, phys: fb_pdpt, flags });
    proof {
        assert(identity_entries() =~= Seq::new(
            512,
            |k: int| entry(PT_LOW_ADDR as int, k, k * 0x1000, rw()),
        ));
        assert(out@ =~= boot_entries(fb_pdpt));
    }
    out
}

} // verus!
