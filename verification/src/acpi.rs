//! What the kernel keeps from the ACPI tables about interrupts and processors.

use vstd::prelude::*;

verus! {

/// An I/O APIC found in the MADT.
#[derive(Debug, Clone, Copy, PartialEq, Eq, Structural)]
pub struct IoApicInfo {
    pub id: u8,
    /// Its physical MMIO address.
    pub address: u32,
    /// The first global system interrupt that it serves.
    pub global_system_interrupt_base: u32,
}

/// An ISA interrupt that the firmware routes to another global system interrupt.
#[derive(Debug, Clone, Copy, PartialEq, Eq, Structural)]
pub struct InterruptOverride {
    /// The ISA IRQ.
    pub source: u8,
    /// The global system interrupt it arrives on.
    pub mapped_to: u32,
}

/// A processor found in the MADT.
#[derive(Debug, Clone, Copy, PartialEq, Eq, Structural)]
pub struct CpuInfo {
    pub id: u32,
    pub apic_id: u32,
    /// Whether it was running when the tables were read.
    pub enabled: bool,
}

/// The interrupt model and processors that ACPI describes.
pub struct AcpiInfo {
    pub lapic_address: u64,
    pub io_apics: Vec<IoApicInfo>,
    pub interrupt_overrides: Vec<InterruptOverride>,
    pub cpus: Vec<CpuInfo>,
}

/// The global system interrupt that ISA IRQ `irq` arrives on: the target of
/// the first override of it, or the IRQ itself.
pub open spec fn gsi_for(irq: u8, overrides: Seq<InterruptOverride>) -> u32
    decreases overrides.len(),
{
    if overrides.len() == 0 {
        irq as u32
    } else if overrides[0].source == irq {
        overrides[0].mapped_to
    } else {
        gsi_for(irq, overrides.drop_first())
    }
}

impl AcpiInfo {
    /// The global system interrupt that ISA IRQ `irq` arrives on.
    pub fn resolve_gsi(&self, irq: u8) -> (gsi: u32)
        ensures
            gsi == gsi_for(irq, self.interrupt_overrides@),
    {
        let ovs = &self.interrupt_overrides;
        let mut i: usize = 0;
        proof {
            assert(ovs@.skip(0) =~= ovs@);
        }
        while i < ovs.len()
            invariant
                i <= ovs@.len(),
                ovs@ == self.interrupt_overrides@,
                gsi_for(irq, ovs@) == gsi_for(irq, ovs@.skip(i as int)),
            decreases ovs@.len() - i,
        {
            proof {
                assert(ovs@.skip(i as int).drop_first() =~= ovs@.skip(i + 1));
            }
            if ovs[i].source == irq {
                proof {
                    let rest = ovs@.skip(i as int);
                    assert(rest.len() > 0);
                    assert(rest[0] == ovs@[i as int]);
                    assert(gsi_for(irq, rest) == rest[0].mapped_to);
                }
                return ovs[i].mapped_to;
            }
            i = i + 1;
        }
        irq as u32
    }
}

} // verus!
