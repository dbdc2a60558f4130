//! Interrupt controller programming (local APIC and I/O APIC) and the
//! registry of interrupt handlers.

use vstd::prelude::*;
use crate::acpi::{gsi_for, AcpiInfo};

verus! {

/// The vector of the spurious interrupt.
pub const SPURIOUS_APIC_VECTOR: u8 = 0xFF;
/// The vector of the local APIC timer.
pub const TIMER_VECTOR: u8 = 0x30;
/// The software-enable bit of the spurious interrupt vector register.
pub const APIC_SIVR_ENABLE: u32 = 0x100;
/// The global enable bit of `IA32_APIC_BASE`.
pub const APIC_BASE_ENABLE: u64 = 0x800;
/// The x2APIC enable bit of `IA32_APIC_BASE`.
pub const APIC_BASE_X2APIC_ENABLE: u64 = 0x400;
/// Register offsets of the xAPIC MMIO page.
pub const XAPIC_EOI_OFFSET: u32 = 0x0B0;
pub const XAPIC_SIVR_OFFSET: u32 = 0x0F0;
pub const XAPIC_LVT_TIMER_OFFSET: u32 = 0x320;
pub const XAPIC_TIMER_INIT_COUNT_OFFSET: u32 = 0x380;
pub const XAPIC_TIMER_CUR_COUNT_OFFSET: u32 = 0x390;
pub const XAPIC_TIMER_DIV_CONF_OFFSET: u32 = 0x3E0;
/// The periodic-mode bit of the timer's local vector table entry.
pub const LVT_TIMER_PERIODIC: u32 = 0x20000;

/// How the local APIC is reached.
#[derive(Debug, Clone, Copy, PartialEq, Eq, Structural)]
pub enum ApicMode {
    /// Through its MMIO page.
    XApic,
    /// Through model-specific registers.
    X2Apic,
}

/// The mode to run the local APIC in: x2APIC where the CPU has it, else
/// xAPIC, which serves at most 255 processors (`None` beyond that). Without
/// ACPI processor data one processor is assumed.
pub fn choose_apic_mode(x2apic_available: bool, cpus: Option<usize>) -> (m: Option<ApicMode>)
    ensures
        x2apic_available ==> m == Some(ApicMode::X2Apic),
        !x2apic_available ==> (m == (match cpus {
            Some(n) => if n > 255 {
                None
            } else {
                Some(ApicMode::XApic)
            },
            None => Some(ApicMode::XApic),
        })),
{
    if x2apic_available {
        return Some(ApicMode::X2Apic);
    }
    let n = match cpus {
        Some(n) => n,
        None => 1,
    };
    if n > 255 {
        None
    } else {
        Some(ApicMode::XApic)
    }
}

/// The model-specific register that stands for an xAPIC register offset in x2APIC mode.
pub fn x2apic_msr(offset: u32) -> (msr: u32)
    ensures
        msr == 0x800 + offset / 16,
{
    proof {
        assert(offset >> 4 == offset / 16) by (bit_vector);
    }
    0x800 + (offset >> 4)
}

/// The value to write to `IA32_APIC_BASE` to enable the local APIC in `mode`.
pub fn apic_base_value(base: u64, mode: ApicMode) -> (v: u64)
    ensures
        v == (match mode {
            ApicMode::XApic => base | 0x800u64,
            ApicMode::X2Apic => base | 0xC00u64,
        }),
{
    let v = base | APIC_BASE_ENABLE;
    match mode {
        ApicMode::XApic => v,
        ApicMode::X2Apic => {
            let w = v | APIC_BASE_X2APIC_ENABLE;
            assert(w == base | 0xC00u64) by (bit_vector)
                requires
                    v == base | 0x800u64,
                    w == v | 0x400u64,
            ;
            w
        },
    }
}

/// The value of the spurious interrupt vector register: enabled, with the spurious vector.
pub fn sivr_value() -> (v: u32)
    ensures
        v == 0x1FF,
{
    let v = APIC_SIVR_ENABLE | SPURIOUS_APIC_VECTOR as u32;
    assert(0x100u32 | 0xFFu32 == 0x1FFu32) by (bit_vector);
    v
}

/// The timer's count over the calibration window: it was started at the
/// largest count and counts down.
pub fn timer_ticks_elapsed(current_count: u32) -> (t: u32)
    ensures
        t == 0xFFFF_FFFF - current_count,
{
    0xFFFF_FFFF - current_count
}

/// The timer's local vector table entry: periodic, on the timer vector.
pub fn timer_lvt_value() -> (v: u32)
    ensures
        v == 0x20030,
{
    let v = LVT_TIMER_PERIODIC | TIMER_VECTOR as u32;
    assert(0x20000u32 | 0x30u32 == 0x20030u32) by (bit_vector);
    v
}

/// The I/O APIC register that selects the version.
pub const IOAPICVER: u32 = 0x01;
/// The first redirection table register.
pub const IOREDTBL: u32 = 0x10;

/// Two register writes that program one redirection entry.
#[derive(Debug, Clone, Copy, PartialEq, Eq, Structural)]
pub struct RedirectionWrite {
    pub low_reg: u32,
    pub low_val: u32,
    pub high_reg: u32,
    pub high_val: u32,
}

/// The low half of a redirection entry: the vector and the low flag bits.
pub open spec fn redirection_low(vector: u8, flags: u64) -> u32 {
    (vector as u32) | (flags as u32)
}

/// The high half of a redirection entry: the destination and the high flag bits.
pub open spec fn redirection_high(dest_id: u8, flags: u64) -> u32 {
    ((dest_id as u32) << 24u32) | ((flags >> 32u64) as u32)
}

/// An I/O APIC: where it is mapped, the first interrupt it serves and how
/// many redirection entries it has past the first.
pub struct IoApic {
    pub base: u64,
    pub gsi_base: u32,
    pub max_redirection_entries: u8,
}

impl IoApic {
    /// An I/O APIC as its version register describes it.
    pub fn new(base: u64, gsi_base: u32, version: u32) -> (a: Self)
        ensures
            a.base == base,
            a.gsi_base == gsi_base,
            a.max_redirection_entries == (version / 0x10000) % 0x100,
    {
        let m = ((version >> 16) & 0xFF) as u8;
        assert(((version >> 16) & 0xFF) as u8 == (version / 0x10000) % 0x100) by (bit_vector);
        IoApic { base, gsi_base, max_redirection_entries: m }
    }

    /// The writes that point entry `index` at `vector` on processor
    /// `dest_id`; none for an entry the I/O APIC does not have.
    pub fn set_redirection(&self, index: u8, vector: u8, dest_id: u8, flags: u64) -> (w: Option<
        RedirectionWrite,
    >)
        ensures
            index > self.max_redirection_entries ==> w is None,
            index <= self.max_redirection_entries ==> w == Some(
                RedirectionWrite {
                    low_reg: (0x10 + 2 * index) as u32,
                    low_val: redirection_low(vector, flags),
                    high_reg: (0x11 + 2 * index) as u32,
                    high_val: redirection_high(dest_id, flags),
                },
            ),
    {
        if index > self.max_redirection_entries {
            return None;
        }
        let low_reg = IOREDTBL + (index as u32) * 2;
        let high_reg = low_reg + 1;
        let low_val = (vector as u32) | (flags as u32);
        let high_val = (dest_id as u32) << 24 | (flags >> 32) as u32;
        Some(RedirectionWrite { low_reg, low_val, high_reg, high_val })
    }

    /// Whether this I/O APIC serves global system interrupt `gsi`.
    pub open spec fn serves(&self, gsi: u32) -> bool {
        self.gsi_base <= gsi <= self.gsi_base + self.max_redirection_entries
    }
}

/// The index of the first I/O APIC that serves `gsi`, if any.
pub open spec fn first_serving(ioapics: Seq<IoApic>, gsi: u32) -> Option<int>
    decreases ioapics.len(),
{
    if ioapics.len() == 0 {
        None
    } else if ioapics[0].serves(gsi) {
        Some(0)
    } else {
        match first_serving(ioapics.drop_first(), gsi) {
            Some(k) => Some(k + 1),
            None => None,
        }
    }
}

proof fn lemma_first_serving_skip(ioapics: Seq<IoApic>, gsi: u32, i: int)
    requires
        0 <= i < ioapics.len(),
        !ioapics[i].serves(gsi),
    ensures
        first_serving(ioapics.skip(i), gsi) == (match first_serving(ioapics.skip(i + 1), gsi) {
            Some(k) => Some(k + 1),
            None => None::<int>,
        }),
{
    assert(ioapics.skip(i).drop_first() =~= ioapics.skip(i + 1));
}

/// Where to route ISA IRQ `irq`: the I/O APIC chosen and the writes to it.
/// The IRQ goes, through its override if any, to the first I/O APIC that
/// serves the resulting interrupt, with no flags; none serving, nothing is done.
pub fn route_irq(acpi: &AcpiInfo, ioapics: &Vec<IoApic>, irq: u8, vector: u8, dest_id: u8) -> (r:
    Option<(usize, RedirectionWrite)>)
    ensures
        ({
            let gsi = gsi_for(irq, acpi.interrupt_overrides@);
            match first_serving(ioapics@, gsi) {
                None => r is None,
                Some(k) => r matches Some((i, w)) && i == k && w == RedirectionWrite {
                    low_reg: (0x10 + 2 * (gsi - ioapics@[k].gsi_base)) as u32,
                    low_val: redirection_low(vector, 0),
                    high_reg: (0x11 + 2 * (gsi - ioapics@[k].gsi_base)) as u32,
                    high_val: redirection_high(dest_id, 0),
                },
            }
        }),
{
    let gsi = acpi.resolve_gsi(irq);
    let mut i: usize = 0;
    proof {
        assert(ioapics@.skip(0) =~= ioapics@);
    }
    while i < ioapics.len()
        invariant
            i <= ioapics@.len(),
            gsi == gsi_for(irq, acpi.interrupt_overrides@),
            first_serving(ioapics@, gsi) == (match first_serving(ioapics@.skip(i as int), gsi) {
                Some(k) => Some(k + i),
                None => None::<int>,
            }),
        decreases ioapics@.len() - i,
    {
        let a = &ioapics[i];
        if gsi >= a.gsi_base && gsi as u64 <= a.gsi_base as u64 + a.max_redirection_entries as u64 {
            proof {
                assert(ioapics@.skip(i as int)[0] == ioapics@[i as int]);
            }
            let index = (gsi - a.gsi_base) as u8;
            let w = a.set_redirection(index, vector, dest_id, 0);
            match w {
                Some(w) => {
                    return Some((i, w));
                },
                None => {
                    return None;
                },
            }
        }
        proof {
            lemma_first_serving_skip(ioapics@, gsi, i as int);
        }
        i = i + 1;
    }
    proof {
        assert(ioapics@.skip(i as int).len() == 0);
    }
    None
}

/// What a handler did with an interrupt.
#[derive(Debug, Clone, Copy, PartialEq, Eq, Structural)]
pub enum IrqResult {
    /// Execution continues as if nothing handled it.
    Continue,
    /// The interrupt was handled.
    Handled,
}

/// Counters kept per interrupt vector.
#[derive(Debug, Clone, Copy, PartialEq, Eq, Structural)]
pub struct IrqStats {
    /// How many times the interrupt came.
    pub count: u64,
    /// How long its handler last ran, in whole seconds.
    pub last_time: u64,
    /// When it last came, in whole seconds since boot.
    pub interrupt_time: u64,
}

impl IrqStats {
    /// All counters at zero.
    pub open spec fn zero() -> Self {
        IrqStats { count: 0, last_time: 0, interrupt_time: 0 }
    }

    pub fn new() -> (s: Self)
        ensures
            s == (IrqStats { count: 0, last_time: 0, interrupt_time: 0 }),
    {
        IrqStats { count: 0, last_time: 0, interrupt_time: 0 }
    }
}

impl Default for IrqStats {
    fn default() -> (s: Self)
        ensures
            s == (IrqStats { count: 0, last_time: 0, interrupt_time: 0 }),
    {
        IrqStats::new()
    }
}

/// The number of interrupt vectors.
pub const IRQ_VECTORS: usize = 256;

/// The handlers registered for each interrupt vector, with their names and counters.
pub struct IrqRegistry<H> {
    handlers: Vec<Option<H>>,
    names: Vec<Option<&'static str>>,
    stats: Vec<IrqStats>,
}

impl<H: Copy> IrqRegistry<H> {
    /// The registry is well formed: one slot per vector, a name exactly where a handler is.
    pub closed spec fn wf(&self) -> bool {
        &&& self.handlers@.len() == IRQ_VECTORS
        &&& self.names@.len() == IRQ_VECTORS
        &&& self.stats@.len() == IRQ_VECTORS
        &&& forall|v: int| 0 <= v < IRQ_VECTORS ==> (#[trigger] self.handlers@[v] is Some) == (
            self.names@[v] is Some)
    }

    /// The handler registered for vector `v`.
    pub closed spec fn handler(&self, v: int) -> Option<H> {
        self.handlers@[v]
    }

    /// The name registered for vector `v`.
    pub closed spec fn name_of(&self, v: int) -> Option<&'static str> {
        self.names@[v]
    }

    /// The counters of vector `v`.
    pub closed spec fn stats_of(&self, v: int) -> IrqStats {
        self.stats@[v]
    }

    /// A registry with no handler and all counters at zero.
    pub fn new() -> (r: Self)
        ensures
            r.wf(),
            forall|v: int| 0 <= v < IRQ_VECTORS ==> #[trigger] r.handler(v) is None && r.stats_of(
                v,
            ) == IrqStats::zero(),
    {
        let mut handlers: Vec<Option<H>> = Vec::new();
        let mut names: Vec<Option<&'static str>> = Vec::new();
        let mut stats: Vec<IrqStats> = Vec::new();
        let mut i: usize = 0;
        while i < IRQ_VECTORS
            invariant
                i <= IRQ_VECTORS,
                handlers@.len() == i,
                names@.len() == i,
                stats@.len() == i,
                forall|v: int| 0 <= v < i ==> #[trigger] handlers@[v] is None,
                forall|v: int| 0 <= v < i ==> #[trigger] names@[v] is None,
                forall|v: int| 0 <= v < i ==> #[trigger] stats@[v] == IrqStats::zero(),
            decreases IRQ_VECTORS - i,
        {
            handlers.push(None);
            names.push(None);
            let z = IrqStats::new();
            stats.push(z);
            proof {
                assert(handlers@[i as int] is None);
                assert(names@[i as int] is None);
                assert(stats@[i as int] == IrqStats::zero());
            }
            i = i + 1;
        }
        let r = IrqRegistry { handlers, names, stats };
        proof {
            assert forall|v: int| 0 <= v < IRQ_VECTORS implies (#[trigger] r.handlers@[v] is Some)
                == (r.names@[v] is Some) by {}
        }
        r
    }

    /// Registers `handler` under `name` for `vector`, with fresh counters.
    /// A vector that already has a handler is refused.
    pub fn register(&mut self, vector: u8, name: &'static str, handler: H) -> (r: Result<
        (),
        &'static str,
    >)
        requires
            old(self).wf(),
        ensures
            final(self).wf(),
            old(self).handler(vector as int) is Some ==> r == Err::<(), &'static str>(
                "Handler already registered",
            ) && *final(self) == *old(self),
            old(self).handler(vector as int) is None ==> r is Ok && final(self).handler(
                vector as int,
            ) == Some(handler) && final(self).name_of(vector as int) == Some(name)
                && final(self).stats_of(vector as int) == IrqStats::zero(),
            forall|v: int|
                0 <= v < IRQ_VECTORS && v != vector ==> #[trigger] final(self).handler(v)
                    == old(self).handler(v) && final(self).name_of(v) == old(self).name_of(v)
                    && final(self).stats_of(v) == old(self).stats_of(v),
    {
        let v = vector as usize;
        if self.handlers[v].is_some() {
            return Err("Handler already registered");
        }
        self.handlers.set(v, Some(handler));
        self.names.set(v, Some(name));
        self.stats.set(v, IrqStats::new());
        Ok(())
    }

    /// Removes the handler of `vector` and resets its counters. A vector
    /// without a handler is refused.
    pub fn unregister(&mut self, vector: u8) -> (r: Result<(), &'static str>)
        requires
            old(self).wf(),
        ensures
            final(self).wf(),
            old(self).handler(vector as int) is None ==> r == Err::<(), &'static str>(
                "Handler not registered",
            ) && *final(self) == *old(self),
            old(self).handler(vector as int) is Some ==> r is Ok && final(self).handler(
                vector as int,
            ) is None && final(self).name_of(vector as int) is None && final(self).stats_of(
                vector as int,
            ) == IrqStats::zero(),
            forall|v: int|
                0 <= v < IRQ_VECTORS && v != vector ==> #[trigger] final(self).handler(v)
                    == old(self).handler(v) && final(self).name_of(v) == old(self).name_of(v)
                    && final(self).stats_of(v) == old(self).stats_of(v),
    {
        let v = vector as usize;
        if self.handlers[v].is_none() {
            return Err("Handler not registered");
        }
        self.handlers.set(v, None);
        self.names.set(v, None);
        self.stats.set(v, IrqStats::new());
        Ok(())
    }

    /// An interrupt on `vector` arrives at `now` (whole seconds since boot):
    /// it is counted and its time kept; the handler to run, if any, is
    /// returned. Without one the interrupt is left to continue.
    pub fn begin(&mut self, vector: u8, now: u64) -> (h: Option<H>)
        requires
            old(self).wf(),
            old(self).stats_of(vector as int).count < u64::MAX,
        ensures
            final(self).wf(),
            h == old(self).handler(vector as int),
            final(self).stats_of(vector as int) == (IrqStats {
                count: (old(self).stats_of(vector as int).count + 1) as u64,
                interrupt_time: now,
                ..old(self).stats_of(vector as int)
            }),
            forall|v: int|
                0 <= v < IRQ_VECTORS ==> #[trigger] final(self).handler(v) == old(self).handler(v)
                    && final(self).name_of(v) == old(self).name_of(v),
            forall|v: int|
                0 <= v < IRQ_VECTORS && v != vector ==> #[trigger] final(self).stats_of(v)
                    == old(self).stats_of(v),
    {
        let v = vector as usize;
        let mut s = self.stats[v];
        s.count = s.count + 1;
        s.interrupt_time = now;
        self.stats.set(v, s);
        self.handlers[v]
    }

    /// The handler of `vector` returned after running for `elapsed` whole seconds.
    pub fn finish(&mut self, vector: u8, elapsed: u64)
        requires
            old(self).wf(),
        ensures
            final(self).wf(),
            final(self).stats_of(vector as int) == (IrqStats {
                last_time: elapsed,
                ..old(self).stats_of(vector as int)
            }),
            forall|v: int|
                0 <= v < IRQ_VECTORS ==> #[trigger] final(self).handler(v) == old(self).handler(v)
                    && final(self).name_of(v) == old(self).name_of(v),
            forall|v: int|
                0 <= v < IRQ_VECTORS && v != vector ==> #[trigger] final(self).stats_of(v)
                    == old(self).stats_of(v),
    {
        let v = vector as usize;
        let mut s = self.stats[v];
        s.last_time = elapsed;
        self.stats.set(v, s);
    }

    /// The counters of `vector`.
    pub fn get_stats(&self, vector: u8) -> (s: IrqStats)
        requires
            self.wf(),
        ensures
            s == self.stats_of(vector as int),
    {
        self.stats[vector as usize]
    }
}

} // verus!
