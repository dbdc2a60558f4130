//! PCI configuration space: addresses, the decoding of what it holds, and
//! the bus scan as a sequence of reads and decisions.
//!
//! The port I/O itself (writing an address to 0xCF8, reading 0xCFC) is the
//! caller's: the scanner says which address to read next and is told what
//! was read.

use vstd::prelude::*;

verus! {

pub const PCI_ADDR: u16 = 0xCF8;
pub const PCI_DATA: u16 = 0xCFC;

/// Where a PCI function sits.
#[derive(Debug, Clone, Copy, PartialEq, Eq, Structural)]
pub struct PciLocation {
    /// The bus number of the PCI device.
    pub bus: u8,
    /// The slot number of the PCI device.
    pub slot: u8,
    /// The function number of the PCI device.
    pub func: u8,
}

/// The two identifiers read from offset 0 of a function's configuration space.
#[derive(Debug, Clone, Copy, PartialEq, Eq, Structural)]
pub struct PciIdentifier {
    /// The vendor ID of the PCI device.
    pub vendor: u16,
    /// The device ID of the PCI device.
    pub device: u16,
}

/// The class code read from offset 8 of a function's configuration space.
#[derive(Debug, Clone, Copy, PartialEq, Eq, Structural)]
pub struct PciClass {
    /// The class of the PCI device.
    pub class: u8,
    /// The subclass of the PCI device.
    pub subclass: u8,
    /// The prog_if of the PCI device.
    pub prog_if: u8,
}

/// The configuration address of a register: the enable bit, then bus, slot,
/// function and the offset's dword.
pub open spec fn config_address(bus: u32, slot: u32, func: u32, offset: u32) -> u32 {
    0x8000_0000u32 | (bus << 16u32) | (slot << 11u32) | (func << 8u32) | offset
}

/// How a dword at offset 0 reads: the vendor in the high half, the device in the low half.
pub open spec fn identifier_of(v: u32) -> PciIdentifier {
    PciIdentifier { vendor: (v >> 16u32) as u16, device: (v & 0xFFFFu32) as u16 }
}

/// How the dword at offset 8 reads: class, subclass and programming interface
/// from the third byte down.
pub open spec fn class_of(v: u32) -> PciClass {
    PciClass {
        class: ((v >> 16u32) & 0xFFu32) as u8,
        subclass: ((v >> 8u32) & 0xFFu32) as u8,
        prog_if: (v & 0xFFu32) as u8,
    }
}

impl PciLocation {
    pub fn new(bus: u8, slot: u8, func: u8) -> (l: Self)
        ensures
            l == (PciLocation { bus, slot, func }),
    {
        Self { bus, slot, func }
    }

    /// The address to write to the address port to read the dword that holds
    /// `offset`.
    pub fn config_address(&self, offset: u8) -> (a: u32)
        ensures
            a == config_address(
                self.bus as u32,
                self.slot as u32,
                self.func as u32,
                (offset & 0xFC) as u32,
            ),
    {
        let bus = self.bus as u32;
        let slot = self.slot as u32;
        let func = self.func as u32;
        let off = (offset & 0xFC) as u32;
        let a = (1u32 << 31) | bus << 16 | slot << 11 | func << 8 | off;
        assert(a == (0x8000_0000u32 | (bus << 16u32) | (slot << 11u32) | (func << 8u32) | off))
            by (bit_vector)
            requires
                a == (1u32 << 31) | bus << 16 | slot << 11 | func << 8 | off,
        ;
        a
    }
}

/// Decodes the dword at offset 0.
pub fn decode_identifier(v: u32) -> (id: PciIdentifier)
    ensures
        id == identifier_of(v),
{
    PciIdentifier { vendor: (v >> 16u32) as u16, device: (v & 0xFFFFu32) as u16 }
}

/// Decodes the dword at offset 8.
pub fn decode_class(v: u32) -> (c: PciClass)
    ensures
        c == class_of(v),
{
    PciClass {
        class: ((v >> 16u32) & 0xFFu32) as u8,
        subclass: ((v >> 8u32) & 0xFFu32) as u8,
        prog_if: (v & 0xFFu32) as u8,
    }
}

/// What the scanner reads next for the current function.
#[derive(Debug, Clone, Copy, PartialEq, Eq, Structural)]
pub enum ScanPhase {
    /// The identifiers (offset 0).
    Vendor,
    /// The class code (offset 8), for the function with these identifiers.
    Class(PciIdentifier),
    /// The header type (offset 0x0E), of function 0.
    Header,
}

/// The state of a scan of every bus, slot and function.
#[derive(Debug, Clone, Copy, PartialEq, Eq, Structural)]
pub struct ScanState {
    /// The bus being scanned; 256 once the scan is over.
    pub bus: u16,
    pub slot: u8,
    pub func: u8,
    /// The last function of the slot (7 for a multi-function device, else 0).
    pub max_func: u8,
    pub phase: ScanPhase,
}

/// The state after the current slot.
pub open spec fn next_slot(s: ScanState) -> ScanState {
    if s.slot + 1 < 32 {
        ScanState { bus: s.bus, slot: (s.slot + 1) as u8, func: 0, max_func: 0, phase: ScanPhase::Vendor }
    } else {
        ScanState { bus: (s.bus + 1) as u16, slot: 0, func: 0, max_func: 0, phase: ScanPhase::Vendor }
    }
}

/// The state after the current function.
pub open spec fn next_func(s: ScanState) -> ScanState {
    if s.func + 1 <= s.max_func {
        ScanState { func: (s.func + 1) as u8, phase: ScanPhase::Vendor, ..s }
    } else {
        next_slot(s)
    }
}

/// The address the scanner reads in a state.
pub open spec fn scan_address(s: ScanState) -> u32 {
    config_address(
        s.bus as u32,
        s.slot as u32,
        s.func as u32,
        match s.phase {
            ScanPhase::Vendor => 0,
            ScanPhase::Class(_) => 8,
            ScanPhase::Header => 0x0E,
        },
    )
}

/// One step of the scan: the state after reading `v`, and the function found
/// by it, if any. A slot whose function 0 reads vendor 0xFFFF is skipped
/// whole; an absent function of a multi-function device only itself.
pub open spec fn scan_step(s: ScanState, v: u32) -> (ScanState, Option<(PciLocation, PciIdentifier, PciClass)>) {
    match s.phase {
        ScanPhase::Vendor => {
            let id = identifier_of(v);
            if id.vendor == 0xFFFF {
                (if s.func == 0 { next_slot(s) } else { next_func(s) }, None)
            } else {
                (ScanState { phase: ScanPhase::Class(id), ..s }, None)
            }
        },
        ScanPhase::Class(id) => {
            let found = (
                PciLocation { bus: s.bus as u8, slot: s.slot, func: s.func },
                id,
                class_of(v),
            );
            if s.func == 0 {
                (ScanState { phase: ScanPhase::Header, ..s }, Some(found))
            } else {
                (next_func(s), Some(found))
            }
        },
        ScanPhase::Header => {
            let max_func: u8 = if ((v & 0xFFu32) as u8) & 0x80u8 != 0 { 7 } else { 0 };
            (next_func(ScanState { max_func, ..s }), None)
        },
    }
}

/// A scan over all 256 buses, 32 slots each, one read at a time.
pub struct PciScanner {
    state: ScanState,
    devices: Vec<(PciIdentifier, PciClass)>,
}

impl PciScanner {
    pub closed spec fn state(&self) -> ScanState {
        self.state
    }

    /// What was found so far, in scan order.
    pub closed spec fn found(&self) -> Seq<(PciIdentifier, PciClass)> {
        self.devices@
    }

    pub closed spec fn wf(&self) -> bool {
        &&& self.state.bus <= 256
        &&& self.state.slot < 32
        &&& self.state.func <= 7
        &&& self.state.max_func <= 7
        &&& self.state.bus == 256 ==> self.state.slot == 0 && self.state.phase == ScanPhase::Vendor
    }

    /// A scan about to read bus 0, slot 0, function 0.
    pub fn new() -> (s: Self)
        ensures
            s.wf(),
            s.state() == (ScanState { bus: 0, slot: 0, func: 0, max_func: 0, phase: ScanPhase::Vendor }),
            s.found() == Seq::<(PciIdentifier, PciClass)>::empty(),
    {
        PciScanner {
            state: ScanState { bus: 0, slot: 0, func: 0, max_func: 0, phase: ScanPhase::Vendor },
            devices: Vec::new(),
        }
    }

    /// The address to read next, or `None` once every bus was scanned.
    pub fn next_address(&self) -> (a: Option<u32>)
        requires
            self.wf(),
        ensures
            self.state().bus == 256 ==> a is None,
            self.state().bus < 256 ==> a == Some(scan_address(self.state())),
    {
        if self.state.bus >= 256 {
            return None;
        }
        let loc = PciLocation::new(self.state.bus as u8, self.state.slot, self.state.func);
        let offset: u8 = match self.state.phase {
            ScanPhase::Vendor => 0,
            ScanPhase::Class(_) => 8,
            ScanPhase::Header => 0,
        };
        let a = loc.config_address(offset);
        assert((0u8 & 0xFCu8) == 0u8 && (8u8 & 0xFCu8) == 8u8) by (bit_vector);
        match self.state.phase {
            ScanPhase::Header => {
                let bus = self.state.bus as u32;
                let slot = self.state.slot as u32;
                let func = self.state.func as u32;
                assert((0x8000_0000u32 | (bus << 16u32) | (slot << 11u32) | (func << 8u32) | 0u32)
                    | 0x0Eu32 == 0x8000_0000u32 | (bus << 16u32) | (slot << 11u32) | (func << 8u32)
                    | 0x0Eu32) by (bit_vector);
                Some(a | 0x0E)
            },
            _ => Some(a),
        }
    }

    /// Takes the value read at the address `next_address` gave, and moves on.
    pub fn feed(&mut self, v: u32) -> (found: Option<(PciLocation, PciIdentifier, PciClass)>)
        requires
            old(self).wf(),
            old(self).state().bus < 256,
        ensures
            final(self).wf(),
            (final(self).state(), found) == scan_step(old(self).state(), v),
            final(self).found() == match found {
                Some((_, id, class)) => old(self).found().push((id, class)),
                None => old(self).found(),
            },
    {
        let s = self.state;
        match s.phase {
            ScanPhase::Vendor => {
                let id = decode_identifier(v);
                if id.vendor == 0xFFFF {
                    self.state = if s.func == 0 { Self::after_slot(s) } else { Self::after_func(s) };
                } else {
                    self.state = ScanState { phase: ScanPhase::Class(id), ..s };
                }
                None
            },
            ScanPhase::Class(id) => {
                let class = decode_class(v);
                let loc = PciLocation::new(s.bus as u8, s.slot, s.func);
                self.devices.push((id, class));
                if s.func == 0 {
                    self.state = ScanState { phase: ScanPhase::Header, ..s };
                } else {
                    self.state = Self::after_func(s);
                }
                Some((loc, id, class))
            },
            ScanPhase::Header => {
                let header_type = (v & 0xFF) as u8;
                let max_func: u8 = if (header_type & 0x80) != 0 { 7 } else { 0 };
                self.state = Self::after_func(ScanState { max_func, ..s });
                None
            },
        }
    }

    fn after_slot(s: ScanState) -> (n: ScanState)
        requires
            s.bus < 256,
            s.slot < 32,
        ensures
            n == next_slot(s),
    {
        if s.slot + 1 < 32 {
            ScanState { bus: s.bus, slot: s.slot + 1, func: 0, max_func: 0, phase: ScanPhase::Vendor }
        } else {
            ScanState { bus: s.bus + 1, slot: 0, func: 0, max_func: 0, phase: ScanPhase::Vendor }
        }
    }

    fn after_func(s: ScanState) -> (n: ScanState)
        requires
            s.bus < 256,
            s.slot < 32,
            s.func <= 7,
        ensures
            n == next_func(s),
    {
        if s.func + 1 <= s.max_func {
            ScanState { func: s.func + 1, phase: ScanPhase::Vendor, ..s }
        } else {
            Self::after_slot(s)
        }
    }

    /// Everything found, in scan order.
    pub fn into_devices(self) -> (d: Vec<(PciIdentifier, PciClass)>)
        ensures
            d@ == self.found(),
    {
        self.devices
    }
}

/// Whether a function is a USB xHCI controller (class 0x0C, subclass 0x03,
/// programming interface 0x30).
pub open spec fn is_xhci(c: PciClass) -> bool {
    c.class == 0x0C && c.subclass == 0x03 && c.prog_if == 0x30
}

/// The xHCI controllers of `s`, in the same order.
pub open spec fn xhci_only(s: Seq<(PciIdentifier, PciClass)>) -> Seq<(PciIdentifier, PciClass)>
    decreases s.len(),
{
    if s.len() == 0 {
        s
    } else {
        let rest = xhci_only(s.drop_last());
        if is_xhci(s.last().1) {
            rest.push(s.last())
        } else {
            rest
        }
    }
}

/// The xHCI controllers among the functions found, in the same order.
pub fn xhci_controllers(devices: &Vec<(PciIdentifier, PciClass)>) -> (v: Vec<(PciIdentifier, PciClass)>)
    ensures
        v@ == xhci_only(devices@),
{
    let mut v: Vec<(PciIdentifier, PciClass)> = Vec::new();
    let mut i: usize = 0;
    while i < devices.len()
        invariant
            i <= devices@.len(),
            v@ == xhci_only(devices@.take(i as int)),
        decreases devices@.len() - i,
    {
        let d = devices[i];
        proof {
            assert(devices@.take(i + 1).drop_last() =~= devices@.take(i as int));
            assert(devices@.take(i + 1).last() == d);
        }
        if d.1.class == 0x0C && d.1.subclass == 0x03 && d.1.prog_if == 0x30 {
            v.push(d);
        }
        i = i + 1;
    }
    proof {
        assert(devices@.take(devices@.len() as int) =~= devices@);
    }
    v
}

} // verus!
