//! Device identifiers and the data a bus keeps about a device.

use vstd::prelude::*;
use crate::fs::names::{compare_names, NameOrder};
use crate::text::string_from_chars;

verus! {

/// The lower-case hexadecimal digit for `d`.
pub open spec fn hex_char(d: int) -> char {
    if d < 10 {
        ((d + 48) as u8) as char
    } else {
        ((d + 87) as u8) as char
    }
}

/// `v` as `0x` and four hexadecimal digits.
pub open spec fn hex16(v: u16) -> Seq<char> {
    seq![
        '0',
        'x',
        hex_char((v / 4096) as int),
        hex_char(((v / 256) % 16) as int),
        hex_char(((v / 16) % 16) as int),
        hex_char((v % 16) as int),
    ]
}

/// An identifier by which drivers recognise a device; each bus has its own scheme.
pub trait DeviceId {
    /// The scheme's name.
    spec fn spec_name(&self) -> Seq<char>;

    /// The identifier as text.
    spec fn spec_unique_id(&self) -> Seq<char>;

    /// The name of the scheme.
    fn name(&self) -> (s: &str)
        ensures
            s@ == self.spec_name(),
    ;

    /// The identifier as text, unique among devices.
    fn unique_id(&self) -> (s: String)
        ensures
            s@ == self.spec_unique_id(),
    ;

    /// Whether two identifiers name the same device.
    fn matches(&self, other: &Self) -> (b: bool)
        ensures
            b == (self.spec_unique_id() == other.spec_unique_id()),
    {
        let x = self.unique_id();
        let y = other.unique_id();
        match compare_names(x.as_str(), y.as_str()) {
            NameOrder::Equal => true,
            _ => false,
        }
    }
}

/// Whether two identifiers, of any schemes, name the same device.
pub fn ids_match<A: DeviceId + ?Sized, B: DeviceId + ?Sized>(a: &A, b: &B) -> (m: bool)
    ensures
        m == (a.spec_unique_id() == b.spec_unique_id()),
{
    let x = a.unique_id();
    let y = b.unique_id();
    match compare_names(x.as_str(), y.as_str()) {
        NameOrder::Equal => true,
        _ => false,
    }
}

/// Appends the hexadecimal digit for `d`.
fn push_hex_digit(out: &mut Vec<char>, d: u16)
    requires
        d < 16,
    ensures
        final(out)@ == old(out)@.push(hex_char(d as int)),
{
    let c = if d < 10 {
        (48u8 + d as u8) as char
    } else {
        (87u8 + d as u8) as char
    };
    out.push(c);
}

/// Appends `v` as `0x` and four hexadecimal digits.
fn push_hex16(out: &mut Vec<char>, v: u16)
    ensures
        final(out)@ == old(out)@ + hex16(v),
{
    out.push('0');
    out.push('x');
    push_hex_digit(out, v / 4096);
    push_hex_digit(out, (v / 256) % 16);
    push_hex_digit(out, (v / 16) % 16);
    push_hex_digit(out, v % 16);
    proof {
        assert(out@ =~= old(out)@ + hex16(v));
    }
}

/// A PCI device identifier: vendor and device number.
#[derive(Debug, Clone, Copy, PartialEq, Eq, Structural)]
pub struct PciDeviceId {
    /// The vendor ID.
    pub vendor: u16,
    /// The device ID.
    pub device: u16,
}

impl PciDeviceId {
    pub fn new(vendor: u16, device: u16) -> (id: Self)
        ensures
            id.vendor == vendor,
            id.device == device,
    {
        PciDeviceId { vendor, device }
    }
}

impl DeviceId for PciDeviceId {
    open spec fn spec_name(&self) -> Seq<char> {
        seq!['p', 'c', 'i']
    }

    /// `pci_`, the vendor and the device, each as `0x` and four hexadecimal digits.
    open spec fn spec_unique_id(&self) -> Seq<char> {
        seq!['p', 'c', 'i', '_'] + hex16(self.vendor) + seq!['_'] + hex16(self.device)
    }

    fn name(&self) -> (s: &str) {
        proof {
            reveal_strlit("pci");
        }
        "pci"
    }

    fn unique_id(&self) -> (s: String) {
        let mut out: Vec<char> = Vec::new();
        out.push('p');
        out.push('c');
        out.push('i');
        out.push('_');
        push_hex16(&mut out, self.vendor);
        out.push('_');
        push_hex16(&mut out, self.device);
        proof {
            assert(out@ =~= self.spec_unique_id());
        }
        string_from_chars(&out)
    }
}

/// A platform device identifier: a name, for legacy hardware found without a bus scan.
#[derive(Debug, Clone)]
pub struct PlatformDeviceId {
    /// The device's name (such as `serial`, `keyboard` or `rtc`).
    pub name: String,
}

impl PlatformDeviceId {
    pub fn new(name: &str) -> (id: Self)
        ensures
            id.name@ == name@,
    {
        PlatformDeviceId { name: String::from_str(name) }
    }
}

impl DeviceId for PlatformDeviceId {
    open spec fn spec_name(&self) -> Seq<char> {
        seq!['p', 'l', 'a', 't', 'f', 'o', 'r', 'm']
    }

    /// `platform_` and the name.
    open spec fn spec_unique_id(&self) -> Seq<char> {
        seq!['p', 'l', 'a', 't', 'f', 'o', 'r', 'm', '_'] + self.name@
    }

    fn name(&self) -> (s: &str) {
        proof {
            reveal_strlit("platform");
        }
        "platform"
    }

    fn unique_id(&self) -> (s: String) {
        let mut out = String::from_str("platform_");
        proof {
            reveal_strlit("platform_");
        }
        out.append(self.name.as_str());
        proof {
            assert(out@ =~= self.spec_unique_id());
        }
        out
    }
}

/// What a bus keeps about a device.
#[derive(Debug)]
pub enum BusData {
    /// Where a PCI device sits.
    Pci { bus: u8, slot: u8, func: u8 },
    /// The named resources of a platform device.
    Platform { resources: Vec<(String, String)> },
}

/// A device found on a bus.
#[derive(Debug)]
pub struct DeviceNode<I> {
    /// How drivers recognise the device.
    pub device_id: I,
    /// A readable name.
    pub name: String,
    /// The device it hangs off, if any.
    pub parent: Option<Box<DeviceNode<I>>>,
    /// Whether a driver is bound to it.
    pub driver_bound: bool,
    /// What the bus keeps about it.
    pub bus_data: Option<BusData>,
}

/// The path of a device: its ancestors' names and its own, each after a `/`.
pub open spec fn device_path<I>(n: DeviceNode<I>) -> Seq<char>
    decreases n,
{
    match n.parent {
        Some(p) => device_path(*p) + seq!['/'] + n.name@,
        None => seq!['/'] + n.name@,
    }
}

impl<I> DeviceNode<I> {
    /// A root device with no driver and no bus data.
    pub fn new(device_id: I, name: String) -> (n: Self)
        ensures
            n.device_id == device_id,
            n.name == name,
            n.parent is None,
            !n.driver_bound,
            n.bus_data is None,
    {
        DeviceNode { device_id, name, parent: None, driver_bound: false, bus_data: None }
    }

    pub fn set_parent(&mut self, parent: DeviceNode<I>)
        ensures
            final(self).parent == Some(Box::new(parent)),
            final(self).device_id == old(self).device_id,
            final(self).name == old(self).name,
            final(self).driver_bound == old(self).driver_bound,
            final(self).bus_data == old(self).bus_data,
    {
        self.parent = Some(Box::new(parent));
    }

    pub fn is_bound(&self) -> (b: bool)
        ensures
            b == self.driver_bound,
    {
        self.driver_bound
    }

    pub fn mark_bound(&mut self)
        ensures
            *final(self) == (DeviceNode { driver_bound: true, ..*old(self) }),
    {
        self.driver_bound = true;
    }

    pub fn mark_unbound(&mut self)
        ensures
            *final(self) == (DeviceNode { driver_bound: false, ..*old(self) }),
    {
        self.driver_bound = false;
    }

    /// The device's path, as the virtual file system shows it.
    pub fn get_path(&self) -> (p: String)
        ensures
            p@ == device_path(*self),
        decreases *self,
    {
        let mut out = match &self.parent {
            Some(parent) => parent.get_path(),
            None => String::new(),
        };
        proof {
            reveal_strlit("/");
        }
        out.append("/");
        out.append(self.name.as_str());
        proof {
            if self.parent is None {
                assert(out@ =~= seq!['/'] + self.name@);
            }
        }
        out
    }
}

/// Every device found, in the order they were added.
pub struct DeviceTree<I> {
    devices: Vec<DeviceNode<I>>,
}

impl<I> DeviceTree<I> {
    /// The devices, oldest first.
    pub closed spec fn spec_devices(&self) -> Seq<DeviceNode<I>> {
        self.devices@
    }

    pub fn new() -> (t: Self)
        ensures
            t.spec_devices() == Seq::<DeviceNode<I>>::empty(),
    {
        DeviceTree { devices: Vec::new() }
    }

    pub fn add_device(&mut self, device: DeviceNode<I>)
        ensures
            final(self).spec_devices() == old(self).spec_devices().push(device),
    {
        self.devices.push(device);
    }

    pub fn list_devices(&self) -> (v: &Vec<DeviceNode<I>>)
        ensures
            v@ == self.spec_devices(),
    {
        &self.devices
    }
}

proof fn lemma_hex_char_injective(a: int, b: int)
    requires
        0 <= a < 16,
        0 <= b < 16,
        hex_char(a) == hex_char(b),
    ensures
        a == b,
{
    if a < 10 && b < 10 {
        assert(((a + 48) as u8) as char == ((b + 48) as u8) as char);
    } else if a >= 10 && b >= 10 {
        assert(((a + 87) as u8) as char == ((b + 87) as u8) as char);
    } else if a < 10 {
        assert((((a + 48) as u8) as char) as int == a + 48);
        assert((((b + 87) as u8) as char) as int == b + 87);
    } else {
        assert((((a + 87) as u8) as char) as int == a + 87);
        assert((((b + 48) as u8) as char) as int == b + 48);
    }
}

/// Different PCI identifiers have different unique IDs.
pub proof fn lemma_pci_ids_unique(a: PciDeviceId, b: PciDeviceId)
    requires
        a != b,
    ensures
        a.spec_unique_id() != b.spec_unique_id(),
{
    if a.spec_unique_id() == b.spec_unique_id() {
        let x = a.spec_unique_id();
        let y = b.spec_unique_id();
        assert forall|k: int| 0 <= k < 6 implies hex16(a.vendor)[k] == hex16(b.vendor)[k] by {
            assert(x[4 + k] == y[4 + k]);
        }
        assert forall|k: int| 0 <= k < 6 implies hex16(a.device)[k] == hex16(b.device)[k] by {
            assert(x[11 + k] == y[11 + k]);
        }
        lemma_hex16_injective(a.vendor, b.vendor);
        lemma_hex16_injective(a.device, b.device);
    }
}

proof fn lemma_hex16_injective(v: u16, w: u16)
    requires
        forall|k: int| 0 <= k < 6 ==> hex16(v)[k] == hex16(w)[k],
    ensures
        v == w,
{
    assert(hex16(v)[2] == hex16(w)[2]);
    assert(hex16(v)[3] == hex16(w)[3]);
    assert(hex16(v)[4] == hex16(w)[4]);
    assert(hex16(v)[5] == hex16(w)[5]);
    lemma_hex_char_injective((v / 4096) as int, (w / 4096) as int);
    lemma_hex_char_injective(((v / 256) % 16) as int, ((w / 256) % 16) as int);
    lemma_hex_char_injective(((v / 16) % 16) as int, ((w / 16) % 16) as int);
    lemma_hex_char_injective((v % 16) as int, (w % 16) as int);
    assert(v == w) by (bit_vector)
        requires
            v / 4096 == w / 4096,
            (v / 256) % 16 == (w / 256) % 16,
            (v / 16) % 16 == (w / 16) % 16,
            v % 16 == w % 16,
    ;
}

/// A PCI identifier never matches a platform identifier.
pub proof fn lemma_schemes_never_match(a: PciDeviceId, b: PlatformDeviceId)
    ensures
        a.spec_unique_id() != b.spec_unique_id(),
{
    assert(a.spec_unique_id()[1] == 'c');
    assert(b.spec_unique_id()[1] == 'l');
}

} // verus!
