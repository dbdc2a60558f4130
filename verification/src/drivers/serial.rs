//! A serial port as a character device.

use vstd::prelude::*;
use crate::drivers::ops::{CharDevice, DeviceError, DeviceType, SharedDeviceOps};
use crate::text::{decimal_digits, push_decimal, string_from_chars};

verus! {

/// The wire a serial device transmits on: the UART at the device's port.
/// The machine provides it; programming the chip and moving bytes are port I/O.
pub trait SerialLine {
    /// Programs the UART (speed, framing, FIFOs).
    fn init(&self);

    /// Sends one byte, waiting until the transmitter can take it.
    fn send(&self, byte: u8);
}

/// The name a serial device takes: `serial-` and its port address in decimal.
pub open spec fn serial_name(port_address: u16) -> Seq<char> {
    seq!['s', 'e', 'r', 'i', 'a', 'l', '-'] + decimal_digits(port_address as nat)
}

/// What `ioctl` answers: command 1 asks for the port address; any other
/// command is not supported.
pub open spec fn serial_ioctl(port_address: u16, cmd: u64) -> Result<u64, DeviceError> {
    if cmd == 1 {
        Ok(port_address as u64)
    } else {
        Err(DeviceError::NotSupported)
    }
}

/// A character device on a serial port: write-only.
pub struct SerialDevice<L> {
    port_address: u16,
    name: String,
    line: L,
}

impl<L: SerialLine> SerialDevice<L> {
    /// The port the device sits at.
    pub closed spec fn port(&self) -> u16 {
        self.port_address
    }

    /// The line the device transmits on.
    pub closed spec fn line_of(&self) -> L {
        self.line
    }

    /// The device's name.
    pub closed spec fn name_view(&self) -> Seq<char> {
        self.name@
    }

    /// A device on the UART at `port_address`, reached through `line`, which
    /// is programmed first.
    pub fn new(port_address: u16, line: L) -> (d: Self)
        ensures
            d.port() == port_address,
            d.name_view() == serial_name(port_address),
    {
        line.init();
        let mut chars: Vec<char> = Vec::new();
        chars.push('s');
        chars.push('e');
        chars.push('r');
        chars.push('i');
        chars.push('a');
        chars.push('l');
        chars.push('-');
        push_decimal(&mut chars, port_address as u64);
        proof {
            assert(chars@ =~= serial_name(port_address));
        }
        let name = string_from_chars(&chars);
        SerialDevice { port_address, name, line }
    }

    /// The line the device transmits on.
    pub fn line(&self) -> (l: &L)
        ensures
            *l == self.line_of(),
    {
        &self.line
    }

    /// The port the device sits at.
    pub fn port_address(&self) -> (p: u16)
        ensures
            p == self.port(),
    {
        self.port_address
    }
}

impl<L: SerialLine> SharedDeviceOps for SerialDevice<L> {
    fn name(&self) -> (s: &str)
        ensures
            s@ == self.name_view(),
    {
        self.name.as_str()
    }

    fn device_type(&self) -> (t: DeviceType)
        ensures
            t == DeviceType::Char,
    {
        DeviceType::Char
    }

    fn open(&self) -> (r: Result<(), DeviceError>)
        ensures
            r == Ok::<(), DeviceError>(()),
    {
        Ok(())
    }

    fn close(&self) -> (r: Result<(), DeviceError>)
        ensures
            r == Ok::<(), DeviceError>(()),
    {
        Ok(())
    }

    fn ioctl(&self, cmd: u64, arg: u64) -> (r: Result<u64, DeviceError>)
        ensures
            r == serial_ioctl(self.port(), cmd),
    {
        if cmd == 1 {
            Ok(self.port_address as u64)
        } else {
            Err(DeviceError::NotSupported)
        }
    }
}

impl<L: SerialLine> CharDevice for SerialDevice<L> {
    /// A serial device cannot be read.
    fn read(&self, buf: &mut [u8]) -> (r: Result<usize, DeviceError>)
        ensures
            r == Err::<usize, DeviceError>(DeviceError::NotSupported),
            final(buf)@ == old(buf)@,
    {
        Err(DeviceError::NotSupported)
    }

    /// Sends every byte of `buf`, in order, and reports them all written.
    fn write(&self, buf: &[u8]) -> (r: Result<usize, DeviceError>)
        ensures
            r == Ok::<usize, DeviceError>(buf@.len() as usize),
    {
        let mut i: usize = 0;
        while i < buf.len()
            invariant
                i <= buf@.len(),
            decreases buf@.len() - i,
        {
            self.line.send(buf[i]);
            i = i + 1;
        }
        Ok(buf.len())
    }
}

} // verus!
