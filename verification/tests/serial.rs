use proka_kernel::drivers::ops::{CharDevice, DeviceError, DeviceType, SharedDeviceOps, TestDevice};
use proka_kernel::drivers::serial::{SerialDevice, SerialLine};
use std::cell::{Cell, RefCell};

struct RecordingLine {
    inits: Cell<u32>,
    sent: RefCell<Vec<u8>>,
}

impl SerialLine for RecordingLine {
    fn init(&self) {
        self.inits.set(self.inits.get() + 1);
    }

    fn send(&self, byte: u8) {
        self.sent.borrow_mut().push(byte);
    }
}

fn line() -> RecordingLine {
    RecordingLine { inits: Cell::new(0), sent: RefCell::new(Vec::new()) }
}

#[test]
fn serial_device_is_named_by_its_port() {
    let d = SerialDevice::new(0x3F8, line());
    assert_eq!(d.name(), "serial-1016");
    assert_eq!(d.port_address(), 0x3F8);
    assert_eq!(d.device_type(), DeviceType::Char);
    assert_eq!(SerialDevice::new(0, line()).name(), "serial-0");
}

#[test]
fn serial_ioctl_reports_the_port() {
    let d = SerialDevice::new(0x2F8, line());
    assert_eq!(d.ioctl(1, 0), Ok(0x2F8));
    assert_eq!(d.ioctl(2, 7), Err(DeviceError::NotSupported));
    assert_eq!(d.open(), Ok(()));
    assert_eq!(d.close(), Ok(()));
}

#[test]
fn serial_writes_every_byte_and_cannot_be_read() {
    let d = SerialDevice::new(0x3F8, line());
    assert_eq!(d.write(b"hi!"), Ok(3));
    assert_eq!(d.write(b""), Ok(0));
    assert_eq!(*d.line().sent.borrow(), b"hi!".to_vec());
    assert_eq!(d.line().inits.get(), 1);
    let mut buf = [9u8; 4];
    assert_eq!(d.read(&mut buf), Err(DeviceError::NotSupported));
    assert_eq!(buf, [9u8; 4]);
    assert_eq!(d.sync(), Err(DeviceError::NotSupported));
}

#[test]
fn null_device_swallows_writes_and_reads_nothing() {
    let d = TestDevice;
    assert_eq!(d.name(), "null");
    assert_eq!(d.device_type(), DeviceType::Char);
    assert_eq!(d.open(), Ok(()));
    assert_eq!(d.close(), Ok(()));
    assert_eq!(d.ioctl(1, 0), Err(DeviceError::NotSupported));
    let mut buf = [7u8; 3];
    assert_eq!(d.read(&mut buf), Ok(0));
    assert_eq!(buf, [7u8; 3]);
    assert_eq!(d.write(b"abcd"), Ok(4));
}
