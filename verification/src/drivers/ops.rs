//! The operations a device offers, for drivers to implement.

use vstd::prelude::*;
use std::collections::BTreeMap;

verus! {

/// The kind of a device.
#[derive(Debug, Clone, Copy, PartialEq, Eq, Structural)]
pub enum DeviceType {
    Block,
    Char,
}

/// Why a device operation failed.
#[derive(Debug, Clone, Copy, PartialEq, Eq, Structural)]
pub enum DeviceError {
    InvalidParam,
    NotSupported,
    IoError,
    PermissionsDenied,
    NoSuchDevice,
    WouldBlock,
    Busy,
    OutOfMemory,
    DeviceClosed,
    BufferTooSmall,
    AlreadyOpen,
    NotOpen,
    AddressOutOfRange,
    DeviceAlreadyRegistered,
    DeviceNumberConflict,
    DeviceNotRegistered,
    DeviceStillInUse,
}

/// What a bus scan found out about a device.
#[derive(Debug, Clone)]
pub struct ScanInfo {
    /// The device ID.
    pub device_id: String,
    /// The protocol the device speaks (such as USB, PCI or I2C).
    pub protocol_type: String,
    /// The vendor ID.
    pub vendor_id: Option<u16>,
    /// The product ID.
    pub product_id: Option<u16>,
    /// Further data.
    pub additional_data: Option<BTreeMap<String, String>>,
}

/// Operations every device offers.
pub trait SharedDeviceOps {
    /// The device's name.
    fn name(&self) -> &str;

    /// Whether it is a block or a character device.
    fn device_type(&self) -> DeviceType;

    /// Opens the device.
    fn open(&self) -> Result<(), DeviceError>;

    /// Closes the device.
    fn close(&self) -> Result<(), DeviceError>;

    /// A device-specific control request.
    fn ioctl(&self, cmd: u64, arg: u64) -> Result<u64, DeviceError>;

    /// Flushes pending writes; unsupported unless the device says otherwise.
    fn sync(&self) -> (r: Result<(), DeviceError>)
        default_ensures
            r == Err::<(), DeviceError>(DeviceError::NotSupported),
    {
        Err(DeviceError::NotSupported)
    }

    /// Whether a driver for this device handles what a scan found; no unless the
    /// device says otherwise.
    fn is_compatible(&self, scan_info: &ScanInfo) -> (b: bool)
        default_ensures
            !b,
    {
        false
    }
}

/// A device read and written in blocks.
pub trait BlockDevice: SharedDeviceOps {
    /// Bytes per block.
    fn block_size(&self) -> usize;

    /// Number of blocks.
    fn num_blocks(&self) -> usize;

    /// Reads `num_blocks` blocks from `block_idx` into `buf`; returns the bytes read.
    fn read_blocks(&self, block_idx: usize, num_blocks: usize, buf: &mut [u8]) -> Result<usize, DeviceError>;

    /// Writes `num_blocks` blocks from `buf` at `block_idx`; returns the bytes written.
    fn write_blocks(&self, block_idx: usize, num_blocks: usize, buf: &[u8]) -> Result<usize, DeviceError>;

    /// Erases blocks; unsupported unless the device says otherwise.
    fn erase_blocks(&self, start_block: usize, num_blocks: usize) -> (r: Result<usize, DeviceError>)
        default_ensures
            r == Err::<usize, DeviceError>(DeviceError::NotSupported),
    {
        Err(DeviceError::NotSupported)
    }
}

/// A device read and written as a stream of bytes.
pub trait CharDevice: SharedDeviceOps {
    /// Reads into `buf`; returns the bytes read.
    fn read(&self, buf: &mut [u8]) -> Result<usize, DeviceError>;

    /// Writes `buf`; returns the bytes written.
    fn write(&self, buf: &[u8]) -> Result<usize, DeviceError>;

    /// Reads without consuming; unsupported unless the device says otherwise.
    fn peek(&self, buf: &mut [u8]) -> (r: Result<usize, DeviceError>)
        default_ensures
            r == Err::<usize, DeviceError>(DeviceError::NotSupported),
    {
        Err(DeviceError::NotSupported)
    }

    /// Whether data is waiting; no unless the device says otherwise.
    fn has_data(&self) -> (b: bool)
        default_ensures
            !b,
    {
        false
    }

    /// Whether a write would be taken; no unless the device says otherwise.
    fn has_space(&self) -> (b: bool)
        default_ensures
            !b,
    {
        false
    }

    /// Switches non-blocking mode; unsupported unless the device says otherwise.
    fn set_nonblocking(&self, nonblocking: bool) -> (r: Result<(), DeviceError>)
        default_ensures
            r == Err::<(), DeviceError>(DeviceError::NotSupported),
    {
        Err(DeviceError::NotSupported)
    }
}

/// A device by its kind: a character device or a block device.
pub enum DeviceInner<C, B> {
    Char(C),
    Block(B),
}

/// A null device: reads nothing, swallows writes.
pub struct TestDevice;

impl SharedDeviceOps for TestDevice {
    fn name(&self) -> (s: &str)
        ensures
            s@ == "null"@,
    {
        "null"
    }

    fn device_type(&self) -> (t: DeviceType)
        ensures
            t == DeviceType::Char,
    {
        DeviceType::Char
    }

    fn open(&self) -> (r: Result<(), DeviceError>)
        ensures
            r == Ok::<(), DeviceError>(()),
    {
        Ok(())
    }

    fn close(&self) -> (r: Result<(), DeviceError>)
        ensures
            r == Ok::<(), DeviceError>(()),
    {
        Ok(())
    }

    /// No control requests are supported.
    fn ioctl(&self, cmd: u64, arg: u64) -> (r: Result<u64, DeviceError>)
        ensures
            r == Err::<u64, DeviceError>(DeviceError::NotSupported),
    {
        Err(DeviceError::NotSupported)
    }
}

impl CharDevice for TestDevice {
    /// Reads nothing: always at end of data, `buf` untouched.
    fn read(&self, buf: &mut [u8]) -> (r: Result<usize, DeviceError>)
        ensures
            r == Ok::<usize, DeviceError>(0),
            final(buf)@ == old(buf)@,
    {
        Ok(0)
    }

    /// Swallows every byte of `buf`.
    fn write(&self, buf: &[u8]) -> (r: Result<usize, DeviceError>)
        ensures
            r == Ok::<usize, DeviceError>(buf@.len() as usize),
    {
        Ok(buf.len())
    }
}

} // verus!
