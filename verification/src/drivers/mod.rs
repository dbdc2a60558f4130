//! Device support: the device operations, resource bookkeeping, device
//! identifiers and the serial port device.

pub mod ops;
pub mod resource;
pub mod bus;
pub mod serial;
