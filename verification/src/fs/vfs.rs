//! Types shared by the file systems.

use vstd::prelude::*;
use crate::drivers::ops::DeviceError;

verus! {

/// The kind of a file system node.
#[derive(Debug, Clone, Copy, PartialEq, Eq, Structural)]
pub enum VNodeType {
    File,
    Dir,
    SymLink,
    Device,
}

/// What a node reports about itself.
#[derive(Debug, Clone, Copy, PartialEq, Eq, Structural)]
pub struct Metadata {
    /// Size in bytes.
    pub size: u64,
    /// Unix permission bits.
    pub permissions: u32,
    pub uid: u32,
    pub gid: u32,
    pub ctime: u64,
    pub mtime: u64,
    /// Size in 512-byte blocks, rounded up.
    pub blocks: u64,
    /// Number of links.
    pub nlinks: u32,
}

/// Why a file system operation failed.
#[derive(Debug, Clone, Copy, PartialEq, Eq, Structural)]
pub enum VfsError {
    NotFound,
    AlreadyExists,
    NotADirectory,
    NotAFile,
    NotImplemented,
    DirectoryNotEmpty,
    PermissionDenied,
    InvalidArgument,
    DeviceError(DeviceError),
}

} // verus!
