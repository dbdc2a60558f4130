//! File systems: shared types and the in-memory file system.

pub mod vfs;
pub mod names;
pub mod memfs;
pub mod kernfs;
pub mod fat32;
