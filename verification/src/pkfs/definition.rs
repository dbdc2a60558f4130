//! The on-disk records that a mounted ProkaFS file system works with: the
//! super block, 24-byte inodes and directory entries, with their byte layouts
//! (C layout, little endian, zeroed padding).

use vstd::prelude::*;
use crate::bytes::{le_bytes, zeros, lemma_le_bytes_len, push_u32_le, push_u64_le, push_zeros, push_bytes};

verus! {

/// Magic number at the start of a ProkaFS super block ("PKFS").
pub const PKFS_MAGIC: u32 = 0x504B4653;

/// Size in bytes of an inode on disk.
pub const INODE_SIZE: usize = 24;

/// Size in bytes of a directory entry on disk.
pub const DIR_ENTRY_SIZE: usize = 260;

/// Bytes of the inode-part map: one per inode that 1024 blocks of 1024 bytes hold.
pub const INODE_BLOCK_BITMAP_SIZE: usize = 43690;

/// Size in bytes of a super block on disk (two bytes of padding at the end).
pub const SUPER_BLOCK_SIZE: usize = 43964;

/// The super block.
#[derive(Debug, Clone)]
pub struct SuperBlock {
    /// The magic number that identifies the file system.
    pub magic: u32,
    /// The size of each block in bytes.
    pub block_size: u32,
    /// The total number of blocks in the file system.
    pub total_blocks: u32,
    /// The block number where the data starts.
    pub data_start_block: u32,
    /// One byte per block: nonzero when the block is used.
    pub block_bitmap: [u8; 128],
    /// One byte per inode part: nonzero when it is used.
    pub inode_block_bitmap: [u8; 43690],
    /// One byte per inode: nonzero when the inode is used.
    pub inode_bitmap: [u8; 128],
}

/// The bytes of a super block on disk.
pub open spec fn super_block_bytes(sb: SuperBlock) -> Seq<u8> {
    le_bytes(sb.magic as nat, 4) + le_bytes(sb.block_size as nat, 4) + le_bytes(sb.total_blocks as nat, 4)
        + le_bytes(sb.data_start_block as nat, 4) + sb.block_bitmap@ + sb.inode_block_bitmap@
        + sb.inode_bitmap@ + zeros(2)
}

impl SuperBlock {
    /// The super block's bytes as stored on disk.
    pub fn as_bytes(&self) -> (b: Vec<u8>)
        ensures
            b@ == super_block_bytes(*self),
            b@.len() == SUPER_BLOCK_SIZE,
    {
        let mut out: Vec<u8> = Vec::new();
        push_u32_le(&mut out, self.magic);
        push_u32_le(&mut out, self.block_size);
        push_u32_le(&mut out, self.total_blocks);
        push_u32_le(&mut out, self.data_start_block);
        push_bytes(&mut out, self.block_bitmap.as_slice());
        push_bytes(&mut out, self.inode_block_bitmap.as_slice());
        push_bytes(&mut out, self.inode_bitmap.as_slice());
        push_zeros(&mut out, 2);
        proof {
            lemma_le_bytes_len(self.magic as nat, 4);
            lemma_le_bytes_len(self.block_size as nat, 4);
            lemma_le_bytes_len(self.total_blocks as nat, 4);
            lemma_le_bytes_len(self.data_start_block as nat, 4);
            assert(out@ =~= super_block_bytes(*self));
        }
        out
    }
}

/// `sb` is the super block a file system is mounted with: 1024 blocks of 1024
/// bytes, data from block 1, every block, inode part and inode free.
pub open spec fn is_default_super_block(sb: SuperBlock) -> bool {
    &&& sb.magic == PKFS_MAGIC
    &&& sb.block_size == 1024
    &&& sb.total_blocks == 1024
    &&& sb.data_start_block == 1
    &&& forall|i: int| 0 <= i < 128 ==> sb.block_bitmap[i] == 0 && sb.inode_bitmap[i] == 0
    &&& forall|i: int| 0 <= i < INODE_BLOCK_BITMAP_SIZE ==> sb.inode_block_bitmap[i] == 0
}

impl Default for SuperBlock {
    /// The super block a file system is mounted with.
    fn default() -> (sb: Self)
        ensures
            is_default_super_block(sb),
    {
        SuperBlock {
            magic: PKFS_MAGIC,
            block_size: 1024,
            total_blocks: 1024,
            data_start_block: 1,
            block_bitmap: [0; 128],
            inode_block_bitmap: [0; 43690],
            inode_bitmap: [0; 128],
        }
    }
}

/// The type of a file.
#[derive(Debug, Clone, Copy, PartialEq, Eq, Structural)]
pub enum FileType {
    /// A regular file.
    Regular,
    /// A directory.
    Directory,
    /// A device file.
    Device,
}

/// The on-disk number of a file type.
pub open spec fn file_type_code(t: FileType) -> u8 {
    match t {
        FileType::Regular => 0,
        FileType::Directory => 1,
        FileType::Device => 2,
    }
}

/// The file type an on-disk number denotes.
pub open spec fn file_type_of(code: u8) -> Option<FileType> {
    if code == 0 {
        Some(FileType::Regular)
    } else if code == 1 {
        Some(FileType::Directory)
    } else if code == 2 {
        Some(FileType::Device)
    } else {
        None
    }
}

/// The on-disk number of a file type.
pub fn file_type_byte(t: FileType) -> (b: u8)
    ensures
        b == file_type_code(t),
{
    match t {
        FileType::Regular => 0u8,
        FileType::Directory => 1u8,
        FileType::Device => 2u8,
    }
}

/// An inode.
#[derive(Debug, Clone, Copy, PartialEq, Eq)]
pub struct Inode {
    /// The ID of this inode.
    pub inode_id: u32,
    /// The file type.
    pub file_type: FileType,
    /// The head block of the file.
    pub head_block: u32,
    /// The file length in bytes.
    pub file_length: u64,
}

/// The bytes of an inode on disk.
pub open spec fn inode_bytes(i: Inode) -> Seq<u8> {
    le_bytes(i.inode_id as nat, 4) + seq![file_type_code(i.file_type)] + zeros(3)
        + le_bytes(i.head_block as nat, 4) + zeros(4) + le_bytes(i.file_length as nat, 8)
}

impl Inode {
    /// The inode's bytes as stored on disk.
    pub fn as_bytes(&self) -> (b: Vec<u8>)
        ensures
            b@ == inode_bytes(*self),
            b@.len() == INODE_SIZE,
    {
        let mut out: Vec<u8> = Vec::new();
        push_u32_le(&mut out, self.inode_id);
        out.push(file_type_byte(self.file_type));
        push_zeros(&mut out, 3);
        push_u32_le(&mut out, self.head_block);
        push_zeros(&mut out, 4);
        push_u64_le(&mut out, self.file_length);
        proof {
            lemma_le_bytes_len(self.inode_id as nat, 4);
            lemma_le_bytes_len(self.head_block as nat, 4);
            lemma_le_bytes_len(self.file_length as nat, 8);
            assert(out@ =~= inode_bytes(*self));
        }
        out
    }

    /// Locates inode `inode_id`: the block that holds it (inodes start at block 1)
    /// and its byte offset in that block.
    pub fn locate(inode_id: u32, super_block: &SuperBlock) -> (r: (u64, usize))
        requires
            super_block.block_size >= INODE_SIZE,
        ensures
            ({
                let per_block = super_block.block_size as int / INODE_SIZE as int;
                &&& r.0 == 1 + inode_id as int / per_block
                &&& r.1 == (inode_id as int % per_block) * INODE_SIZE
            }),
    {
        let inodes_per_block = super_block.block_size as usize / INODE_SIZE;
        let inode_start_block = 1u64;
        let block_idx = inode_start_block + (inode_id as u64 / inodes_per_block as u64);
        let offset = (inode_id as usize % inodes_per_block) * INODE_SIZE;
        (block_idx, offset)
    }
}

/// A directory entry.
#[derive(Clone, Copy)]
pub struct DirEntry {
    /// The inode number of the entry.
    pub inode: u32,
    /// The entry's name: up to 255 bytes, then zeros.
    pub name: [u8; 256],
}

/// The bytes of a directory entry on disk.
pub open spec fn dir_entry_bytes(e: DirEntry) -> Seq<u8> {
    le_bytes(e.inode as nat, 4) + e.name@
}

impl DirEntry {
    /// The empty entry: inode 0 and an all-zero name.
    pub fn empty() -> (e: Self)
        ensures
            e.inode == 0,
            forall|i: int| 0 <= i < 256 ==> e.name[i] == 0,
    {
        DirEntry { inode: 0, name: [0; 256] }
    }

    /// The entry's bytes as stored on disk.
    pub fn as_bytes(&self) -> (b: Vec<u8>)
        ensures
            b@ == dir_entry_bytes(*self),
            b@.len() == DIR_ENTRY_SIZE,
    {
        let mut out: Vec<u8> = Vec::new();
        push_u32_le(&mut out, self.inode);
        push_bytes(&mut out, self.name.as_slice());
        proof {
            lemma_le_bytes_len(self.inode as nat, 4);
        }
        out
    }
}

} // verus!
