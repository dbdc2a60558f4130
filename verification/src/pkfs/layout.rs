//! The records as the image-making tool lays them out: a super block that
//! names the file system's type, and 32-byte inodes with reserved bytes (C
//! layout, little endian, zeroed padding). File types and directory entries
//! are those of [`super::definition`].

use vstd::prelude::*;
use crate::bytes::{
    le_bytes, le_value, zeros, lemma_le_bytes_len, lemma_le_round_trip, push_u32_le, push_u64_le,
    push_zeros, push_bytes, read_u32_le, read_u64_le,
};

pub use super::definition::{DirEntry, FileType, PKFS_MAGIC};
use super::definition::{file_type_code, file_type_of, file_type_byte};

verus! {

/// Size in bytes of an inode on disk.
pub const INODE_SIZE: usize = 32;

/// Size in bytes of a super block on disk.
pub const SUPER_BLOCK_SIZE: usize = 272;

/// The file system type.
#[derive(Debug, Clone, Copy, PartialEq, Eq, Structural)]
pub enum FsType {
    /// For disks over 64 MiB: about 2097152 files.
    Standard,
    /// For disks up to 64 MiB: about 32768 files.
    Minimum,
}

/// The on-disk number of a file system type.
pub open spec fn fs_type_code(t: FsType) -> u8 {
    match t {
        FsType::Standard => 0,
        FsType::Minimum => 1,
    }
}

/// The super block.
#[derive(Debug, Clone, Copy)]
pub struct SuperBlock {
    /// The magic number that identifies the file system.
    pub magic: u32,
    /// The size of each block in bytes.
    pub block_size: u32,
    /// The type of the file system.
    pub fs_type: FsType,
    /// The block number where the data starts.
    pub data_start_block: u32,
    /// One byte per block: nonzero when the block is used.
    pub block_bitmap: [u8; 128],
    /// One byte per inode: nonzero when the inode is used.
    pub inode_bitmap: [u8; 128],
}

/// The bytes of a super block on disk.
pub open spec fn super_block_bytes(sb: SuperBlock) -> Seq<u8> {
    le_bytes(sb.magic as nat, 4) + le_bytes(sb.block_size as nat, 4) + seq![fs_type_code(sb.fs_type)]
        + zeros(3) + le_bytes(sb.data_start_block as nat, 4) + sb.block_bitmap@ + sb.inode_bitmap@
}

impl SuperBlock {
    /// A fresh super block of the given type: 1024-byte blocks, data from block
    /// 65536, every block and inode free.
    pub fn new(fs_type: FsType) -> (sb: Self)
        ensures
            sb.magic == PKFS_MAGIC,
            sb.block_size == 1024,
            sb.fs_type == fs_type,
            sb.data_start_block == 65536,
            forall|i: int| 0 <= i < 128 ==> sb.block_bitmap[i] == 0 && sb.inode_bitmap[i] == 0,
    {
        SuperBlock {
            magic: PKFS_MAGIC,
            block_size: 1024,
            fs_type,
            data_start_block: 65536,
            block_bitmap: [0; 128],
            inode_bitmap: [0; 128],
        }
    }

    /// The super block's bytes as stored on disk.
    pub fn as_bytes(&self) -> (b: Vec<u8>)
        ensures
            b@ == super_block_bytes(*self),
            b@.len() == SUPER_BLOCK_SIZE,
    {
        let mut out: Vec<u8> = Vec::new();
        push_u32_le(&mut out, self.magic);
        push_u32_le(&mut out, self.block_size);
        out.push(match self.fs_type {
            FsType::Standard => 0u8,
            FsType::Minimum => 1u8,
        });
        push_zeros(&mut out, 3);
        push_u32_le(&mut out, self.data_start_block);
        push_bytes(&mut out, self.block_bitmap.as_slice());
        push_bytes(&mut out, self.inode_bitmap.as_slice());
        proof {
            lemma_le_bytes_len(self.magic as nat, 4);
            lemma_le_bytes_len(self.block_size as nat, 4);
            lemma_le_bytes_len(self.data_start_block as nat, 4);
            assert(out@ =~= super_block_bytes(*self));
        }
        out
    }
}

/// An inode.
#[derive(Debug, Clone, Copy, PartialEq, Eq)]
pub struct Inode {
    /// The ID of this inode.
    pub inode_id: u32,
    /// The file type.
    pub file_type: FileType,
    /// The head block of the file.
    pub head_block: u32,
    /// The file length in bytes.
    pub file_length: u64,
    /// Reserved bytes.
    pub _reserved: [u8; 8],
}

/// The bytes of an inode on disk.
pub open spec fn inode_bytes(i: Inode) -> Seq<u8> {
    le_bytes(i.inode_id as nat, 4) + seq![file_type_code(i.file_type)] + zeros(3)
        + le_bytes(i.head_block as nat, 4) + zeros(4) + le_bytes(i.file_length as nat, 8)
        + i._reserved@
}

/// `i` is the inode whose bytes begin `b`.
pub open spec fn inode_decodes(b: Seq<u8>, i: Inode) -> bool {
    &&& b.len() >= INODE_SIZE
    &&& file_type_of(b[4]) == Some(i.file_type)
    &&& i.inode_id == le_value(b.subrange(0, 4))
    &&& i.head_block == le_value(b.subrange(8, 12))
    &&& i.file_length == le_value(b.subrange(16, 24))
    &&& i._reserved@ == b.subrange(24, 32)
}

impl Inode {
    /// The inode's bytes as stored on disk.
    pub fn as_bytes(&self) -> (b: Vec<u8>)
        ensures
            b@ == inode_bytes(*self),
            b@.len() == INODE_SIZE,
    {
        let mut out: Vec<u8> = Vec::new();
        push_u32_le(&mut out, self.inode_id);
        out.push(file_type_byte(self.file_type));
        push_zeros(&mut out, 3);
        push_u32_le(&mut out, self.head_block);
        push_zeros(&mut out, 4);
        push_u64_le(&mut out, self.file_length);
        push_bytes(&mut out, self._reserved.as_slice());
        proof {
            lemma_le_bytes_len(self.inode_id as nat, 4);
            lemma_le_bytes_len(self.head_block as nat, 4);
            lemma_le_bytes_len(self.file_length as nat, 8);
            assert(out@ =~= inode_bytes(*self));
        }
        out
    }

    /// Reads the inode stored in the first bytes of `buf`: `None` when `buf` is
    /// shorter than an inode or its type byte names no file type.
    pub fn from_bytes(buf: &[u8]) -> (r: Option<Inode>)
        ensures
            r is Some <==> (buf@.len() >= INODE_SIZE && file_type_of(buf@[4]) is Some),
            r matches Some(i) ==> inode_decodes(buf@, i),
    {
        if buf.len() < INODE_SIZE {
            return None;
        }
        let file_type = if buf[4] == 0 {
            FileType::Regular
        } else if buf[4] == 1 {
            FileType::Directory
        } else if buf[4] == 2 {
            FileType::Device
        } else {
            return None;
        };
        let mut reserved = [0u8; 8];
        let mut k: usize = 0;
        while k < 8
            invariant
                k <= 8,
                buf@.len() >= INODE_SIZE,
                forall|j: int| 0 <= j < k ==> reserved[j] == buf@[24 + j],
            decreases 8 - k,
        {
            reserved[k] = buf[24 + k];
            k = k + 1;
        }
        assert(reserved@ =~= buf@.subrange(24, 32));
        Some(Inode {
            inode_id: read_u32_le(buf, 0),
            file_type,
            head_block: read_u32_le(buf, 8),
            file_length: read_u64_le(buf, 16),
            _reserved: reserved,
        })
    }

    /// Locates inode `inode_id`: the block that holds it (inodes start at block 1)
    /// and its byte offset in that block.
    pub fn locate(inode_id: u32, super_block: &SuperBlock) -> (r: (u64, usize))
        requires
            super_block.block_size >= INODE_SIZE,
        ensures
            ({
                let per_block = super_block.block_size as int / INODE_SIZE as int;
                &&& r.0 == 1 + inode_id as int / per_block
                &&& r.1 == (inode_id as int % per_block) * INODE_SIZE
            }),
    {
        let inodes_per_block = super_block.block_size as usize / INODE_SIZE;
        let inode_start_block = 1u64;
        let block_idx = inode_start_block + (inode_id as u64 / inodes_per_block as u64);
        let offset = (inode_id as usize % inodes_per_block) * INODE_SIZE;
        (block_idx, offset)
    }
}

/// An inode read back from its own bytes is the same inode.
pub proof fn lemma_inode_round_trip(i: Inode)
    ensures
        inode_decodes(inode_bytes(i), i),
{
    let b = inode_bytes(i);
    lemma_le_bytes_len(i.inode_id as nat, 4);
    lemma_le_bytes_len(i.head_block as nat, 4);
    lemma_le_bytes_len(i.file_length as nat, 8);
    assert(b.subrange(0, 4) =~= le_bytes(i.inode_id as nat, 4));
    assert(b.subrange(8, 12) =~= le_bytes(i.head_block as nat, 4));
    assert(b.subrange(16, 24) =~= le_bytes(i.file_length as nat, 8));
    assert(b.subrange(24, 32) =~= i._reserved@);
    assert(vstd::arithmetic::power::pow(256, 4) == 0x1_0000_0000) by {
        reveal_with_fuel(vstd::arithmetic::power::pow, 5);
    }
    assert(vstd::arithmetic::power::pow(256, 8) == 0x1_0000_0000_0000_0000) by {
        reveal_with_fuel(vstd::arithmetic::power::pow, 9);
    }
    lemma_le_round_trip(i.inode_id as nat, 4);
    lemma_le_round_trip(i.head_block as nat, 4);
    lemma_le_round_trip(i.file_length as nat, 8);
}

} // verus!
