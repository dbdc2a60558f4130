//! ProkaFS: the on-disk layout of the Proka file system and its operations.

pub mod bitmap;
pub mod definition;
pub mod layout;

use vstd::prelude::*;
use self::bitmap::{Bitmap, all_used};
use self::definition::{
    SuperBlock, Inode, FileType, DirEntry, INODE_SIZE, DIR_ENTRY_SIZE, super_block_bytes,
    inode_bytes, dir_entry_bytes, is_default_super_block,
};

verus! {

/// One write handed to a block device: block, offset, bytes, and what the device answered.
pub type BlockWrite = (u32, u32, Seq<u8>, Result<(), &'static str>);

/// A block device that the file system is stored on.
pub trait BlockDevice {
    /// Reads `buf.len()` bytes from block `block_num`, starting `offset` bytes in.
    fn read_block(&mut self, block_num: u32, offset: u32, buf: &mut [u8]) -> Result<(), &'static str>;

    /// Writes `buf` to block `block_num`, starting `offset` bytes in.
    fn write_block(&mut self, block_num: u32, offset: u32, buf: &[u8]) -> (r: Result<(), &'static str>);
}

/// A mounted ProkaFS file system.
pub struct FileSystem<B: BlockDevice> {
    /// The block device the file system is stored on.
    pub block_device: B,
    /// The super block.
    pub super_block: SuperBlock,
    /// The block number where data starts.
    pub data_start_block: u32,
    /// Every write handed to the device, oldest first, with what it answered.
    pub writes: Ghost<Seq<BlockWrite>>,
}

/// The lowest free slot of `bits` from `from` up to 128 (128 when all are used).
pub open spec fn lowest_free_from(bits: Seq<u8>, from: int) -> int
    decreases 128 - from,
{
    if from >= 128 {
        128
    } else if bits[from] == 0 {
        from
    } else {
        lowest_free_from(bits, from + 1)
    }
}

/// The lowest free slot below 128 (128 when all are used).
pub open spec fn lowest_free(bits: Seq<u8>) -> int {
    lowest_free_from(bits, 0)
}

/// `after` is `before` with its lowest free slot below 128 taken.
pub open spec fn took_lowest(before: Seq<u8>, after: Seq<u8>) -> bool {
    after == before.update(lowest_free(before), 1)
}

proof fn lemma_lowest_free_is(bits: Seq<u8>, i: int, from: int)
    requires
        0 <= from <= i < 128,
        bits[i] == 0,
        forall|j: int| 0 <= j < i ==> bits[j] != 0,
    ensures
        lowest_free_from(bits, from) == i,
    decreases i - from,
{
    if from < i {
        lemma_lowest_free_is(bits, i, from + 1);
    }
}

/// The inode that a new file of type `t` gets: ID `id`, data from block `block`, empty.
pub open spec fn new_inode(i: Inode, id: int, t: FileType, block: int) -> bool {
    &&& i.inode_id == id
    &&& i.file_type == t
    &&& i.head_block == block
    &&& i.file_length == 0
}

/// A directory entry for inode `inode` named by `name`, padded with zeros.
pub open spec fn dir_entry_named(inode: u32, name: Seq<u8>) -> Seq<u8> {
    crate::bytes::le_bytes(inode as nat, 4) + name + Seq::new((256 - name.len()) as nat, |k: int| 0u8)
}

impl<B: BlockDevice> FileSystem<B> {
    /// Every write handed to the device since mounting, oldest first, with
    /// what the device answered.
    pub open spec fn write_log(&self) -> Seq<BlockWrite> {
        self.writes@
    }

    /// Hands one write to the device and records it.
    fn write(&mut self, block_num: u32, offset: u32, buf: &[u8]) -> (r: Result<(), &'static str>)
        ensures
            final(self).write_log() == old(self).write_log().push((block_num, offset, buf@, r)),
            final(self).super_block == old(self).super_block,
            final(self).data_start_block == old(self).data_start_block,
    {
        let r = self.block_device.write_block(block_num, offset, buf);
        self.writes = Ghost(self.writes@.push((block_num, offset, buf@, r)));
        r
    }

    /// Mounts the file system on `bd` with a fresh default super block; data
    /// starts at block 1024.
    pub fn mount(bd: B) -> (fs: Self)
        ensures
            fs.block_device == bd,
            is_default_super_block(fs.super_block),
            fs.data_start_block == 1024,
            fs.write_log() == Seq::<BlockWrite>::empty(),
    {
        let super_block = SuperBlock::default();
        FileSystem { block_device: bd, super_block, data_start_block: 1024, writes: Ghost(Seq::empty()) }
    }

    /// Writes the super block to block 0 of the device.
    pub fn sync(&mut self) -> (r: Result<(), &'static str>)
        ensures
            final(self).super_block == old(self).super_block,
            final(self).data_start_block == old(self).data_start_block,
            final(self).write_log() == old(self).write_log().push(
                (0u32, 0u32, super_block_bytes(old(self).super_block), r),
            ),
    {
        let bytes = self.super_block.as_bytes();
        self.write(0, 0, bytes.as_slice())
    }

    /// How many inodes fit in the blocks before the data (the largest inode ID is one less).
    pub fn get_max_inode(&self) -> (n: usize)
        requires
            self.data_start_block >= 1,
            (self.data_start_block - 1) * self.super_block.block_size <= usize::MAX,
        ensures
            n == ((self.data_start_block - 1) * self.super_block.block_size) / INODE_SIZE as int,
    {
        ((self.data_start_block - 1) as usize * self.super_block.block_size as usize) / INODE_SIZE
    }

    /// Takes the lowest free block and then the lowest free inode, both below 128.
    /// When no block is free nothing changes; when no inode is free the block stays taken.
    fn alloc_inode(&mut self, file_type: FileType) -> (r: Result<(Inode, u32), &'static str>)
        ensures
            final(self).block_device == old(self).block_device,
            final(self).write_log() == old(self).write_log(),
            final(self).data_start_block == old(self).data_start_block,
            final(self).super_block.magic == old(self).super_block.magic,
            final(self).super_block.block_size == old(self).super_block.block_size,
            final(self).super_block.total_blocks == old(self).super_block.total_blocks,
            final(self).super_block.inode_block_bitmap == old(self).super_block.inode_block_bitmap,
            final(self).super_block.data_start_block == old(self).super_block.data_start_block,
            all_used(old(self).super_block.block_bitmap@, 128) ==> {
                &&& (r matches Err(e) && e@ == "No block available"@)
                &&& final(self).super_block == old(self).super_block
            },
            !all_used(old(self).super_block.block_bitmap@, 128) && all_used(
                old(self).super_block.inode_bitmap@,
                128,
            ) ==> {
                &&& (r matches Err(e) && e@ == "No inode available"@)
                &&& final(self).super_block.inode_bitmap == old(self).super_block.inode_bitmap
                &&& took_lowest(old(self).super_block.block_bitmap@,
                    final(self).super_block.block_bitmap@)
            },
            !all_used(old(self).super_block.block_bitmap@, 128) && !all_used(
                old(self).super_block.inode_bitmap@,
                128,
            ) ==> (r matches Ok((inode, block)) && {
                &&& block < 128 && inode.inode_id < 128
                &&& block == lowest_free(old(self).super_block.block_bitmap@)
                &&& inode.inode_id == lowest_free(old(self).super_block.inode_bitmap@)
                &&& took_lowest(old(self).super_block.block_bitmap@,
                    final(self).super_block.block_bitmap@)
                &&& took_lowest(old(self).super_block.inode_bitmap@,
                    final(self).super_block.inode_bitmap@)
                &&& new_inode(inode, inode.inode_id as int, file_type, block as int)
            }),
    {
        let block_num = match self.super_block.block_bitmap.allocate(128) {
            Some(i) => {
                proof {
                    lemma_lowest_free_is(old(self).super_block.block_bitmap@, i as int, 0);
                }
                i as u32
            },
            None => {
                assert(self.super_block.block_bitmap =~= old(self).super_block.block_bitmap);
                return Err("No block available");
            },
        };
        let inode_num = match self.super_block.inode_bitmap.allocate(128) {
            Some(i) => {
                proof {
                    lemma_lowest_free_is(old(self).super_block.inode_bitmap@, i as int, 0);
                }
                i as u32
            },
            None => {
                assert(self.super_block.inode_bitmap =~= old(self).super_block.inode_bitmap);
                return Err("No inode available");
            },
        };
        let inode = Inode {
            inode_id: inode_num,
            file_type,
            head_block: block_num,
            file_length: 0,
        };
        Ok((inode, block_num))
    }

    /// Creates a regular file: takes a block and an inode and writes the inode
    /// into the block, at its ID times the inode size.
    pub fn mkfile(&mut self) -> (r: Result<(), &'static str>)
        requires
            !all_used(old(self).super_block.block_bitmap@, 128),
            !all_used(old(self).super_block.inode_bitmap@, 128),
        ensures
            final(self).data_start_block == old(self).data_start_block,
            took_lowest(old(self).super_block.block_bitmap@, final(self).super_block.block_bitmap@),
            took_lowest(old(self).super_block.inode_bitmap@, final(self).super_block.inode_bitmap@),
            ({
                let b = lowest_free(old(self).super_block.block_bitmap@);
                let n = lowest_free(old(self).super_block.inode_bitmap@);
                exists|inode: Inode| {
                    &&& #[trigger] new_inode(inode, n, FileType::Regular, b)
                    &&& final(self).write_log() == old(self).write_log().push(
                        (b as u32, (n * INODE_SIZE) as u32, inode_bytes(inode), r))
                }
            }),
    {
        let (inode, block) = match self.alloc_inode(FileType::Regular) {
            Ok(p) => p,
            Err(_) => {
                assert(false);
                return Err("No block available");
            },
        };
        let offset = inode.inode_id as usize * INODE_SIZE;
        let bytes = inode.as_bytes();
        let r = self.write(block, offset as u32, bytes.as_slice());
        assert(new_inode(inode, inode.inode_id as int, FileType::Regular, block as int));
        r
    }

    /// Creates a directory: takes a block and an inode, writes the inode, then the
    /// entries `.` and `..` (both naming the new inode) at its ID times the entry
    /// size. Stops at the first write that fails.
    pub fn mkdir(&mut self) -> (r: Result<(), &'static str>)
        requires
            !all_used(old(self).super_block.block_bitmap@, 128),
            !all_used(old(self).super_block.inode_bitmap@, 128),
        ensures
            final(self).data_start_block == old(self).data_start_block,
            took_lowest(old(self).super_block.block_bitmap@, final(self).super_block.block_bitmap@),
            took_lowest(old(self).super_block.inode_bitmap@, final(self).super_block.inode_bitmap@),
            ({
                let b = lowest_free(old(self).super_block.block_bitmap@);
                let n = lowest_free(old(self).super_block.inode_bitmap@);
                let log0 = old(self).write_log();
                let log1 = final(self).write_log();
                let done = log1.subrange(log0.len() as int, log1.len() as int);
                exists|inode: Inode| {
                    let writes = seq![
                        (b as u32, (n * INODE_SIZE) as u32, inode_bytes(inode)),
                        (b as u32, (n * DIR_ENTRY_SIZE) as u32, dir_entry_named(n as u32, seq![0x2eu8])),
                        (b as u32, (n * DIR_ENTRY_SIZE + DIR_ENTRY_SIZE) as u32,
                            dir_entry_named(n as u32, seq![0x2eu8, 0x2eu8]))
                    ];
                    &&& #[trigger] new_inode(inode, n, FileType::Directory, b)
                    &&& log1.len() >= log0.len()
                    &&& log1.subrange(0, log0.len() as int) == log0
                    &&& 1 <= done.len() <= 3
                    &&& forall|k: int| 0 <= k < done.len() ==>
                        ((#[trigger] done[k]).0, done[k].1, done[k].2) == writes[k]
                    &&& forall|k: int| 0 <= k < done.len() - 1 ==> (#[trigger] done[k]).3 is Ok
                    &&& (done.len() < 3 ==> done[done.len() - 1].3 is Err)
                    &&& r == done[done.len() - 1].3
                }
            }),
    {
        let ghost log0 = self.write_log();
        let (inode, block) = match self.alloc_inode(FileType::Directory) {
            Ok(p) => p,
            Err(_) => {
                assert(false);
                return Err("No block available");
            },
        };
        let ghost sb1 = self.super_block;
        let offset = inode.inode_id as usize * INODE_SIZE;
        let bytes = inode.as_bytes();
        let r1 = self.write(block, offset as u32, bytes.as_slice());
        let ghost n = inode.inode_id as int;
        let ghost b = block as int;
        assert(new_inode(inode, n, FileType::Directory, b));
        if r1.is_err() {
            proof {
                let done = self.write_log().subrange(log0.len() as int, self.write_log().len() as int);
                assert(done =~= seq![self.write_log()[log0.len() as int]]);
                assert(self.write_log().subrange(0, log0.len() as int) =~= log0);
            }
            return r1;
        }
        let dot = DirEntry { inode: inode.inode_id, name: convert_name(&[0x2eu8]) };
        let dot_dot = DirEntry { inode: inode.inode_id, name: convert_name(&[0x2eu8, 0x2eu8]) };
        proof {
            assert(dir_entry_bytes(dot) =~= dir_entry_named(n as u32, seq![0x2eu8]));
            assert(dir_entry_bytes(dot_dot) =~= dir_entry_named(n as u32, seq![0x2eu8, 0x2eu8]));
        }
        let offset = inode.inode_id as usize * DIR_ENTRY_SIZE;
        let dot_bytes = dot.as_bytes();
        let r2 = self.write(block, offset as u32, dot_bytes.as_slice());
        if r2.is_err() {
            proof {
                let done = self.write_log().subrange(log0.len() as int, self.write_log().len() as int);
                assert(done.len() == 2);
                assert(self.write_log().subrange(0, log0.len() as int) =~= log0);
            }
            return r2;
        }
        let dot_dot_bytes = dot_dot.as_bytes();
        let r3 = self.write(block, (offset + DIR_ENTRY_SIZE) as u32, dot_dot_bytes.as_slice());
        proof {
            let done = self.write_log().subrange(log0.len() as int, self.write_log().len() as int);
            assert(done.len() == 3);
            assert(self.write_log().subrange(0, log0.len() as int) =~= log0);
        }
        r3
    }
}

/// A name as stored in a directory entry: its first 255 bytes (at most), then zeros.
pub fn convert_name(name_src: &[u8]) -> (name: [u8; 256])
    ensures
        forall|i: int| 0 <= i < 256 ==> name[i] == if i < name_src@.len() && i < 255 {
            name_src@[i]
        } else {
            0u8
        },
{
    let mut name = [0u8; 256];
    let len = if name_src.len() < 255 { name_src.len() } else { 255 };
    let mut i: usize = 0;
    while i < len
        invariant
            i <= len,
            len <= 255,
            len <= name_src@.len(),
            len == name_src@.len() || len == 255,
            forall|j: int| 0 <= j < i ==> name[j] == name_src@[j],
            forall|j: int| i <= j < 256 ==> name[j] == 0,
        decreases len - i,
    {
        name[i] = name_src[i];
        i = i + 1;
    }
    name
}

} // verus!
