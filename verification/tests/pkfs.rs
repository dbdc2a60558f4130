use proka_kernel::pkfs::definition::{
    DirEntry, FileType, Inode, SuperBlock, INODE_BLOCK_BITMAP_SIZE, PKFS_MAGIC, SUPER_BLOCK_SIZE,
};
use proka_kernel::pkfs::layout;
use proka_kernel::pkfs::{convert_name, BlockDevice, FileSystem};

struct RamDisk {
    writes: Vec<(u32, u32, Vec<u8>)>,
}

impl BlockDevice for RamDisk {
    fn read_block(&mut self, _block_num: u32, _offset: u32, buf: &mut [u8]) -> Result<(), &'static str> {
        for b in buf.iter_mut() {
            *b = 0;
        }
        Ok(())
    }

    fn write_block(&mut self, block_num: u32, offset: u32, buf: &[u8]) -> Result<(), &'static str> {
        self.writes.push((block_num, offset, buf.to_vec()));
        Ok(())
    }
}

#[test]
fn tool_super_block_layout() {
    let sb = layout::SuperBlock::new(layout::FsType::Standard);
    assert_eq!(sb.magic, PKFS_MAGIC);
    assert_eq!(sb.data_start_block, 65536);
    let b = sb.as_bytes();
    assert_eq!(b.len(), layout::SUPER_BLOCK_SIZE);
    assert_eq!(&b[0..4], &PKFS_MAGIC.to_le_bytes());
    assert_eq!(&b[4..8], &1024u32.to_le_bytes());
    assert_eq!(b[8], 0);
    assert_eq!(&b[12..16], &65536u32.to_le_bytes());
    assert_eq!(layout::SuperBlock::new(layout::FsType::Minimum).as_bytes()[8], 1);
}

#[test]
fn super_block_layout() {
    let sb = SuperBlock::default();
    assert_eq!((sb.magic, sb.block_size, sb.total_blocks, sb.data_start_block), (PKFS_MAGIC, 1024, 1024, 1));
    assert!(sb.inode_block_bitmap.iter().all(|&b| b == 0));
    assert_eq!(INODE_BLOCK_BITMAP_SIZE, 1024 * 1024 / 24);
    let b = sb.as_bytes();
    assert_eq!(b.len(), SUPER_BLOCK_SIZE);
    assert_eq!(&b[0..4], &PKFS_MAGIC.to_le_bytes());
    assert_eq!(&b[8..12], &1024u32.to_le_bytes());
    assert_eq!(&b[12..16], &1u32.to_le_bytes());
}

#[test]
fn inode_is_24_bytes() {
    let i = Inode { inode_id: 7, file_type: FileType::Device, head_block: 3, file_length: 99 };
    let b = i.as_bytes();
    assert_eq!(b.len(), 24);
    assert_eq!(&b[0..4], &7u32.to_le_bytes());
    assert_eq!(b[4], 2);
    assert_eq!(&b[8..12], &3u32.to_le_bytes());
    assert_eq!(&b[16..24], &99u64.to_le_bytes());
    let sb = SuperBlock::default();
    assert_eq!(Inode::locate(43, &sb), (2, 24));
}

#[test]
fn inode_round_trip() {
    let i = layout::Inode { inode_id: 7, file_type: FileType::Directory, head_block: 3, file_length: 99, _reserved: [0; 8] };
    let b = i.as_bytes();
    assert_eq!(b.len(), 32);
    let j = layout::Inode::from_bytes(&b).unwrap();
    assert_eq!(j.inode_id, 7);
    assert_eq!(j.head_block, 3);
    assert_eq!(j.file_length, 99);
    assert_eq!(j.file_type, FileType::Directory);
    assert!(layout::Inode::from_bytes(&b[..10]).is_none());
}

#[test]
fn names_are_padded_and_cut() {
    let n = convert_name(b"..");
    assert_eq!(&n[..2], b"..");
    assert!(n[2..].iter().all(|&b| b == 0));
    let long = [b'x'; 300];
    let n = convert_name(&long);
    assert!(n[..255].iter().all(|&b| b == b'x'));
    assert_eq!(n[255], 0);
    let e = DirEntry::empty();
    assert_eq!(e.as_bytes().len(), 260);
}

#[test]
fn files_and_directories_take_the_lowest_slots() {
    let mut fs = FileSystem::mount(RamDisk { writes: Vec::new() });
    assert_eq!(fs.data_start_block, 1024);
    fs.mkfile().unwrap();
    assert_eq!(fs.super_block.block_bitmap[0], 1);
    assert_eq!(fs.super_block.inode_bitmap[0], 1);
    assert_eq!(fs.block_device.writes.len(), 1);
    assert_eq!(fs.block_device.writes[0].0, 0);
    assert_eq!(fs.block_device.writes[0].2.len(), 24);
    fs.mkdir().unwrap();
    assert_eq!(fs.super_block.block_bitmap[1], 1);
    assert_eq!(fs.block_device.writes.len(), 4);
    let dot = &fs.block_device.writes[2].2;
    assert_eq!(&dot[0..4], &1u32.to_le_bytes());
    assert_eq!(dot[4], b'.');
    fs.sync().unwrap();
    assert_eq!(fs.block_device.writes.len(), 5);
    assert_eq!(fs.block_device.writes[4].2.len(), SUPER_BLOCK_SIZE);
    assert_eq!(fs.get_max_inode(), 43648);
    assert_eq!(fs.block_device.writes[1].1, 24);
}

struct FailingDisk {
    writes: usize,
    fail_at: usize,
}

impl BlockDevice for FailingDisk {
    fn read_block(&mut self, _block_num: u32, _offset: u32, _buf: &mut [u8]) -> Result<(), &'static str> {
        Ok(())
    }

    fn write_block(&mut self, _block_num: u32, _offset: u32, _buf: &[u8]) -> Result<(), &'static str> {
        self.writes += 1;
        if self.writes == self.fail_at {
            Err("disk full")
        } else {
            Ok(())
        }
    }
}

#[test]
fn device_errors_are_passed_on() {
    let mut fs = FileSystem::mount(FailingDisk { writes: 0, fail_at: 2 });
    assert_eq!(fs.mkdir(), Err("disk full"));
    assert_eq!(fs.block_device.writes, 2);
    let mut fs = FileSystem::mount(FailingDisk { writes: 0, fail_at: 1 });
    assert_eq!(fs.mkfile(), Err("disk full"));
    assert_eq!(fs.sync(), Ok(()));
    let mut fs = FileSystem::mount(FailingDisk { writes: 0, fail_at: 1 });
    assert_eq!(fs.sync(), Err("disk full"));
}
