use proka_kernel::drivers::ops::DeviceError;
use proka_kernel::fs::fat32::{
    copy_chunk, fat_entry, parse_dir_entries, sector_offset, sector_read_result, ByteDevice, DirEntry, Fat32, Fat32Inode, BiosParameterBlock,
    END_OF_CHAIN,
};
use proka_kernel::fs::vfs::{VNodeType, VfsError};

struct Disk(Vec<u8>);

impl ByteDevice for Disk {
    fn read_at(&self, offset: u64, buf: &mut [u8]) -> Result<usize, DeviceError> {
        let start = offset as usize;
        if start + buf.len() > self.0.len() {
            return Err(DeviceError::AddressOutOfRange);
        }
        buf.copy_from_slice(&self.0[start..start + buf.len()]);
        Ok(buf.len())
    }
}

fn put_entry(img: &mut [u8], at: usize, name: &[u8; 11], attr: u8, cluster: u32, size: u32) {
    img[at..at + 11].copy_from_slice(name);
    img[at + 11] = attr;
    img[at + 20..at + 22].copy_from_slice(&((cluster >> 16) as u16).to_le_bytes());
    img[at + 26..at + 28].copy_from_slice(&(cluster as u16).to_le_bytes());
    img[at + 28..at + 32].copy_from_slice(&size.to_le_bytes());
}

fn image() -> Vec<u8> {
    let mut img = vec![0u8; 512 * 8];
    img[11..13].copy_from_slice(&512u16.to_le_bytes());
    img[13] = 1;
    img[14..16].copy_from_slice(&1u16.to_le_bytes());
    img[16] = 1;
    img[36..40].copy_from_slice(&1u32.to_le_bytes());
    img[44..48].copy_from_slice(&2u32.to_le_bytes());
    let fat = 512;
    for (c, next) in [(2u32, 0x0FFF_FFFFu32), (3, 5), (4, 0x0FFF_FFFF), (5, 0x0FFF_FFFF)] {
        let at = fat + c as usize * 4;
        img[at..at + 4].copy_from_slice(&next.to_le_bytes());
    }
    let root = 512 * 2;
    put_entry(&mut img, root, b"HELLO   TXT", 0x20, 3, 600);
    put_entry(&mut img, root + 32, b"DOCS       ", 0x10, 4, 0);
    img[root + 64] = 0xE5;
    put_entry(&mut img, root + 96, b"README     ", 0x20, 0, 0);
    for i in 0..512 {
        img[512 * 3 + i] = b'a' + (i % 26) as u8;
    }
    for i in 0..88 {
        img[512 * 5 + i] = b'Z';
    }
    img
}

#[test]
fn boot_sector_fields() {
    let img = image();
    let bpb = BiosParameterBlock::parse(&img[..512]);
    assert_eq!(bpb.bytes_per_sector, 512);
    assert_eq!(bpb.sectors_per_cluster, 1);
    assert_eq!(bpb.root_cluster, 2);
    assert_eq!(bpb.fat_size_32, 1);
}

#[test]
fn entries_and_names() {
    let img = image();
    let entries = parse_dir_entries(&img[1024..1536]);
    assert_eq!(entries.len(), 3);
    assert_eq!(entries[0].filename(), Some("HELLO.TXT".to_string()));
    assert_eq!(entries[1].filename(), Some("DOCS".to_string()));
    assert!(entries[1].is_dir());
    assert_eq!(entries[0].first_cluster(), 3);
    let e = DirEntry::parse(&img[1024..1536], 0);
    assert!(!e.is_unused());
}

#[test]
fn mount_lookup_and_read() {
    let fs_type = Fat32;
    assert_eq!(fs_type.fs_type(), "fat32");
    assert!(matches!(fs_type.mount::<Disk>(None), Err(VfsError::InvalidArgument)));
    let (fs, root) = fs_type.mount(Some(Disk(image()))).unwrap();
    assert_eq!(root.node_type(), VNodeType::Dir);
    let names = root.list(&fs).unwrap();
    assert_eq!(names, vec!["HELLO.TXT".to_string(), "DOCS".to_string(), "README".to_string()]);
    let file = root.lookup(&fs, "HELLO.TXT").unwrap();
    assert_eq!(file.node_type(), VNodeType::File);
    assert_eq!(file.metadata().unwrap().size, 600);
    let mut buf = vec![0u8; 600];
    assert_eq!(file.read_at(&fs, 0, &mut buf), Ok(600));
    assert_eq!(&buf[..3], b"abc");
    assert_eq!(buf[512], b'Z');
    let mut tail = vec![0u8; 4];
    assert_eq!(file.read_at(&fs, 510, &mut tail), Ok(4));
    assert_eq!(&tail, &[b'a' + (510 % 26) as u8, b'a' + (511 % 26) as u8, b'Z', b'Z']);
    assert!(matches!(root.lookup(&fs, "NOPE"), Err(VfsError::NotFound)));
    assert!(matches!(file.list(&fs), Err(VfsError::NotADirectory)));
    assert!(matches!(root.read_at(&fs, 0, &mut buf), Err(VfsError::NotAFile)));
    let docs = root.lookup(&fs, "DOCS").unwrap();
    assert_eq!(docs.list(&fs).unwrap(), Vec::<String>::new());
}

#[test]
fn writing_is_not_supported() {
    let (fs, root) = Fat32.mount(Some(Disk(image()))).unwrap();
    let file = root.lookup(&fs, "HELLO.TXT").unwrap();
    assert!(matches!(file.write_at(0, b"x"), Err(VfsError::PermissionDenied)));
    assert!(matches!(file.truncate(0), Err(VfsError::NotImplemented)));
    assert!(matches!(root.create("x", VNodeType::File), Err(VfsError::PermissionDenied)));
    assert!(matches!(root.unlink("x"), Err(VfsError::PermissionDenied)));
    assert!(file.sync().is_ok());
}

#[test]
fn corrupt_cluster_numbers_are_refused() {
    let (fs, root) = Fat32.mount(Some(Disk(image()))).unwrap();
    let readme = root.lookup(&fs, "README").unwrap();
    let mut b = [0u8; 4];
    assert!(matches!(readme.read_at(&fs, 0, &mut b), Err(VfsError::InvalidArgument)));
}

#[test]
fn allocation_table_entries() {
    let (fs, _root) = Fat32.mount(Some(Disk(image()))).unwrap();
    assert_eq!(fs.fat_position(3), (1, 12));
    assert_eq!(fs.fat_position(200), (2, 288));
    assert_eq!(fs.next_cluster(3), Ok(5));
    assert_eq!(fs.next_cluster(2), Ok(0x0FFF_FFFF));
    let mut sector = [0u8; 8];
    sector[4..8].copy_from_slice(&0xF123_4567u32.to_le_bytes());
    assert_eq!(fat_entry(&sector, 4), 0x0123_4567);
    assert_eq!(sector_read_result(Ok(512)), Ok(()));
    assert_eq!(sector_read_result(Err(DeviceError::IoError)), Err(VfsError::DeviceError(DeviceError::IoError)));
    let mut buf = [0u8; 512];
    assert_eq!(fs.read_sector(2, &mut buf), Ok(()));
    assert_eq!(&buf[..5], b"HELLO");
    assert!(matches!(fs.read_sector(100, &mut buf), Err(VfsError::DeviceError(DeviceError::AddressOutOfRange))));
}

#[test]
fn directory_entries_along_the_chain() {
    let (fs, root) = Fat32.mount(Some(Disk(image()))).unwrap();
    let entries = root.read_dir_entries(&fs).unwrap();
    assert_eq!(entries.len(), 3);
    assert!(entries.iter().all(|e| !e.is_unused()));
    let meta = root.metadata().unwrap();
    let ended = Fat32Inode { cluster: END_OF_CHAIN, is_dir: true, metadata: meta };
    assert_eq!(ended.read_dir_entries(&fs).unwrap().len(), 0);
    let corrupt = Fat32Inode { cluster: 1, is_dir: true, metadata: meta };
    assert!(matches!(corrupt.read_dir_entries(&fs), Err(VfsError::InvalidArgument)));
}

#[test]
fn reads_stop_at_the_end_of_the_chain() {
    let (fs, root) = Fat32.mount(Some(Disk(image()))).unwrap();
    let file = root.lookup(&fs, "HELLO.TXT").unwrap();
    let mut buf = vec![7u8; 2000];
    assert_eq!(file.read_at(&fs, 0, &mut buf), Ok(1024));
    assert!(buf[1024..].iter().all(|&b| b == 7));
    let mut empty: [u8; 0] = [];
    assert_eq!(file.read_at(&fs, 0, &mut empty), Ok(0));
    assert_eq!(sector_offset(3), 1536);
    let mut dst = [0u8; 6];
    copy_chunk(&mut dst, 2, &[1, 2, 3, 4], 3);
    assert_eq!(dst, [0, 0, 1, 2, 3, 0]);
}
