use proka_kernel::drivers::ops::TestDevice;
use proka_kernel::fs::memfs::MemFs;
use proka_kernel::fs::vfs::{VNodeType, VfsError};

fn fresh() -> MemFs<TestDevice> {
    MemFs::new()
}

#[test]
fn test_mount_creates_root() {
    let mut fs = fresh();
    let root = fs.mount();
    assert_eq!(root.node_type(&fs), VNodeType::Dir);
}

#[test]
fn test_create_file() {
    let mut fs = fresh();
    let root = fs.mount();
    let file = root.create(&mut fs, "test.txt", VNodeType::File).unwrap();
    assert_eq!(file.node_type(&fs), VNodeType::File);
    let metadata = file.metadata(&fs).unwrap();
    assert_eq!(metadata.size, 0);
}

#[test]
fn test_create_dir() {
    let mut fs = fresh();
    let root = fs.mount();
    let dir = root.create(&mut fs, "testdir", VNodeType::Dir).unwrap();
    assert_eq!(dir.node_type(&fs), VNodeType::Dir);
    let metadata = dir.metadata(&fs).unwrap();
    assert_eq!(metadata.size, 0);
}

#[test]
fn test_create_duplicate_fails() {
    let mut fs = fresh();
    let root = fs.mount();
    root.create(&mut fs, "test.txt", VNodeType::File).unwrap();
    let result = root.create(&mut fs, "test.txt", VNodeType::File);
    assert!(matches!(result, Err(VfsError::AlreadyExists)));
}

#[test]
fn test_lookup() {
    let mut fs = fresh();
    let root = fs.mount();
    root.create(&mut fs, "test.txt", VNodeType::File).unwrap();
    let file = root.lookup(&fs, "test.txt").unwrap();
    assert_eq!(file.node_type(&fs), VNodeType::File);
}

#[test]
fn test_lookup_not_found() {
    let mut fs = fresh();
    let root = fs.mount();
    let result = root.lookup(&fs, "nonexistent.txt");
    assert!(matches!(result, Err(VfsError::NotFound)));
}

#[test]
fn test_write_and_read() {
    let mut fs = fresh();
    let root = fs.mount();
    let file = root.create(&mut fs, "test.txt", VNodeType::File).unwrap();
    let data = b"Hello, World!";
    let written = file.write_at(&mut fs, 0, data).unwrap();
    assert_eq!(written, data.len());

    let mut buffer = vec![0u8; data.len()];
    let read = file.read_at(&fs, 0, &mut buffer).unwrap();
    assert_eq!(read, data.len());
    assert_eq!(&buffer, data);

    let metadata = file.metadata(&fs).unwrap();
    assert_eq!(metadata.size, data.len() as u64);
}

#[test]
fn test_write_at_offset() {
    let mut fs = fresh();
    let root = fs.mount();
    let file = root.create(&mut fs, "test.txt", VNodeType::File).unwrap();
    file.write_at(&mut fs, 0, b"Hello, ").unwrap();
    file.write_at(&mut fs, 7, b"World!").unwrap();
    let mut buffer = vec![0u8; 13];
    file.read_at(&fs, 0, &mut buffer).unwrap();
    assert_eq!(&buffer, b"Hello, World!");
}

#[test]
fn test_read_beyond_file() {
    let mut fs = fresh();
    let root = fs.mount();
    let file = root.create(&mut fs, "test.txt", VNodeType::File).unwrap();
    file.write_at(&mut fs, 0, b"Hello").unwrap();
    let mut buffer = vec![0u8; 10];
    let read = file.read_at(&fs, 0, &mut buffer).unwrap();
    assert_eq!(read, 5);
}

#[test]
fn test_truncate() {
    let mut fs = fresh();
    let root = fs.mount();
    let file = root.create(&mut fs, "test.txt", VNodeType::File).unwrap();
    file.write_at(&mut fs, 0, b"Hello, World!").unwrap();
    file.truncate(&mut fs, 5).unwrap();
    let metadata = file.metadata(&fs).unwrap();
    assert_eq!(metadata.size, 5);
    let mut buffer = vec![0u8; 10];
    let read = file.read_at(&fs, 0, &mut buffer).unwrap();
    assert_eq!(read, 5);
    assert_eq!(&buffer[..5], b"Hello");
}

#[test]
fn test_truncate_extend() {
    let mut fs = fresh();
    let root = fs.mount();
    let file = root.create(&mut fs, "test.txt", VNodeType::File).unwrap();
    file.write_at(&mut fs, 0, b"Hello").unwrap();
    file.truncate(&mut fs, 10).unwrap();
    let metadata = file.metadata(&fs).unwrap();
    assert_eq!(metadata.size, 10);
    let mut buffer = vec![0u8; 10];
    file.read_at(&fs, 0, &mut buffer).unwrap();
    assert_eq!(&buffer[..5], b"Hello");
    assert_eq!(&buffer[5..], b"\x00\x00\x00\x00\x00");
}

#[test]
fn test_list() {
    let mut fs = fresh();
    let root = fs.mount();
    root.create(&mut fs, "file1.txt", VNodeType::File).unwrap();
    root.create(&mut fs, "file2.txt", VNodeType::File).unwrap();
    root.create(&mut fs, "dir1", VNodeType::Dir).unwrap();
    let entries = root.list(&fs).unwrap();
    assert_eq!(entries.len(), 3);
    assert!(entries.contains(&String::from("file1.txt")));
    assert!(entries.contains(&String::from("file2.txt")));
    assert!(entries.contains(&String::from("dir1")));
}

#[test]
fn test_unlink() {
    let mut fs = fresh();
    let root = fs.mount();
    root.create(&mut fs, "test.txt", VNodeType::File).unwrap();
    root.unlink(&mut fs, "test.txt").unwrap();
    let result = root.lookup(&fs, "test.txt");
    assert!(matches!(result, Err(VfsError::NotFound)));
}

#[test]
fn test_unlink_not_found() {
    let mut fs = fresh();
    let root = fs.mount();
    let result = root.unlink(&mut fs, "nonexistent.txt");
    assert!(matches!(result, Err(VfsError::NotFound)));
}

#[test]
fn test_rename() {
    let mut fs = fresh();
    let root = fs.mount();
    root.create(&mut fs, "old.txt", VNodeType::File).unwrap();
    root.rename(&mut fs, "old.txt", "new.txt").unwrap();
    let result = root.lookup(&fs, "old.txt");
    assert!(matches!(result, Err(VfsError::NotFound)));
    let file = root.lookup(&fs, "new.txt").unwrap();
    assert_eq!(file.node_type(&fs), VNodeType::File);
}

#[test]
fn test_rename_not_found() {
    let mut fs = fresh();
    let root = fs.mount();
    let result = root.rename(&mut fs, "old.txt", "new.txt");
    assert!(matches!(result, Err(VfsError::NotFound)));
}

#[test]
fn test_rename_already_exists() {
    let mut fs = fresh();
    let root = fs.mount();
    root.create(&mut fs, "file1.txt", VNodeType::File).unwrap();
    root.create(&mut fs, "file2.txt", VNodeType::File).unwrap();
    let result = root.rename(&mut fs, "file1.txt", "file2.txt");
    assert!(matches!(result, Err(VfsError::AlreadyExists)));
}

#[test]
fn test_create_symlink() {
    let mut fs = fresh();
    let root = fs.mount();
    let link = root.create_symlink(&mut fs, "link.txt", "target.txt").unwrap();
    assert_eq!(link.node_type(&fs), VNodeType::SymLink);
    let target = link.read_symlink(&fs).unwrap();
    assert_eq!(target, "target.txt");
}

#[test]
fn test_directory_operations() {
    let mut fs = fresh();
    let root = fs.mount();
    let dir = root.create(&mut fs, "testdir", VNodeType::Dir).unwrap();
    let result = dir.read_at(&fs, 0, &mut [0u8; 10]);
    assert!(matches!(result, Err(VfsError::NotAFile)));
    let result = dir.write_at(&mut fs, 0, b"test");
    assert!(matches!(result, Err(VfsError::NotAFile)));
}

#[test]
fn test_nested_directories() {
    let mut fs = fresh();
    let root = fs.mount();
    let dir1 = root.create(&mut fs, "dir1", VNodeType::Dir).unwrap();
    let dir2 = dir1.create(&mut fs, "dir2", VNodeType::Dir).unwrap();
    let file = dir2.create(&mut fs, "file.txt", VNodeType::File).unwrap();
    file.write_at(&mut fs, 0, b"nested").unwrap();
    let lookup = dir2.lookup(&fs, "file.txt").unwrap();
    let mut buffer = vec![0u8; 6];
    lookup.read_at(&fs, 0, &mut buffer).unwrap();
    assert_eq!(&buffer, b"nested");
}

#[test]
fn test_unlink_non_empty_dir() {
    let mut fs = fresh();
    let root = fs.mount();
    let dir = root.create(&mut fs, "testdir", VNodeType::Dir).unwrap();
    dir.create(&mut fs, "file.txt", VNodeType::File).unwrap();
    let result = root.unlink(&mut fs, "testdir");
    assert!(matches!(result, Err(VfsError::DirectoryNotEmpty)));
}

#[test]
fn listing_is_in_name_order() {
    let mut fs = fresh();
    let root = fs.mount();
    root.create(&mut fs, "b", VNodeType::File).unwrap();
    root.create(&mut fs, "a", VNodeType::Dir).unwrap();
    root.create(&mut fs, "c", VNodeType::File).unwrap();
    assert_eq!(root.list(&fs).unwrap(), vec!["a".to_string(), "b".to_string(), "c".to_string()]);
}

#[test]
fn file_handle_is_not_a_directory() {
    let mut fs = fresh();
    let root = fs.mount();
    let f = root.create(&mut fs, "f", VNodeType::File).unwrap();
    assert!(matches!(f.lookup(&fs, "x"), Err(VfsError::NotADirectory)));
    assert!(matches!(f.list(&fs), Err(VfsError::NotADirectory)));
    assert!(matches!(root.truncate(&mut fs, 0), Err(VfsError::NotImplemented)));
    assert_eq!(fs.fs_type(), "memfs");
}

#[test]
fn move_between_directories() {
    let mut fs = fresh();
    let root = fs.mount();
    let d = root.create(&mut fs, "d", VNodeType::Dir).unwrap();
    root.create(&mut fs, "f", VNodeType::File).unwrap();
    root.move_to(&mut fs, "f", &d, "g").unwrap();
    assert!(matches!(root.lookup(&fs, "f"), Err(VfsError::NotFound)));
    assert_eq!(d.lookup(&fs, "g").unwrap().node_type(&fs), VNodeType::File);
}

#[test]
fn device_node_reads_and_writes_through_the_device() {
    let mut fs = fresh();
    let root = fs.mount();
    let dev = root.create_device(&mut fs, "null", TestDevice).unwrap();
    assert_eq!(dev.node_type(&fs), VNodeType::Device);
    let mut buf = [0u8; 4];
    assert_eq!(dev.read_at(&fs, 0, &mut buf).unwrap(), 0);
    assert_eq!(dev.write_at(&mut fs, 0, b"abcd").unwrap(), 4);
}
