use proka_kernel::drivers::ops::{BlockDevice, CharDevice, DeviceError, DeviceInner, DeviceType, SharedDeviceOps, TestDevice};
use proka_kernel::fs::kernfs::{KernFs, ReadCallback, WriteCallback};
use proka_kernel::fs::vfs::{Metadata, VNodeType, VfsError};
use std::sync::{Arc, RwLock};

struct Reader(Arc<RwLock<Vec<u8>>>);
struct Writer(Arc<RwLock<Vec<u8>>>);

impl ReadCallback for Reader {
    fn call(&self, offset: u64, buf: &mut [u8]) -> Result<usize, VfsError> {
        let data = self.0.read().unwrap();
        let end = (offset + buf.len() as u64).min(data.len() as u64);
        let start = offset.min(data.len() as u64);
        let n = (end - start) as usize;
        buf[..n].copy_from_slice(&data[start as usize..end as usize]);
        Ok(n)
    }
}

impl WriteCallback for Writer {
    fn call(&self, offset: u64, buf: &[u8]) -> Result<usize, VfsError> {
        let mut data = self.0.write().unwrap();
        if offset + buf.len() as u64 > data.len() as u64 {
            data.resize((offset + buf.len() as u64) as usize, 0);
        }
        data[offset as usize..(offset + buf.len() as u64) as usize].copy_from_slice(buf);
        Ok(buf.len())
    }
}

struct MockCharDevice {
    data: RwLock<Vec<u8>>,
}

impl SharedDeviceOps for MockCharDevice {
    fn name(&self) -> &str {
        "mock"
    }
    fn device_type(&self) -> DeviceType {
        DeviceType::Char
    }
    fn open(&self) -> Result<(), DeviceError> {
        Ok(())
    }
    fn close(&self) -> Result<(), DeviceError> {
        Ok(())
    }
    fn ioctl(&self, _cmd: u64, _arg: u64) -> Result<u64, DeviceError> {
        Err(DeviceError::NotSupported)
    }
}

impl CharDevice for MockCharDevice {
    fn read(&self, buf: &mut [u8]) -> Result<usize, DeviceError> {
        let mut data = self.data.write().unwrap();
        let n = buf.len().min(data.len());
        buf[..n].copy_from_slice(&data[..n]);
        data.drain(..n);
        Ok(n)
    }
    fn write(&self, buf: &[u8]) -> Result<usize, DeviceError> {
        self.data.write().unwrap().extend_from_slice(buf);
        Ok(buf.len())
    }
}

struct MockBlockDevice;

impl SharedDeviceOps for MockBlockDevice {
    fn name(&self) -> &str {
        "block"
    }
    fn device_type(&self) -> DeviceType {
        DeviceType::Block
    }
    fn open(&self) -> Result<(), DeviceError> {
        Ok(())
    }
    fn close(&self) -> Result<(), DeviceError> {
        Ok(())
    }
    fn ioctl(&self, _cmd: u64, _arg: u64) -> Result<u64, DeviceError> {
        Err(DeviceError::NotSupported)
    }
}

impl BlockDevice for MockBlockDevice {
    fn block_size(&self) -> usize {
        512
    }
    fn num_blocks(&self) -> usize {
        10
    }
    fn read_blocks(&self, _block_idx: usize, _num_blocks: usize, _buf: &mut [u8]) -> Result<usize, DeviceError> {
        Ok(0)
    }
    fn write_blocks(&self, _block_idx: usize, _num_blocks: usize, _buf: &[u8]) -> Result<usize, DeviceError> {
        Ok(0)
    }
}

type Fs<C> = KernFs<Reader, Writer, C, MockBlockDevice>;

#[test]
fn kernfs_mount_creates_root() {
    let kernfs: Fs<TestDevice> = KernFs::new();
    let root = kernfs.mount();
    assert_eq!(root.node_type(&kernfs), VNodeType::Dir);
    assert_eq!(kernfs.fs_type(), "kernfs");
}

#[test]
fn kernfs_create_file() {
    let mut kernfs: Fs<TestDevice> = KernFs::new();
    let root = kernfs.mount();
    let file_inode = root.create(&mut kernfs, "test_file", VNodeType::File).unwrap();
    assert_eq!(file_inode.node_type(&kernfs), VNodeType::File);
}

#[test]
fn test_add_child_and_lookup() {
    let mut fs: Fs<TestDevice> = KernFs::new();
    let root = fs.new_dir();
    let child_dir = fs.new_dir();
    root.add_child(&mut fs, "child_dir", child_dir).unwrap();
    let looked_up_child = root.lookup(&fs, "child_dir").unwrap();
    assert_eq!(looked_up_child.node_type(&fs), VNodeType::Dir);
    assert_eq!(root.add_child(&mut fs, "child_dir", child_dir).unwrap_err(), VfsError::AlreadyExists);
}

#[test]
fn test_create_and_lookup_file() {
    let mut fs: Fs<TestDevice> = KernFs::new();
    let root = fs.new_dir();
    let file = root.create(&mut fs, "test_file", VNodeType::File).unwrap();
    assert_eq!(file.node_type(&fs), VNodeType::File);
    let looked_up_file = root.lookup(&fs, "test_file").unwrap();
    assert_eq!(looked_up_file.node_type(&fs), VNodeType::File);
}

#[test]
fn kernfs_unlink() {
    let mut fs: Fs<TestDevice> = KernFs::new();
    let root = fs.new_dir();
    root.create(&mut fs, "file_to_unlink", VNodeType::File).unwrap();
    root.unlink(&mut fs, "file_to_unlink").unwrap();
    assert_eq!(root.lookup(&fs, "file_to_unlink").unwrap_err(), VfsError::NotFound);
}

#[test]
fn test_list_directory() {
    let mut fs: Fs<TestDevice> = KernFs::new();
    let root = fs.new_dir();
    root.create(&mut fs, "file1", VNodeType::File).unwrap();
    root.create(&mut fs, "dir1", VNodeType::Dir).unwrap();
    let mut entries = root.list(&fs).unwrap();
    entries.sort();
    assert_eq!(entries, vec!["dir1".to_string(), "file1".to_string()]);
}

#[test]
fn test_file_read_write() {
    let file_content = Arc::new(RwLock::new(Vec::<u8>::new()));
    let mut fs: Fs<TestDevice> = KernFs::new();
    let file_inode = fs.new_file(Some(Reader(file_content.clone())), Some(Writer(file_content.clone())));

    let write_data = b"hello world";
    file_inode.write_at(&fs, 0, write_data).unwrap();

    let mut read_buffer = vec![0; write_data.len()];
    file_inode.read_at(&fs, 0, &mut read_buffer).unwrap();
    assert_eq!(read_buffer, write_data);

    let mut partial_read_buffer = vec![0; 5];
    file_inode.read_at(&fs, 0, &mut partial_read_buffer).unwrap();
    assert_eq!(partial_read_buffer, b"hello");

    file_inode.read_at(&fs, 6, &mut partial_read_buffer).unwrap();
    assert_eq!(partial_read_buffer, b"world");

    file_inode.write_at(&fs, 6, b"rust").unwrap();
    let mut full_read_buffer = vec![0; 10];
    file_inode.read_at(&fs, 0, &mut full_read_buffer).unwrap();
    assert_eq!(full_read_buffer, b"hello rust");

    let no_perm_file = fs.new_file(None, None);
    assert_eq!(no_perm_file.read_at(&fs, 0, &mut [0]).unwrap_err(), VfsError::PermissionDenied);
    assert_eq!(no_perm_file.write_at(&fs, 0, &[0]).unwrap_err(), VfsError::PermissionDenied);
}

#[test]
fn test_error_scenarios() {
    let mut fs: Fs<TestDevice> = KernFs::new();
    let root = fs.new_dir();
    let file_inode = fs.new_file(None, None);
    let child = fs.new_dir();

    assert_eq!(file_inode.add_child(&mut fs, "child", child).unwrap_err(), VfsError::NotADirectory);
    assert_eq!(file_inode.lookup(&fs, "child").unwrap_err(), VfsError::NotADirectory);
    assert_eq!(file_inode.create(&mut fs, "child", VNodeType::File).unwrap_err(), VfsError::NotADirectory);
    assert_eq!(
        file_inode.create_device(&mut fs, "child", DeviceInner::Char(TestDevice)).unwrap_err(),
        VfsError::NotADirectory
    );
    assert_eq!(file_inode.unlink(&mut fs, "child").unwrap_err(), VfsError::NotADirectory);
    assert_eq!(file_inode.list(&fs).unwrap_err(), VfsError::NotADirectory);

    assert_eq!(root.read_at(&fs, 0, &mut [0]).unwrap_err(), VfsError::NotAFile);
    assert_eq!(root.write_at(&fs, 0, &[0]).unwrap_err(), VfsError::NotAFile);

    assert_eq!(root.create(&mut fs, "symlink", VNodeType::SymLink).unwrap_err(), VfsError::NotImplemented);

    let m = Metadata { size: 0, permissions: 0, uid: 0, gid: 0, ctime: 0, mtime: 0, blocks: 0, nlinks: 0 };
    assert_eq!(root.set_metadata(&fs, &m).unwrap_err(), VfsError::NotImplemented);
    assert_eq!(file_inode.truncate(&fs, 0).unwrap_err(), VfsError::NotImplemented);
}

#[test]
fn test_device_node_read_write() {
    let mut fs: Fs<MockCharDevice> = KernFs::new();
    let root = fs.new_dir();
    let dev = MockCharDevice { data: RwLock::new(b"device_data".to_vec()) };
    let device_inode = root.create_device(&mut fs, "test_device", DeviceInner::Char(dev)).unwrap();
    assert_eq!(device_inode.node_type(&fs), VNodeType::Device);

    let mut read_buffer = vec![0; 5];
    device_inode.read_at(&fs, 0, &mut read_buffer).unwrap();
    assert_eq!(read_buffer, b"devic");

    let write_dev = MockCharDevice { data: RwLock::new(Vec::new()) };
    let write_device_inode = root.create_device(&mut fs, "write_test_device", DeviceInner::Char(write_dev)).unwrap();
    write_device_inode.write_at(&fs, 0, b"write_test").unwrap();
    let mut fresh_read_buffer = vec![0; 10];
    write_device_inode.read_at(&fs, 0, &mut fresh_read_buffer).unwrap();
    assert_eq!(fresh_read_buffer, b"write_test");

    let block_device_inode = root.create_device(&mut fs, "block_dev", DeviceInner::Block(MockBlockDevice)).unwrap();
    assert_eq!(block_device_inode.read_at(&fs, 0, &mut [0]).unwrap_err(), VfsError::NotImplemented);

    let mut nfs: Fs<TestDevice> = KernFs::new();
    let nroot = nfs.mount();
    let null_inode = nroot.create_device(&mut nfs, "null_device_node", DeviceInner::Char(TestDevice)).unwrap();
    let mut null_read_buf = [0; 10];
    assert_eq!(null_inode.read_at(&nfs, 0, &mut null_read_buf).unwrap(), 0);
    assert_eq!(null_inode.write_at(&nfs, 0, b"data").unwrap(), 4);
}

#[test]
fn move_between_directories_and_metadata() {
    let mut fs: Fs<TestDevice> = KernFs::new();
    let root = fs.mount();
    let a = root.create(&mut fs, "a", VNodeType::Dir).unwrap();
    let b = root.create(&mut fs, "b", VNodeType::Dir).unwrap();
    a.create(&mut fs, "f", VNodeType::File).unwrap();
    assert_eq!(a.move_to(&mut fs, "nope", &b, "g"), Err(VfsError::NotFound));
    b.create(&mut fs, "g", VNodeType::File).unwrap();
    assert_eq!(a.move_to(&mut fs, "f", &b, "g"), Err(VfsError::AlreadyExists));
    a.move_to(&mut fs, "f", &b, "h").unwrap();
    assert_eq!(a.list(&fs).unwrap(), Vec::<String>::new());
    assert_eq!(b.list(&fs).unwrap(), vec!["g".to_string(), "h".to_string()]);
    let f = b.lookup(&fs, "h").unwrap();
    assert_eq!(f.metadata(&fs).unwrap().permissions, 0o755);
    assert_eq!(f.metadata(&fs).unwrap().nlinks, 1);
    assert!(f.sync().is_ok());
}
