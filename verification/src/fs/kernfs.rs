//! The kernel file system: directories held in memory, files whose contents
//! come from callbacks, and device nodes.

use vstd::prelude::*;
use crate::drivers::ops::{CharDevice, DeviceInner};
use crate::fs::memfs::{
    entries_view, entry_index, find_in, lemma_entry_index, insert_entry, insert_pos, insert_position_in,
    lemma_insert_pos, lemma_insert_sorted, lemma_remove_sorted, remove_entry, sorted_entries,
    lemma_lookup_after_create, lemma_lookup_after_remove,
};
use crate::fs::vfs::{Metadata, VNodeType, VfsError};

verus! {

/// What a file node reads through: called with the offset and the buffer to fill.
pub trait ReadCallback {
    fn call(&self, offset: u64, buf: &mut [u8]) -> Result<usize, VfsError>;
}

/// What a file node writes through: called with the offset and the bytes.
pub trait WriteCallback {
    fn call(&self, offset: u64, buf: &[u8]) -> Result<usize, VfsError>;
}

/// The callbacks of a file node; a missing one makes that access refused.
pub struct KernFile<R, W> {
    pub read: Option<R>,
    pub write: Option<W>,
}

/// A node of the kernel file system, seen abstractly.
pub struct KernNodeView {
    pub node_type: VNodeType,
    /// The entries of a directory by name, in order of their names (empty for other nodes).
    pub entries: Seq<(Seq<char>, usize)>,
    /// Whether a file has a read callback.
    pub readable: bool,
    /// Whether a file has a write callback.
    pub writable: bool,
    /// Whether a device is a character device.
    pub char_device: bool,
}

/// A handle to a node of a [`KernFs`].
#[derive(Debug, Clone, Copy, PartialEq, Eq, Structural)]
pub struct KernVNode {
    pub id: usize,
}

/// The kernel file system: its nodes by id; node 0 is the root directory.
pub struct KernFs<R, W, C, B> {
    types: Vec<VNodeType>,
    entries: Vec<Vec<(String, usize)>>,
    files: Vec<Option<KernFile<R, W>>>,
    devices: Vec<Option<DeviceInner<C, B>>>,
}

impl<R, W, C, B> KernFs<R, W, C, B> {
    closed spec fn node_view(&self, i: int) -> KernNodeView {
        KernNodeView {
            node_type: self.types@[i],
            entries: entries_view(self.entries@[i]@),
            readable: self.files@[i] matches Some(f) && f.read is Some,
            writable: self.files@[i] matches Some(f) && f.write is Some,
            char_device: self.devices@[i] matches Some(d) && d is Char,
        }
    }

    /// The nodes, by id.
    pub closed spec fn spec_nodes(&self) -> Seq<KernNodeView> {
        Seq::new(self.types@.len(), |i: int| self.node_view(i))
    }

    closed spec fn node_ok(&self, i: int) -> bool {
        &&& self.types@[i] == VNodeType::File ==> self.files@[i] is Some
        &&& self.types@[i] == VNodeType::Device ==> self.devices@[i] is Some
        &&& self.types@[i] != VNodeType::Dir ==> self.entries@[i]@.len() == 0
        &&& sorted_entries(entries_view(self.entries@[i]@))
        &&& forall|k: int| 0 <= k < self.entries@[i]@.len() ==> (#[trigger] self.entries@[i]@[k]).1
            < self.types@.len()
    }

    pub closed spec fn wf(&self) -> bool {
        &&& self.entries@.len() == self.types@.len()
        &&& self.files@.len() == self.types@.len()
        &&& self.devices@.len() == self.types@.len()
        &&& self.types@.len() >= 1
        &&& self.types@[0] == VNodeType::Dir
        &&& forall|i: int| 0 <= i < self.types@.len() ==> #[trigger] self.node_ok(i)
    }
}

/// Whether a handle names a node of the file system.
pub open spec fn valid_kern(nodes: Seq<KernNodeView>, n: KernVNode) -> bool {
    n.id < nodes.len()
}

/// A new node of a type, with no entries.
pub open spec fn fresh_kern(t: VNodeType, readable: bool, writable: bool, char_device: bool) -> KernNodeView {
    KernNodeView { node_type: t, entries: Seq::empty(), readable, writable, char_device }
}

/// A node with new entries.
pub open spec fn with_kern_entries(v: KernNodeView, e: Seq<(Seq<char>, usize)>) -> KernNodeView {
    KernNodeView { entries: e, ..v }
}

/// What `lookup` answers for a name in a node.
pub open spec fn kern_lookup(v: KernNodeView, name: Seq<char>) -> Result<KernVNode, VfsError> {
    if v.node_type != VNodeType::Dir {
        Err(VfsError::NotADirectory)
    } else {
        let k = entry_index(v.entries, name);
        if k >= 0 {
            Ok(KernVNode { id: v.entries[k].1 })
        } else {
            Err(VfsError::NotFound)
        }
    }
}

/// Why adding an entry named `name` to a node fails, if it does.
pub open spec fn kern_add_error(v: KernNodeView, name: Seq<char>) -> Option<VfsError> {
    if v.node_type != VNodeType::Dir {
        Some(VfsError::NotADirectory)
    } else if entry_index(v.entries, name) >= 0 {
        Some(VfsError::AlreadyExists)
    } else {
        None
    }
}

/// The metadata every node reports: size 0, mode 0755, one link.
pub open spec fn kern_metadata() -> Metadata {
    Metadata { size: 0, permissions: 0o755, uid: 0, gid: 0, ctime: 0, mtime: 0, blocks: 0, nlinks: 1 }
}

impl<R, W, C, B> KernFs<R, W, C, B> {
    /// A file system holding only its root directory.
    pub fn new() -> (fs: Self)
        ensures
            fs.wf(),
            fs.spec_nodes() == seq![fresh_kern(VNodeType::Dir, false, false, false)],
    {
        let mut types: Vec<VNodeType> = Vec::new();
        let mut entries: Vec<Vec<(String, usize)>> = Vec::new();
        let mut files: Vec<Option<KernFile<R, W>>> = Vec::new();
        let mut devices: Vec<Option<DeviceInner<C, B>>> = Vec::new();
        types.push(VNodeType::Dir);
        entries.push(Vec::new());
        files.push(None);
        devices.push(None);
        let fs = KernFs { types, entries, files, devices };
        proof {
            assert(entries_view(fs.entries@[0]@) =~= Seq::<(Seq<char>, usize)>::empty());
            assert(fs.node_ok(0));
            assert(fs.node_view(0) == fresh_kern(VNodeType::Dir, false, false, false));
            assert(fs.spec_nodes() =~= seq![fresh_kern(VNodeType::Dir, false, false, false)]);
        }
        fs
    }

    /// The root directory.
    pub fn root(&self) -> (r: KernVNode)
        ensures
            r.id == 0,
    {
        KernVNode { id: 0 }
    }

    /// Mounting gives the root directory.
    pub fn mount(&self) -> (r: KernVNode)
        ensures
            r.id == 0,
    {
        KernVNode { id: 0 }
    }

    pub fn fs_type(&self) -> (s: &'static str)
        ensures
            s@ == "kernfs"@,
    {
        "kernfs"
    }

    /// Adds a node that no directory lists yet.
    fn add_node(&mut self, t: VNodeType, file: Option<KernFile<R, W>>, device: Option<DeviceInner<C, B>>) -> (n: KernVNode)
        requires
            old(self).wf(),
            t == VNodeType::File ==> file is Some,
            t == VNodeType::Device ==> device is Some,
        ensures
            final(self).wf(),
            n.id == old(self).spec_nodes().len(),
            final(self).spec_nodes() == old(self).spec_nodes().push(
                fresh_kern(
                    t,
                    file matches Some(f) && f.read is Some,
                    file matches Some(f) && f.write is Some,
                    device matches Some(d) && d is Char,
                ),
            ),
    {
        let id = self.types.len();
        self.types.push(t);
        self.entries.push(Vec::new());
        self.files.push(file);
        self.devices.push(device);
        proof {
            assert forall|i: int| 0 <= i < self.types@.len() implies #[trigger] self.node_ok(i) by {
                if i < id {
                    assert(old(self).node_ok(i));
                    assert(self.entries@[i] == old(self).entries@[i]);
                } else {
                    assert(entries_view(self.entries@[i]@) =~= Seq::<(Seq<char>, usize)>::empty());
                }
            }
            assert(entries_view(self.entries@[id as int]@) =~= Seq::<(Seq<char>, usize)>::empty());
            assert(self.spec_nodes() =~= old(self).spec_nodes().push(
                fresh_kern(
                    t,
                    file matches Some(f) && f.read is Some,
                    file matches Some(f) && f.write is Some,
                    device matches Some(d) && d is Char,
                ),
            ));
        }
        KernVNode { id }
    }

    /// A new directory, in no directory yet.
    pub fn new_dir(&mut self) -> (n: KernVNode)
        requires
            old(self).wf(),
        ensures
            final(self).wf(),
            n.id == old(self).spec_nodes().len(),
            final(self).spec_nodes() == old(self).spec_nodes().push(fresh_kern(VNodeType::Dir, false, false, false)),
    {
        self.add_node(VNodeType::Dir, None, None)
    }

    /// A new file reading and writing through the given callbacks, in no directory yet.
    pub fn new_file(&mut self, read: Option<R>, write: Option<W>) -> (n: KernVNode)
        requires
            old(self).wf(),
        ensures
            final(self).wf(),
            n.id == old(self).spec_nodes().len(),
            final(self).spec_nodes() == old(self).spec_nodes().push(
                fresh_kern(VNodeType::File, read is Some, write is Some, false),
            ),
    {
        let ghost r = read is Some;
        let ghost w = write is Some;
        self.add_node(VNodeType::File, Some(KernFile { read, write }), None)
    }

    /// A new device node, in no directory yet.
    pub fn new_device(&mut self, device: DeviceInner<C, B>) -> (n: KernVNode)
        requires
            old(self).wf(),
        ensures
            final(self).wf(),
            n.id == old(self).spec_nodes().len(),
            final(self).spec_nodes() == old(self).spec_nodes().push(
                fresh_kern(VNodeType::Device, false, false, device is Char),
            ),
    {
        let ghost c = device is Char;
        self.add_node(VNodeType::Device, None, Some(device))
    }

    /// Adds the entry `(name, child)` to directory `id`.
    fn dir_insert(&mut self, id: usize, name: &str, child: usize)
        requires
            old(self).wf(),
            id < old(self).spec_nodes().len(),
            child < old(self).spec_nodes().len(),
            old(self).spec_nodes()[id as int].node_type == VNodeType::Dir,
            entry_index(old(self).spec_nodes()[id as int].entries, name@) == -1,
        ensures
            final(self).wf(),
            final(self).spec_nodes() == old(self).spec_nodes().update(
                id as int,
                with_kern_entries(
                    old(self).spec_nodes()[id as int],
                    insert_entry(old(self).spec_nodes()[id as int].entries, name@, child),
                ),
            ),
    {
        proof {
            assert(old(self).node_ok(id as int));
            assert(old(self).spec_nodes()[id as int] == old(self).node_view(id as int));
        }
        let pos = insert_position_in(&self.entries[id], name);
        let ghost e = self.entries@[id as int]@;
        proof {
            lemma_insert_pos(entries_view(e), name@);
            lemma_insert_sorted(entries_view(e), name@, child);
        }
        let owned = name.to_owned();
        self.entries[id].insert(pos, (owned, child));
        proof {
            assert(entries_view(self.entries@[id as int]@) =~= insert_entry(entries_view(e), name@, child));
            assert forall|i: int| 0 <= i < self.types@.len() implies #[trigger] self.node_ok(i) by {
                assert(old(self).node_ok(i));
                if i == id as int {
                    assert forall|k: int| 0 <= k < self.entries@[i]@.len() implies (#[trigger] self.entries@[i]@[k]).1
                        < self.types@.len() by {
                        let p = insert_pos(entries_view(e), name@);
                        if k < p {
                            assert(self.entries@[i]@[k] == e[k]);
                        } else if k > p {
                            assert(self.entries@[i]@[k] == e[k - 1]);
                        }
                    }
                } else {
                    assert(self.entries@[i] == old(self).entries@[i]);
                }
            }
            assert(self.spec_nodes() =~= old(self).spec_nodes().update(
                id as int,
                with_kern_entries(
                    old(self).spec_nodes()[id as int],
                    insert_entry(old(self).spec_nodes()[id as int].entries, name@, child),
                ),
            ));
        }
    }

    /// Removes the entry at position `k` of directory `id`.
    fn dir_remove(&mut self, id: usize, k: usize) -> (child: usize)
        requires
            old(self).wf(),
            id < old(self).spec_nodes().len(),
            old(self).spec_nodes()[id as int].node_type == VNodeType::Dir,
            k < old(self).spec_nodes()[id as int].entries.len(),
        ensures
            final(self).wf(),
            child == old(self).spec_nodes()[id as int].entries[k as int].1,
            final(self).spec_nodes() == old(self).spec_nodes().update(
                id as int,
                with_kern_entries(
                    old(self).spec_nodes()[id as int],
                    old(self).spec_nodes()[id as int].entries.remove(k as int),
                ),
            ),
    {
        proof {
            assert(old(self).node_ok(id as int));
            assert(old(self).spec_nodes()[id as int] == old(self).node_view(id as int));
        }
        let ghost e = self.entries@[id as int]@;
        proof {
            lemma_remove_sorted(entries_view(e), k as int);
        }
        let (_, child) = self.entries[id].remove(k);
        proof {
            assert(entries_view(self.entries@[id as int]@) =~= entries_view(e).remove(k as int));
            assert forall|i: int| 0 <= i < self.types@.len() implies #[trigger] self.node_ok(i) by {
                assert(old(self).node_ok(i));
                if i == id as int {
                    assert forall|j: int| 0 <= j < self.entries@[i]@.len() implies (#[trigger] self.entries@[i]@[j]).1
                        < self.types@.len() by {
                        if j < k {
                            assert(self.entries@[i]@[j] == e[j]);
                        } else {
                            assert(self.entries@[i]@[j] == e[j + 1]);
                        }
                    }
                } else {
                    assert(self.entries@[i] == old(self).entries@[i]);
                }
            }
            assert(self.spec_nodes() =~= old(self).spec_nodes().update(
                id as int,
                with_kern_entries(
                    old(self).spec_nodes()[id as int],
                    old(self).spec_nodes()[id as int].entries.remove(k as int),
                ),
            ));
        }
        child
    }
}

impl KernVNode {
    pub fn node_type<R, W, C, B>(&self, fs: &KernFs<R, W, C, B>) -> (t: VNodeType)
        requires
            fs.wf(),
            valid_kern(fs.spec_nodes(), *self),
        ensures
            t == fs.spec_nodes()[self.id as int].node_type,
    {
        fs.types[self.id]
    }

    /// Every node reports the same metadata (a file's size is never tracked).
    pub fn metadata<R, W, C, B>(&self, fs: &KernFs<R, W, C, B>) -> (r: Result<Metadata, VfsError>)
        ensures
            r == Ok::<Metadata, VfsError>(kern_metadata()),
    {
        Ok(Metadata { size: 0, permissions: 0o755, uid: 0, gid: 0, ctime: 0, mtime: 0, blocks: 0, nlinks: 1 })
    }

    pub fn set_metadata<R, W, C, B>(&self, fs: &KernFs<R, W, C, B>, metadata: &Metadata) -> (r: Result<(), VfsError>)
        ensures
            r == Err::<(), VfsError>(VfsError::NotImplemented),
    {
        Err(VfsError::NotImplemented)
    }

    pub fn truncate<R, W, C, B>(&self, fs: &KernFs<R, W, C, B>, size: u64) -> (r: Result<(), VfsError>)
        ensures
            r == Err::<(), VfsError>(VfsError::NotImplemented),
    {
        Err(VfsError::NotImplemented)
    }

    pub fn sync(&self) -> (r: Result<(), VfsError>)
        ensures
            r is Ok,
    {
        Ok(())
    }

    /// Adds `child` to this directory under `name`.
    pub fn add_child<R, W, C, B>(&self, fs: &mut KernFs<R, W, C, B>, name: &str, child: KernVNode) -> (r: Result<(), VfsError>)
        requires
            old(fs).wf(),
            valid_kern(old(fs).spec_nodes(), *self),
            valid_kern(old(fs).spec_nodes(), child),
        ensures
            final(fs).wf(),
            ({
                let nodes = old(fs).spec_nodes();
                let v = nodes[self.id as int];
                match kern_add_error(v, name@) {
                    Some(e) => r == Err::<(), VfsError>(e) && final(fs).spec_nodes() == nodes,
                    None => r is Ok && final(fs).spec_nodes() == nodes.update(
                        self.id as int,
                        with_kern_entries(v, insert_entry(v.entries, name@, child.id)),
                    ),
                }
            }),
    {
        proof {
            assert(fs.spec_nodes()[self.id as int] == fs.node_view(self.id as int));
        }
        if fs.types[self.id] != VNodeType::Dir {
            return Err(VfsError::NotADirectory);
        }
        match find_in(&fs.entries[self.id], name) {
            Some(_) => {
                return Err(VfsError::AlreadyExists);
            },
            None => {},
        }
        fs.dir_insert(self.id, name, child.id);
        Ok(())
    }

    /// The node named `name` in this directory.
    pub fn lookup<R, W, C, B>(&self, fs: &KernFs<R, W, C, B>, name: &str) -> (r: Result<KernVNode, VfsError>)
        requires
            fs.wf(),
            valid_kern(fs.spec_nodes(), *self),
        ensures
            r == kern_lookup(fs.spec_nodes()[self.id as int], name@),
            r matches Ok(n) ==> valid_kern(fs.spec_nodes(), n),
    {
        proof {
            assert(fs.spec_nodes()[self.id as int] == fs.node_view(self.id as int));
            assert(fs.node_ok(self.id as int));
        }
        if fs.types[self.id] != VNodeType::Dir {
            return Err(VfsError::NotADirectory);
        }
        match find_in(&fs.entries[self.id], name) {
            Some(k) => {
                proof {
                    lemma_entry_index(entries_view(fs.entries@[self.id as int]@), name@);
                }
                let id = fs.entries[self.id][k].1;
                proof {
                    assert(entries_view(fs.entries@[self.id as int]@)[k as int].1 == id);
                }
                Ok(KernVNode { id })
            },
            None => Err(VfsError::NotFound),
        }
    }

    /// Creates an empty directory or a file without callbacks under `name`;
    /// other types are not supported.
    pub fn create<R, W, C, B>(&self, fs: &mut KernFs<R, W, C, B>, name: &str, typ: VNodeType) -> (r: Result<KernVNode, VfsError>)
        requires
            old(fs).wf(),
            valid_kern(old(fs).spec_nodes(), *self),
        ensures
            final(fs).wf(),
            ({
                let nodes = old(fs).spec_nodes();
                let v = nodes[self.id as int];
                match kern_add_error(v, name@) {
                    Some(e) => r == Err::<KernVNode, VfsError>(e) && final(fs).spec_nodes() == nodes,
                    None => if typ == VNodeType::Dir || typ == VNodeType::File {
                        &&& r == Ok::<KernVNode, VfsError>(KernVNode { id: nodes.len() as usize })
                        &&& final(fs).spec_nodes() == nodes.update(
                            self.id as int,
                            with_kern_entries(v, insert_entry(v.entries, name@, nodes.len() as usize)),
                        ).push(fresh_kern(typ, false, false, false))
                    } else {
                        r == Err::<KernVNode, VfsError>(VfsError::NotImplemented) && final(fs).spec_nodes() == nodes
                    },
                }
            }),
    {
        proof {
            assert(fs.spec_nodes()[self.id as int] == fs.node_view(self.id as int));
        }
        if fs.types[self.id] != VNodeType::Dir {
            return Err(VfsError::NotADirectory);
        }
        match find_in(&fs.entries[self.id], name) {
            Some(_) => {
                return Err(VfsError::AlreadyExists);
            },
            None => {},
        }
        let n = if typ == VNodeType::Dir {
            fs.new_dir()
        } else if typ == VNodeType::File {
            fs.new_file(None, None)
        } else {
            return Err(VfsError::NotImplemented);
        };
        proof {
            assert(fs.spec_nodes()[self.id as int] == old(fs).spec_nodes()[self.id as int]);
        }
        fs.dir_insert(self.id, name, n.id);
        proof {
            let nodes = old(fs).spec_nodes();
            let v = nodes[self.id as int];
            assert(fs.spec_nodes() =~= nodes.update(
                self.id as int,
                with_kern_entries(v, insert_entry(v.entries, name@, nodes.len() as usize)),
            ).push(fresh_kern(typ, false, false, false)));
        }
        Ok(n)
    }

    /// Adds a device node for `device` under `name`.
    pub fn create_device<R, W, C, B>(&self, fs: &mut KernFs<R, W, C, B>, name: &str, device: DeviceInner<C, B>) -> (r: Result<KernVNode, VfsError>)
        requires
            old(fs).wf(),
            valid_kern(old(fs).spec_nodes(), *self),
        ensures
            final(fs).wf(),
            ({
                let nodes = old(fs).spec_nodes();
                let v = nodes[self.id as int];
                match kern_add_error(v, name@) {
                    Some(e) => r == Err::<KernVNode, VfsError>(e) && final(fs).spec_nodes() == nodes,
                    None => {
                        &&& r == Ok::<KernVNode, VfsError>(KernVNode { id: nodes.len() as usize })
                        &&& final(fs).spec_nodes() == nodes.update(
                            self.id as int,
                            with_kern_entries(v, insert_entry(v.entries, name@, nodes.len() as usize)),
                        ).push(fresh_kern(VNodeType::Device, false, false, device is Char))
                    },
                }
            }),
    {
        proof {
            assert(fs.spec_nodes()[self.id as int] == fs.node_view(self.id as int));
        }
        if fs.types[self.id] != VNodeType::Dir {
            return Err(VfsError::NotADirectory);
        }
        match find_in(&fs.entries[self.id], name) {
            Some(_) => {
                return Err(VfsError::AlreadyExists);
            },
            None => {},
        }
        let ghost c = device is Char;
        let n = fs.new_device(device);
        proof {
            assert(fs.spec_nodes()[self.id as int] == old(fs).spec_nodes()[self.id as int]);
        }
        fs.dir_insert(self.id, name, n.id);
        proof {
            let nodes = old(fs).spec_nodes();
            let v = nodes[self.id as int];
            assert(fs.spec_nodes() =~= nodes.update(
                self.id as int,
                with_kern_entries(v, insert_entry(v.entries, name@, nodes.len() as usize)),
            ).push(fresh_kern(VNodeType::Device, false, false, c)));
        }
        Ok(n)
    }

    /// Removes the entry `name` from this directory (the node stays, unlisted).
    pub fn unlink<R, W, C, B>(&self, fs: &mut KernFs<R, W, C, B>, name: &str) -> (r: Result<(), VfsError>)
        requires
            old(fs).wf(),
            valid_kern(old(fs).spec_nodes(), *self),
        ensures
            final(fs).wf(),
            ({
                let nodes = old(fs).spec_nodes();
                let v = nodes[self.id as int];
                if v.node_type != VNodeType::Dir {
                    r == Err::<(), VfsError>(VfsError::NotADirectory) && final(fs).spec_nodes() == nodes
                } else if entry_index(v.entries, name@) < 0 {
                    r == Err::<(), VfsError>(VfsError::NotFound) && final(fs).spec_nodes() == nodes
                } else {
                    r is Ok && final(fs).spec_nodes() == nodes.update(
                        self.id as int,
                        with_kern_entries(v, remove_entry(v.entries, name@)),
                    )
                }
            }),
    {
        proof {
            assert(fs.spec_nodes()[self.id as int] == fs.node_view(self.id as int));
        }
        if fs.types[self.id] != VNodeType::Dir {
            return Err(VfsError::NotADirectory);
        }
        match find_in(&fs.entries[self.id], name) {
            Some(k) => {
                proof {
                    lemma_entry_index(entries_view(fs.entries@[self.id as int]@), name@);
                }
                fs.dir_remove(self.id, k);
                Ok(())
            },
            None => Err(VfsError::NotFound),
        }
    }

    /// Moves the entry `old_name` of this directory to `target_dir` as
    /// `new_name`. Both must be directories, and distinct.
    pub fn move_to<R, W, C, B>(&self, fs: &mut KernFs<R, W, C, B>, old_name: &str, target_dir: &KernVNode, new_name: &str) -> (r: Result<(), VfsError>)
        requires
            old(fs).wf(),
            valid_kern(old(fs).spec_nodes(), *self),
            valid_kern(old(fs).spec_nodes(), *target_dir),
            self.id != target_dir.id,
        ensures
            final(fs).wf(),
            ({
                let nodes = old(fs).spec_nodes();
                let s = nodes[self.id as int];
                let t = nodes[target_dir.id as int];
                if s.node_type != VNodeType::Dir || t.node_type != VNodeType::Dir {
                    r == Err::<(), VfsError>(VfsError::NotADirectory) && final(fs).spec_nodes() == nodes
                } else if entry_index(s.entries, old_name@) < 0 {
                    r == Err::<(), VfsError>(VfsError::NotFound) && final(fs).spec_nodes() == nodes
                } else if entry_index(t.entries, new_name@) >= 0 {
                    r == Err::<(), VfsError>(VfsError::AlreadyExists) && final(fs).spec_nodes() == nodes
                } else {
                    let child = s.entries[entry_index(s.entries, old_name@)].1;
                    &&& r is Ok
                    &&& final(fs).spec_nodes() == nodes.update(
                        self.id as int,
                        with_kern_entries(s, remove_entry(s.entries, old_name@)),
                    ).update(
                        target_dir.id as int,
                        with_kern_entries(t, insert_entry(t.entries, new_name@, child)),
                    )
                }
            }),
    {
        proof {
            assert(fs.spec_nodes()[self.id as int] == fs.node_view(self.id as int));
            assert(fs.spec_nodes()[target_dir.id as int] == fs.node_view(target_dir.id as int));
        }
        if fs.types[self.id] != VNodeType::Dir || fs.types[target_dir.id] != VNodeType::Dir {
            return Err(VfsError::NotADirectory);
        }
        let k = match find_in(&fs.entries[self.id], old_name) {
            Some(k) => {
                proof {
                    lemma_entry_index(entries_view(fs.entries@[self.id as int]@), old_name@);
                }
                k
            },
            None => {
                return Err(VfsError::NotFound);
            },
        };
        match find_in(&fs.entries[target_dir.id], new_name) {
            Some(_) => {
                return Err(VfsError::AlreadyExists);
            },
            None => {},
        }
        let child = fs.dir_remove(self.id, k);
        proof {
            assert(fs.spec_nodes()[target_dir.id as int] == old(fs).spec_nodes()[target_dir.id as int]);
            assert(child < fs.spec_nodes().len()) by {
                assert(old(fs).node_ok(self.id as int));
                assert(entries_view(old(fs).entries@[self.id as int]@)[k as int].1 == old(fs).entries@[self.id as int]@[k as int].1);
                assert(old(fs).entries@[self.id as int]@[k as int].1 < old(fs).types@.len());
            }
        }
        fs.dir_insert(target_dir.id, new_name, child);
        Ok(())
    }

    /// The names in this directory, in order.
    pub fn list<R, W, C, B>(&self, fs: &KernFs<R, W, C, B>) -> (r: Result<Vec<String>, VfsError>)
        requires
            fs.wf(),
            valid_kern(fs.spec_nodes(), *self),
        ensures
            fs.spec_nodes()[self.id as int].node_type != VNodeType::Dir ==> r == Err::<Vec<String>, VfsError>(VfsError::NotADirectory),
            fs.spec_nodes()[self.id as int].node_type == VNodeType::Dir ==> (r matches Ok(names) && names@.len()
                == fs.spec_nodes()[self.id as int].entries.len() && forall|k: int|
                0 <= k < names@.len() ==> (#[trigger] names@[k])@ == fs.spec_nodes()[self.id as int].entries[k].0),
    {
        proof {
            assert(fs.spec_nodes()[self.id as int] == fs.node_view(self.id as int));
        }
        if fs.types[self.id] != VNodeType::Dir {
            return Err(VfsError::NotADirectory);
        }
        let ghost e = entries_view(fs.entries@[self.id as int]@);
        let n = fs.entries[self.id].len();
        let mut names: Vec<String> = Vec::new();
        let mut i: usize = 0;
        while i < n
            invariant
                self.id < fs.entries@.len(),
                e == entries_view(fs.entries@[self.id as int]@),
                n == e.len(),
                i <= n,
                names@.len() == i,
                forall|k: int| 0 <= k < i ==> (#[trigger] names@[k])@ == e[k].0,
            decreases n - i,
        {
            let name = fs.entries[self.id][i].0.clone();
            proof {
                assert(e[i as int].0 == fs.entries@[self.id as int]@[i as int].0@);
            }
            names.push(name);
            i = i + 1;
        }
        Ok(names)
    }
}

impl KernVNode {
    /// Reads from a file through its read callback (refused without one) or
    /// from a character device; a block device is not supported and a
    /// directory cannot be read.
    pub fn read_at<R: ReadCallback, W, C: CharDevice, B>(&self, fs: &KernFs<R, W, C, B>, offset: u64, buf: &mut [u8]) -> (r: Result<usize, VfsError>)
        requires
            fs.wf(),
            valid_kern(fs.spec_nodes(), *self),
        ensures
            ({
                let v = fs.spec_nodes()[self.id as int];
                &&& (v.node_type == VNodeType::Dir || v.node_type == VNodeType::SymLink) ==> r == Err::<usize, VfsError>(VfsError::NotAFile)
                &&& v.node_type == VNodeType::File && !v.readable ==> r == Err::<usize, VfsError>(VfsError::PermissionDenied)
                &&& v.node_type == VNodeType::Device && !v.char_device ==> r == Err::<usize, VfsError>(VfsError::NotImplemented)
                &&& v.node_type == VNodeType::Device && v.char_device ==> (r is Ok || r matches Err(VfsError::DeviceError(_)))
            }),
    {
        proof {
            assert(fs.spec_nodes()[self.id as int] == fs.node_view(self.id as int));
            assert(fs.node_ok(self.id as int));
        }
        let t = fs.types[self.id];
        if t == VNodeType::File {
            match &fs.files[self.id] {
                Some(f) => match &f.read {
                    Some(cb) => cb.call(offset, buf),
                    None => Err(VfsError::PermissionDenied),
                },
                None => Err(VfsError::PermissionDenied),
            }
        } else if t == VNodeType::Device {
            match &fs.devices[self.id] {
                Some(DeviceInner::Char(c)) => match c.read(buf) {
                    Ok(n) => Ok(n),
                    Err(e) => Err(VfsError::DeviceError(e)),
                },
                _ => Err(VfsError::NotImplemented),
            }
        } else {
            Err(VfsError::NotAFile)
        }
    }

    /// Writes to a file through its write callback (refused without one) or
    /// to a character device; a block device is not supported and a
    /// directory cannot be written.
    pub fn write_at<R, W: WriteCallback, C: CharDevice, B>(&self, fs: &KernFs<R, W, C, B>, offset: u64, buf: &[u8]) -> (r: Result<usize, VfsError>)
        requires
            fs.wf(),
            valid_kern(fs.spec_nodes(), *self),
        ensures
            ({
                let v = fs.spec_nodes()[self.id as int];
                &&& (v.node_type == VNodeType::Dir || v.node_type == VNodeType::SymLink) ==> r == Err::<usize, VfsError>(VfsError::NotAFile)
                &&& v.node_type == VNodeType::File && !v.writable ==> r == Err::<usize, VfsError>(VfsError::PermissionDenied)
                &&& v.node_type == VNodeType::Device && !v.char_device ==> r == Err::<usize, VfsError>(VfsError::NotImplemented)
                &&& v.node_type == VNodeType::Device && v.char_device ==> (r is Ok || r matches Err(VfsError::DeviceError(_)))
            }),
    {
        proof {
            assert(fs.spec_nodes()[self.id as int] == fs.node_view(self.id as int));
            assert(fs.node_ok(self.id as int));
        }
        let t = fs.types[self.id];
        if t == VNodeType::File {
            match &fs.files[self.id] {
                Some(f) => match &f.write {
                    Some(cb) => cb.call(offset, buf),
                    None => Err(VfsError::PermissionDenied),
                },
                None => Err(VfsError::PermissionDenied),
            }
        } else if t == VNodeType::Device {
            match &fs.devices[self.id] {
                Some(DeviceInner::Char(c)) => match c.write(buf) {
                    Ok(n) => Ok(n),
                    Err(e) => Err(VfsError::DeviceError(e)),
                },
                _ => Err(VfsError::NotImplemented),
            }
        } else {
            Err(VfsError::NotAFile)
        }
    }
}

impl<R, W, C, B> KernFs<R, W, C, B> {
    /// The entries of every node of a well-formed file system are sorted by name.
    pub proof fn lemma_sorted(&self, i: int)
        requires
            self.wf(),
            0 <= i < self.spec_nodes().len(),
        ensures
            sorted_entries(self.spec_nodes()[i].entries),
    {
        assert(self.node_ok(i));
        assert(self.spec_nodes()[i] == self.node_view(i));
    }
}

/// What is added to a directory under a name is what looking the name up finds.
pub proof fn lemma_lookup_after_add<R, W, C, B>(fs: &KernFs<R, W, C, B>, dir: KernVNode, name: Seq<char>, child: usize)
    requires
        fs.wf(),
        valid_kern(fs.spec_nodes(), dir),
        kern_add_error(fs.spec_nodes()[dir.id as int], name) is None,
    ensures
        ({
            let v = fs.spec_nodes()[dir.id as int];
            kern_lookup(with_kern_entries(v, insert_entry(v.entries, name, child)), name)
                == Ok::<KernVNode, VfsError>(KernVNode { id: child })
        }),
{
    let v = fs.spec_nodes()[dir.id as int];
    fs.lemma_sorted(dir.id as int);
    crate::fs::memfs::lemma_entry_index(v.entries, name);
    lemma_lookup_after_create(v.entries, name, child);
}

/// After a name is unlinked from a directory, looking it up finds nothing.
pub proof fn lemma_lookup_after_unlink<R, W, C, B>(fs: &KernFs<R, W, C, B>, dir: KernVNode, name: Seq<char>)
    requires
        fs.wf(),
        valid_kern(fs.spec_nodes(), dir),
        fs.spec_nodes()[dir.id as int].node_type == VNodeType::Dir,
        entry_index(fs.spec_nodes()[dir.id as int].entries, name) >= 0,
    ensures
        ({
            let v = fs.spec_nodes()[dir.id as int];
            kern_lookup(with_kern_entries(v, remove_entry(v.entries, name)), name)
                == Err::<KernVNode, VfsError>(VfsError::NotFound)
        }),
{
    let v = fs.spec_nodes()[dir.id as int];
    fs.lemma_sorted(dir.id as int);
    lemma_lookup_after_remove(v.entries, name);
}

} // verus!
