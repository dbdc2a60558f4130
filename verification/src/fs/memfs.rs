//! An in-memory file system: files, directories, symbolic links and device
//! nodes held in RAM.
//!
//! Nodes live in an arena owned by the [`MemFs`]; a [`MemVNode`] names one of
//! them. A node stays in the arena after it is unlinked, so a handle to it
//! keeps working, as a shared reference to the node would.

use vstd::prelude::*;
use vstd::string::StringSliceAdditionalSpecFns;
use crate::drivers::ops::CharDevice;
use crate::fs::names::{compare_names, name_lt, NameOrder, lemma_name_lt_asymmetric, lemma_name_lt_irreflexive, lemma_name_lt_total, lemma_name_lt_transitive};
use crate::fs::vfs::{Metadata, VNodeType, VfsError};

verus! {

/// Permission bits a new node of a type gets.
pub open spec fn default_permissions(t: VNodeType) -> u32 {
    match t {
        VNodeType::Dir => 0o755,
        VNodeType::File => 0o644,
        VNodeType::SymLink => 0o777,
        VNodeType::Device => 0o600,
    }
}

/// 512-byte blocks needed for `size` bytes.
pub open spec fn blocks_for(size: u64) -> u64 {
    (size / 512 + (if size % 512 == 0 { 0int } else { 1int })) as u64
}

/// The metadata of a new node: its size, the type's permissions, owner and
/// times zero, one link.
pub open spec fn new_metadata(t: VNodeType, size: u64) -> Metadata {
    Metadata {
        size,
        permissions: default_permissions(t),
        uid: 0,
        gid: 0,
        ctime: 0,
        mtime: 0,
        blocks: blocks_for(size),
        nlinks: 1,
    }
}

/// The metadata of a new node (see [`new_metadata`]).
pub fn create_metadata(node_type: VNodeType, size: u64) -> (m: Metadata)
    ensures
        m == new_metadata(node_type, size),
{
    let permissions = match node_type {
        VNodeType::Dir => 0o755,
        VNodeType::File => 0o644,
        VNodeType::SymLink => 0o777,
        VNodeType::Device => 0o600,
    };
    Metadata {
        size,
        permissions,
        uid: 0,
        gid: 0,
        ctime: 0,
        mtime: 0,
        blocks: size / 512 + if size % 512 == 0 { 0 } else { 1 },
        nlinks: 1,
    }
}

/// What a node holds, seen abstractly.
pub enum ContentView {
    File(Seq<u8>),
    /// The entries by name, in order of their names.
    Dir(Seq<(Seq<char>, usize)>),
    SymLink(Seq<char>),
    Device,
}

/// A node, seen abstractly.
pub struct NodeView {
    pub node_type: VNodeType,
    pub metadata: Metadata,
    pub content: ContentView,
}

/// Entries in strictly increasing order of their names.
pub open spec fn sorted_entries(e: Seq<(Seq<char>, usize)>) -> bool {
    forall|a: int, b: int| 0 <= a < b < e.len() ==> name_lt(e[a].0, e[b].0)
}

/// Where the entry named `name` is (-1 when there is none).
pub open spec fn entry_index(e: Seq<(Seq<char>, usize)>, name: Seq<char>) -> int
    decreases e.len(),
{
    if e.len() == 0 {
        -1
    } else if e.last().0 == name {
        e.len() - 1
    } else {
        entry_index(e.drop_last(), name)
    }
}

/// How many entries come before `name`.
pub open spec fn insert_pos(e: Seq<(Seq<char>, usize)>, name: Seq<char>) -> int
    decreases e.len(),
{
    if e.len() == 0 || !name_lt(e[0].0, name) {
        0
    } else {
        1 + insert_pos(e.drop_first(), name)
    }
}

/// The entries with `(name, id)` added in its place.
pub open spec fn insert_entry(e: Seq<(Seq<char>, usize)>, name: Seq<char>, id: usize) -> Seq<(Seq<char>, usize)> {
    e.insert(insert_pos(e, name), (name, id))
}

/// The entries without the one named `name`.
pub open spec fn remove_entry(e: Seq<(Seq<char>, usize)>, name: Seq<char>) -> Seq<(Seq<char>, usize)> {
    e.remove(entry_index(e, name))
}

pub proof fn lemma_entry_index(e: Seq<(Seq<char>, usize)>, name: Seq<char>)
    ensures
        -1 <= entry_index(e, name) < e.len(),
        entry_index(e, name) >= 0 ==> e[entry_index(e, name)].0 == name,
        entry_index(e, name) == -1 <==> forall|k: int| 0 <= k < e.len() ==> (#[trigger] e[k]).0 != name,
    decreases e.len(),
{
    if e.len() > 0 {
        lemma_entry_index(e.drop_last(), name);
        if entry_index(e, name) == -1 {
            assert forall|k: int| 0 <= k < e.len() implies (#[trigger] e[k]).0 != name by {
                if k < e.len() - 1 {
                    assert(e.drop_last()[k] == e[k]);
                }
            }
        }
        if forall|k: int| 0 <= k < e.len() ==> (#[trigger] e[k]).0 != name {
            assert forall|k: int| 0 <= k < e.drop_last().len() implies (#[trigger] e.drop_last()[k]).0 != name by {
                assert(e.drop_last()[k] == e[k]);
            }
        }
    }
}

pub proof fn lemma_insert_pos(e: Seq<(Seq<char>, usize)>, name: Seq<char>)
    requires
        sorted_entries(e),
    ensures
        0 <= insert_pos(e, name) <= e.len(),
        forall|k: int| 0 <= k < insert_pos(e, name) ==> name_lt((#[trigger] e[k]).0, name),
        forall|k: int| insert_pos(e, name) <= k < e.len() ==> !name_lt((#[trigger] e[k]).0, name),
    decreases e.len(),
{
    if e.len() > 0 && name_lt(e[0].0, name) {
        let t = e.drop_first();
        assert(sorted_entries(t)) by {
            assert forall|a: int, b: int| 0 <= a < b < t.len() implies name_lt(t[a].0, t[b].0) by {
                assert(t[a] == e[a + 1] && t[b] == e[b + 1]);
            }
        }
        lemma_insert_pos(t, name);
        assert forall|k: int| 0 <= k < insert_pos(e, name) implies name_lt((#[trigger] e[k]).0, name) by {
            if k > 0 {
                assert(e[k] == t[k - 1]);
            }
        }
        assert forall|k: int| insert_pos(e, name) <= k < e.len() implies !name_lt((#[trigger] e[k]).0, name) by {
            assert(e[k] == t[k - 1]);
        }
    } else if e.len() > 0 {
        assert forall|k: int| 0 <= k < e.len() implies !name_lt((#[trigger] e[k]).0, name) by {
            if k > 0 {
                assert(name_lt(e[0].0, e[k].0));
                if name_lt(e[k].0, name) {
                    lemma_name_lt_transitive(e[0].0, e[k].0, name);
                }
            }
        }
    }
}

/// Adding an entry with a new name keeps the entries in order.
pub proof fn lemma_insert_sorted(e: Seq<(Seq<char>, usize)>, name: Seq<char>, id: usize)
    requires
        sorted_entries(e),
        entry_index(e, name) == -1,
    ensures
        sorted_entries(insert_entry(e, name, id)),
        insert_entry(e, name, id).len() == e.len() + 1,
{
    lemma_insert_pos(e, name);
    lemma_entry_index(e, name);
    let p = insert_pos(e, name);
    let r = insert_entry(e, name, id);
    assert forall|a: int, b: int| 0 <= a < b < r.len() implies name_lt(r[a].0, r[b].0) by {
        if b < p {
            assert(r[a] == e[a] && r[b] == e[b]);
        } else if b == p {
            assert(r[a] == e[a]);
        } else if a < p {
            assert(r[a] == e[a] && r[b] == e[b - 1]);
            assert(name_lt(e[a].0, name));
            lemma_name_lt_total(name, e[b - 1].0);
            assert(e[b - 1].0 != name);
            assert(!name_lt(e[b - 1].0, name));
            lemma_name_lt_transitive(e[a].0, name, e[b - 1].0);
        } else if a == p {
            assert(r[b] == e[b - 1]);
            lemma_name_lt_total(name, e[b - 1].0);
            assert(e[b - 1].0 != name);
        } else {
            assert(r[a] == e[a - 1] && r[b] == e[b - 1]);
        }
    }
}

/// Removing an entry keeps the entries in order.
pub proof fn lemma_remove_sorted(e: Seq<(Seq<char>, usize)>, i: int)
    requires
        sorted_entries(e),
        0 <= i < e.len(),
    ensures
        sorted_entries(e.remove(i)),
{
    let r = e.remove(i);
    assert forall|a: int, b: int| 0 <= a < b < r.len() implies name_lt(r[a].0, r[b].0) by {
        let a2 = if a < i { a } else { a + 1 };
        let b2 = if b < i { b } else { b + 1 };
        assert(r[a] == e[a2] && r[b] == e[b2]);
    }
}

/// A node of the arena: its type, its metadata, and where its content is
/// kept in the store of its type.
#[derive(Clone, Copy)]
struct NodeInfo {
    node_type: VNodeType,
    metadata: Metadata,
    slot: usize,
}

/// The position of the entry named `name` among `entries`, searching from the end.
pub(crate) fn find_in(entries: &Vec<(String, usize)>, name: &str) -> (r: Option<usize>)
    ensures
        r matches Some(k) ==> k == entry_index(entries_view(entries@), name@),
        r is None ==> entry_index(entries_view(entries@), name@) == -1,
{
    let ghost e = entries_view(entries@);
    let n = entries.len();
    let mut i = n;
    proof {
        assert(e.take(n as int) =~= e);
    }
    while i > 0
        invariant
            e == entries_view(entries@),
            n == e.len(),
            i <= n,
            entry_index(e, name@) == entry_index(e.take(i as int), name@),
        decreases i,
    {
        proof {
            assert(e.take(i as int).drop_last() =~= e.take(i - 1));
        }
        let entry_name = entries[i - 1].0.as_str();
        proof {
            assert(e[i - 1] == (entries@[i - 1].0@, entries@[i - 1].1));
            assert(e.take(i as int).last() == e[i - 1]);
        }
        if compare_names(entry_name, name) == NameOrder::Equal {
            return Some(i - 1);
        }
        i = i - 1;
    }
    None
}

/// Where an entry named `name` goes among sorted `entries`.
pub(crate) fn insert_position_in(entries: &Vec<(String, usize)>, name: &str) -> (r: usize)
    requires
        sorted_entries(entries_view(entries@)),
    ensures
        r == insert_pos(entries_view(entries@), name@),
{
    let ghost e = entries_view(entries@);
    proof {
        lemma_insert_pos(e, name@);
    }
    let n = entries.len();
    let mut i: usize = 0;
    while i < n
        invariant
            e == entries_view(entries@),
            n == e.len(),
            i <= n,
            i <= insert_pos(e, name@),
            0 <= insert_pos(e, name@) <= e.len(),
            forall|k: int| 0 <= k < insert_pos(e, name@) ==> name_lt((#[trigger] e[k]).0, name@),
            forall|k: int| insert_pos(e, name@) <= k < e.len() ==> !name_lt((#[trigger] e[k]).0, name@),
        decreases n - i,
    {
        let entry_name = entries[i].0.as_str();
        proof {
            assert(e[i as int] == (entries@[i as int].0@, entries@[i as int].1));
        }
        if compare_names(entry_name, name) != NameOrder::Less {
            proof {
                assert(!name_lt(e[i as int].0, name@));
            }
            return i;
        }
        i = i + 1;
    }
    i
}

/// A handle to a node of a [`MemFs`].
#[derive(Debug, Clone, Copy, PartialEq, Eq, Structural)]
pub struct MemVNode {
    pub id: usize,
}

/// An in-memory file system holding devices of type `D`.
pub struct MemFs<D> {
    nodes: Vec<NodeInfo>,
    files: Vec<Vec<u8>>,
    dirs: Vec<Vec<(String, usize)>>,
    links: Vec<String>,
    devices: Vec<D>,
}

pub open spec fn entries_view(e: Seq<(String, usize)>) -> Seq<(Seq<char>, usize)> {
    e.map_values(|p: (String, usize)| (p.0@, p.1))
}

impl<D> MemFs<D> {
    closed spec fn node_view(&self, i: int) -> NodeView {
        let n = self.nodes@[i];
        NodeView {
            node_type: n.node_type,
            metadata: n.metadata,
            content: match n.node_type {
                VNodeType::File => ContentView::File(self.files@[n.slot as int]@),
                VNodeType::Dir => ContentView::Dir(entries_view(self.dirs@[n.slot as int]@)),
                VNodeType::SymLink => ContentView::SymLink(self.links@[n.slot as int]@),
                VNodeType::Device => ContentView::Device,
            },
        }
    }

    /// The nodes of the file system, by id.
    pub closed spec fn spec_nodes(&self) -> Seq<NodeView> {
        Seq::new(self.nodes@.len(), |i: int| self.node_view(i))
    }

    closed spec fn slot_ok(&self, i: int) -> bool {
        let n = self.nodes@[i];
        match n.node_type {
            VNodeType::File => n.slot < self.files@.len(),
            VNodeType::Dir => n.slot < self.dirs@.len(),
            VNodeType::SymLink => n.slot < self.links@.len(),
            VNodeType::Device => n.slot < self.devices@.len(),
        }
    }

    pub closed spec fn wf(&self) -> bool {
        &&& forall|i: int| 0 <= i < self.nodes@.len() ==> #[trigger] self.slot_ok(i)
        &&& forall|i: int, j: int|
            0 <= i < self.nodes@.len() && 0 <= j < self.nodes@.len() && i != j
                && self.nodes@[i].node_type == self.nodes@[j].node_type ==> #[trigger] self.nodes@[i].slot
                != #[trigger] self.nodes@[j].slot
        &&& forall|i: int|
            0 <= i < self.nodes@.len() && (#[trigger] self.nodes@[i]).node_type == VNodeType::Dir
                ==> sorted_entries(entries_view(self.dirs@[self.nodes@[i].slot as int]@))
                && forall|k: int|
                0 <= k < self.dirs@[self.nodes@[i].slot as int]@.len() ==> (#[trigger] self.dirs@[self.nodes@[i].slot as int]@[k]).1
                    < self.nodes@.len()
    }
}


/// Whether a handle names a node of the file system.
pub open spec fn valid_node(nodes: Seq<NodeView>, n: MemVNode) -> bool {
    n.id < nodes.len()
}

/// The entries of a directory node (empty for other nodes).
pub open spec fn dir_entries(v: NodeView) -> Seq<(Seq<char>, usize)> {
    match v.content {
        ContentView::Dir(e) => e,
        _ => Seq::empty(),
    }
}

pub open spec fn is_dir(v: NodeView) -> bool {
    v.content is Dir
}

/// A directory node with new entries.
pub open spec fn with_entries(v: NodeView, e: Seq<(Seq<char>, usize)>) -> NodeView {
    NodeView { content: ContentView::Dir(e), ..v }
}

/// A new, empty node of a type.
pub open spec fn fresh_node(t: VNodeType, content: ContentView) -> NodeView {
    NodeView { node_type: t, metadata: new_metadata(t, 0), content }
}

/// A new symbolic link to `target`, whose size is the target's length in bytes.
pub open spec fn link_node(target: Seq<char>, size: u64) -> NodeView {
    NodeView {
        node_type: VNodeType::SymLink,
        metadata: new_metadata(VNodeType::SymLink, size),
        content: ContentView::SymLink(target),
    }
}

impl<D> MemFs<D> {
    /// An empty file system (no nodes yet; `mount` makes a root).
    pub fn new() -> (fs: Self)
        ensures
            fs.wf(),
            fs.spec_nodes() == Seq::<NodeView>::empty(),
    {
        let fs = MemFs {
            nodes: Vec::new(),
            files: Vec::new(),
            dirs: Vec::new(),
            links: Vec::new(),
            devices: Vec::new(),
        };
        proof {
            assert(fs.spec_nodes() =~= Seq::<NodeView>::empty());
        }
        fs
    }

    /// The name of this file system type.
    pub fn fs_type(&self) -> (s: &'static str)
        ensures
            s@ == "memfs"@,
    {
        "memfs"
    }

    /// Adds a new empty directory node; gives its id.
    fn add_dir(&mut self) -> (id: usize)
        requires
            old(self).wf(),
        ensures
            final(self).wf(),
            id == old(self).spec_nodes().len(),
            final(self).spec_nodes() == old(self).spec_nodes().push(
                fresh_node(VNodeType::Dir, ContentView::Dir(Seq::empty())),
            ),
    {
        let slot = self.dirs.len();
        let id = self.nodes.len();
        self.dirs.push(Vec::new());
        self.nodes.push(NodeInfo { node_type: VNodeType::Dir, metadata: create_metadata(VNodeType::Dir, 0), slot });
        proof {
            assert forall|i: int| 0 <= i < self.nodes@.len() implies #[trigger] self.slot_ok(i) by {
                if i < id {
                    assert(old(self).slot_ok(i));
                }
            }
            assert(entries_view(Seq::<(String, usize)>::empty()) =~= Seq::empty());
            assert forall|i: int, j: int|
                0 <= i < self.nodes@.len() && 0 <= j < self.nodes@.len() && i != j
                    && self.nodes@[i].node_type == self.nodes@[j].node_type implies #[trigger] self.nodes@[i].slot
                != #[trigger] self.nodes@[j].slot by {
                if i < id {
                    assert(old(self).slot_ok(i));
                }
                if j < id {
                    assert(old(self).slot_ok(j));
                }
            }
            assert forall|i: int| 0 <= i < id implies self.node_view(i) == old(self).node_view(i) by {
                assert(old(self).slot_ok(i));
                if self.nodes@[i].node_type == VNodeType::Dir {
                    assert(self.dirs@[self.nodes@[i].slot as int] == old(self).dirs@[self.nodes@[i].slot as int]);
                }
            }
            assert(self.spec_nodes() =~= old(self).spec_nodes().push(
                fresh_node(VNodeType::Dir, ContentView::Dir(Seq::empty())),
            ));
            assert forall|i: int|
                0 <= i < self.nodes@.len() && (#[trigger] self.nodes@[i]).node_type == VNodeType::Dir
                implies sorted_entries(entries_view(self.dirs@[self.nodes@[i].slot as int]@))
                && forall|k: int|
                0 <= k < self.dirs@[self.nodes@[i].slot as int]@.len() ==> (#[trigger] self.dirs@[self.nodes@[i].slot as int]@[k]).1
                    < self.nodes@.len() by {
                if i < id {
                    assert(old(self).slot_ok(i));
                    assert(self.dirs@[self.nodes@[i].slot as int] == old(self).dirs@[self.nodes@[i].slot as int]);
                }
            }
        }
        id
    }

    /// Adds a new empty file node; gives its id.
    fn add_file(&mut self) -> (id: usize)
        requires
            old(self).wf(),
        ensures
            final(self).wf(),
            id == old(self).spec_nodes().len(),
            final(self).spec_nodes() == old(self).spec_nodes().push(
                fresh_node(VNodeType::File, ContentView::File(Seq::empty())),
            ),
    {
        let slot = self.files.len();
        let id = self.nodes.len();
        self.files.push(Vec::new());
        self.nodes.push(NodeInfo { node_type: VNodeType::File, metadata: create_metadata(VNodeType::File, 0), slot });
        proof {
            assert forall|i: int| 0 <= i < self.nodes@.len() implies #[trigger] self.slot_ok(i) by {
                if i < id {
                    assert(old(self).slot_ok(i));
                }
            }
            assert forall|i: int, j: int|
                0 <= i < self.nodes@.len() && 0 <= j < self.nodes@.len() && i != j
                    && self.nodes@[i].node_type == self.nodes@[j].node_type implies #[trigger] self.nodes@[i].slot
                != #[trigger] self.nodes@[j].slot by {
                if i < id {
                    assert(old(self).slot_ok(i));
                }
                if j < id {
                    assert(old(self).slot_ok(j));
                }
            }
            assert forall|i: int| 0 <= i < id implies self.node_view(i) == old(self).node_view(i) by {
                assert(old(self).slot_ok(i));
                if self.nodes@[i].node_type == VNodeType::File {
                    assert(self.files@[self.nodes@[i].slot as int] == old(self).files@[self.nodes@[i].slot as int]);
                }
            }
            assert(self.spec_nodes() =~= old(self).spec_nodes().push(
                fresh_node(VNodeType::File, ContentView::File(Seq::empty())),
            ));
            assert forall|i: int|
                0 <= i < self.nodes@.len() && (#[trigger] self.nodes@[i]).node_type == VNodeType::Dir
                implies sorted_entries(entries_view(self.dirs@[self.nodes@[i].slot as int]@))
                && forall|k: int|
                0 <= k < self.dirs@[self.nodes@[i].slot as int]@.len() ==> (#[trigger] self.dirs@[self.nodes@[i].slot as int]@[k]).1
                    < self.nodes@.len() by {
                if i < id {
                    assert(old(self).slot_ok(i));
                    assert(self.dirs@[self.nodes@[i].slot as int] == old(self).dirs@[self.nodes@[i].slot as int]);
                } else {
                    assert(self.nodes@[i].node_type == VNodeType::File);
                }
            }
        }
        id
    }

    /// Adds a new symbolic link node to `target`; gives its id.
    fn add_link(&mut self, target: &str) -> (id: usize)
        requires
            old(self).wf(),
        ensures
            final(self).wf(),
            id == old(self).spec_nodes().len(),
            final(self).spec_nodes() == old(self).spec_nodes().push(
                link_node(target@, target.len() as u64),
            ),
    {
        let slot = self.links.len();
        let id = self.nodes.len();
        self.links.push(target.to_owned());
        self.nodes.push(NodeInfo { node_type: VNodeType::SymLink, metadata: create_metadata(VNodeType::SymLink, target.len() as u64), slot });
        proof {
            assert forall|i: int| 0 <= i < self.nodes@.len() implies #[trigger] self.slot_ok(i) by {
                if i < id {
                    assert(old(self).slot_ok(i));
                }
            }
            assert forall|i: int, j: int|
                0 <= i < self.nodes@.len() && 0 <= j < self.nodes@.len() && i != j
                    && self.nodes@[i].node_type == self.nodes@[j].node_type implies #[trigger] self.nodes@[i].slot
                != #[trigger] self.nodes@[j].slot by {
                if i < id {
                    assert(old(self).slot_ok(i));
                }
                if j < id {
                    assert(old(self).slot_ok(j));
                }
            }
            assert forall|i: int| 0 <= i < id implies self.node_view(i) == old(self).node_view(i) by {
                assert(old(self).slot_ok(i));
                if self.nodes@[i].node_type == VNodeType::SymLink {
                    assert(self.links@[self.nodes@[i].slot as int] == old(self).links@[self.nodes@[i].slot as int]);
                }
            }
            assert(self.spec_nodes() =~= old(self).spec_nodes().push(
                link_node(target@, target.len() as u64),
            ));
            assert forall|i: int|
                0 <= i < self.nodes@.len() && (#[trigger] self.nodes@[i]).node_type == VNodeType::Dir
                implies sorted_entries(entries_view(self.dirs@[self.nodes@[i].slot as int]@))
                && forall|k: int|
                0 <= k < self.dirs@[self.nodes@[i].slot as int]@.len() ==> (#[trigger] self.dirs@[self.nodes@[i].slot as int]@[k]).1
                    < self.nodes@.len() by {
                if i < id {
                    assert(old(self).slot_ok(i));
                    assert(self.dirs@[self.nodes@[i].slot as int] == old(self).dirs@[self.nodes@[i].slot as int]);
                } else {
                    assert(self.nodes@[i].node_type == VNodeType::SymLink);
                }
            }
        }
        id
    }

    /// Adds a new device node; gives its id.
    fn add_device(&mut self, device: D) -> (id: usize)
        requires
            old(self).wf(),
        ensures
            final(self).wf(),
            id == old(self).spec_nodes().len(),
            final(self).spec_nodes() == old(self).spec_nodes().push(
                fresh_node(VNodeType::Device, ContentView::Device),
            ),
    {
        let slot = self.devices.len();
        let id = self.nodes.len();
        self.devices.push(device);
        self.nodes.push(NodeInfo { node_type: VNodeType::Device, metadata: create_metadata(VNodeType::Device, 0), slot });
        proof {
            assert forall|i: int| 0 <= i < self.nodes@.len() implies #[trigger] self.slot_ok(i) by {
                if i < id {
                    assert(old(self).slot_ok(i));
                }
            }
            assert forall|i: int, j: int|
                0 <= i < self.nodes@.len() && 0 <= j < self.nodes@.len() && i != j
                    && self.nodes@[i].node_type == self.nodes@[j].node_type implies #[trigger] self.nodes@[i].slot
                != #[trigger] self.nodes@[j].slot by {
                if i < id {
                    assert(old(self).slot_ok(i));
                }
                if j < id {
                    assert(old(self).slot_ok(j));
                }
            }
            assert forall|i: int| 0 <= i < id implies self.node_view(i) == old(self).node_view(i) by {
                assert(old(self).slot_ok(i));
                if self.nodes@[i].node_type == VNodeType::Device {
                    assert(self.devices@[self.nodes@[i].slot as int] == old(self).devices@[self.nodes@[i].slot as int]);
                }
            }
            assert(self.spec_nodes() =~= old(self).spec_nodes().push(
                fresh_node(VNodeType::Device, ContentView::Device),
            ));
            assert forall|i: int|
                0 <= i < self.nodes@.len() && (#[trigger] self.nodes@[i]).node_type == VNodeType::Dir
                implies sorted_entries(entries_view(self.dirs@[self.nodes@[i].slot as int]@))
                && forall|k: int|
                0 <= k < self.dirs@[self.nodes@[i].slot as int]@.len() ==> (#[trigger] self.dirs@[self.nodes@[i].slot as int]@[k]).1
                    < self.nodes@.len() by {
                if i < id {
                    assert(old(self).slot_ok(i));
                    assert(self.dirs@[self.nodes@[i].slot as int] == old(self).dirs@[self.nodes@[i].slot as int]);
                } else {
                    assert(self.nodes@[i].node_type == VNodeType::Device);
                }
            }
        }
        id
    }

    /// A new root directory for this file system.
    pub fn mount(&mut self) -> (root: MemVNode)
        requires
            old(self).wf(),
        ensures
            final(self).wf(),
            root.id == old(self).spec_nodes().len(),
            final(self).spec_nodes() == old(self).spec_nodes().push(
                fresh_node(VNodeType::Dir, ContentView::Dir(Seq::empty())),
            ),
    {
        let id = self.add_dir();
        MemVNode { id }
    }
}


impl<D> MemFs<D> {
    /// Only the directory store at one slot changed: every node not owning
    /// that slot looks the same.
    proof fn lemma_frame_dir(a: &Self, b: &Self, id: int)
        requires
            a.wf(),
            0 <= id < a.nodes@.len(),
            a.nodes@[id].node_type == VNodeType::Dir,
            b.nodes@ == a.nodes@,
            b.files@ == a.files@,
            b.links@ == a.links@,
            b.devices@.len() == a.devices@.len(),
            b.dirs@.len() == a.dirs@.len(),
            forall|k: int| 0 <= k < a.dirs@.len() && k != a.nodes@[id].slot ==> b.dirs@[k] == a.dirs@[k],
        ensures
            forall|i: int| 0 <= i < a.nodes@.len() && i != id ==> b.node_view(i) == a.node_view(i),
            forall|i: int| 0 <= i < b.nodes@.len() ==> #[trigger] b.slot_ok(i),
    {
        assert forall|i: int| 0 <= i < a.nodes@.len() && i != id implies b.node_view(i) == a.node_view(i) by {
            assert(a.slot_ok(i));
            if a.nodes@[i].node_type == VNodeType::Dir {
                assert(a.nodes@[i].slot != a.nodes@[id].slot);
            }
        }
        assert forall|i: int| 0 <= i < b.nodes@.len() implies #[trigger] b.slot_ok(i) by {
            assert(a.slot_ok(i));
        }
    }

    /// Only the file store at one slot changed.
    proof fn lemma_frame_file(a: &Self, b: &Self, id: int)
        requires
            a.wf(),
            0 <= id < a.nodes@.len(),
            a.nodes@[id].node_type == VNodeType::File,
            b.nodes@.len() == a.nodes@.len(),
            forall|k: int| 0 <= k < a.nodes@.len() && k != id ==> b.nodes@[k] == a.nodes@[k],
            b.nodes@[id].node_type == VNodeType::File,
            b.nodes@[id].slot == a.nodes@[id].slot,
            b.dirs@ == a.dirs@,
            b.links@ == a.links@,
            b.devices@.len() == a.devices@.len(),
            b.files@.len() == a.files@.len(),
            forall|k: int| 0 <= k < a.files@.len() && k != a.nodes@[id].slot ==> b.files@[k] == a.files@[k],
        ensures
            forall|i: int| 0 <= i < a.nodes@.len() && i != id ==> b.node_view(i) == a.node_view(i),
            b.wf(),
    {
        assert forall|i: int| 0 <= i < a.nodes@.len() && i != id implies b.node_view(i) == a.node_view(i) by {
            assert(a.slot_ok(i));
            if a.nodes@[i].node_type == VNodeType::File {
                assert(a.nodes@[i].slot != a.nodes@[id].slot);
            }
        }
        assert forall|i: int| 0 <= i < b.nodes@.len() implies #[trigger] b.slot_ok(i) by {
            assert(a.slot_ok(i));
        }
        assert forall|i: int, j: int|
            0 <= i < b.nodes@.len() && 0 <= j < b.nodes@.len() && i != j
                && b.nodes@[i].node_type == b.nodes@[j].node_type implies #[trigger] b.nodes@[i].slot
            != #[trigger] b.nodes@[j].slot by {
            assert(a.nodes@[i].slot != a.nodes@[j].slot);
        }
        assert forall|i: int|
            0 <= i < b.nodes@.len() && (#[trigger] b.nodes@[i]).node_type == VNodeType::Dir implies sorted_entries(
            entries_view(b.dirs@[b.nodes@[i].slot as int]@),
        ) && forall|k: int|
            0 <= k < b.dirs@[b.nodes@[i].slot as int]@.len() ==> (#[trigger] b.dirs@[b.nodes@[i].slot as int]@[k]).1
                < b.nodes@.len() by {
            assert(a.nodes@[i] == b.nodes@[i]);
        }
    }

    /// The position of the entry named `name` in a directory's store, searching from the end.
    fn find_entry(&self, slot: usize, name: &str) -> (r: Option<usize>)
        requires
            slot < self.dirs@.len(),
        ensures
            r matches Some(k) ==> k == entry_index(entries_view(self.dirs@[slot as int]@), name@),
            r is None ==> entry_index(entries_view(self.dirs@[slot as int]@), name@) == -1,
    {
        find_in(&self.dirs[slot], name)
    }

    /// Where an entry named `name` goes in a directory's store.
    fn insert_position(&self, slot: usize, name: &str) -> (r: usize)
        requires
            slot < self.dirs@.len(),
            sorted_entries(entries_view(self.dirs@[slot as int]@)),
        ensures
            r == insert_pos(entries_view(self.dirs@[slot as int]@), name@),
    {
        insert_position_in(&self.dirs[slot], name)
    }

    /// Adds an entry to a directory node.
    fn dir_insert(&mut self, id: usize, name: &str, child: usize)
        requires
            old(self).wf(),
            id < old(self).spec_nodes().len(),
            child < old(self).spec_nodes().len(),
            is_dir(old(self).spec_nodes()[id as int]),
            entry_index(dir_entries(old(self).spec_nodes()[id as int]), name@) == -1,
        ensures
            final(self).wf(),
            final(self).spec_nodes() == old(self).spec_nodes().update(
                id as int,
                with_entries(
                    old(self).spec_nodes()[id as int],
                    insert_entry(dir_entries(old(self).spec_nodes()[id as int]), name@, child),
                ),
            ),
    {
        let slot = self.nodes[id].slot;
        proof {
            assert(self.slot_ok(id as int));
            assert(old(self).spec_nodes()[id as int] == old(self).node_view(id as int));
        }
        let pos = self.insert_position(slot, name);
        let ghost e = self.dirs@[slot as int]@;
        proof {
            lemma_insert_pos(entries_view(e), name@);
            lemma_insert_sorted(entries_view(e), name@, child);
        }
        let owned = name.to_owned();
        self.dirs[slot].insert(pos, (owned, child));
        proof {
            assert(entries_view(self.dirs@[slot as int]@) =~= insert_entry(entries_view(e), name@, child));
            Self::lemma_frame_dir(old(self), self, id as int);
            assert(self.spec_nodes() =~= old(self).spec_nodes().update(
                id as int,
                with_entries(
                    old(self).spec_nodes()[id as int],
                    insert_entry(dir_entries(old(self).spec_nodes()[id as int]), name@, child),
                ),
            ));
            assert forall|i: int|
                0 <= i < self.nodes@.len() && (#[trigger] self.nodes@[i]).node_type == VNodeType::Dir
                implies sorted_entries(entries_view(self.dirs@[self.nodes@[i].slot as int]@))
                && forall|k: int|
                0 <= k < self.dirs@[self.nodes@[i].slot as int]@.len() ==> (#[trigger] self.dirs@[self.nodes@[i].slot as int]@[k]).1
                    < self.nodes@.len() by {
                if i != id as int {
                    assert(self.nodes@[i].slot != slot);
                    assert(old(self).slot_ok(i));
                    assert(self.dirs@[self.nodes@[i].slot as int] == old(self).dirs@[self.nodes@[i].slot as int]);
                } else {
                    assert forall|k: int| 0 <= k < self.dirs@[slot as int]@.len() implies (#[trigger] self.dirs@[slot as int]@[k]).1
                        < self.nodes@.len() by {
                        let p = insert_pos(entries_view(e), name@);
                        if k < p {
                            assert(self.dirs@[slot as int]@[k] == e[k]);
                        } else if k > p {
                            assert(self.dirs@[slot as int]@[k] == e[k - 1]);
                        }
                    }
                }
            }
        }
    }

    /// Removes the entry at position `k` of a directory node.
    fn dir_remove(&mut self, id: usize, k: usize)
        requires
            old(self).wf(),
            id < old(self).spec_nodes().len(),
            is_dir(old(self).spec_nodes()[id as int]),
            k < dir_entries(old(self).spec_nodes()[id as int]).len(),
        ensures
            final(self).wf(),
            final(self).spec_nodes() == old(self).spec_nodes().update(
                id as int,
                with_entries(
                    old(self).spec_nodes()[id as int],
                    dir_entries(old(self).spec_nodes()[id as int]).remove(k as int),
                ),
            ),
    {
        let slot = self.nodes[id].slot;
        proof {
            assert(self.slot_ok(id as int));
            assert(old(self).spec_nodes()[id as int] == old(self).node_view(id as int));
        }
        let ghost e = self.dirs@[slot as int]@;
        proof {
            lemma_remove_sorted(entries_view(e), k as int);
        }
        self.dirs[slot].remove(k);
        proof {
            assert(entries_view(self.dirs@[slot as int]@) =~= entries_view(e).remove(k as int));
            Self::lemma_frame_dir(old(self), self, id as int);
            assert(self.spec_nodes() =~= old(self).spec_nodes().update(
                id as int,
                with_entries(
                    old(self).spec_nodes()[id as int],
                    dir_entries(old(self).spec_nodes()[id as int]).remove(k as int),
                ),
            ));
            assert forall|i: int|
                0 <= i < self.nodes@.len() && (#[trigger] self.nodes@[i]).node_type == VNodeType::Dir
                implies sorted_entries(entries_view(self.dirs@[self.nodes@[i].slot as int]@))
                && forall|j: int|
                0 <= j < self.dirs@[self.nodes@[i].slot as int]@.len() ==> (#[trigger] self.dirs@[self.nodes@[i].slot as int]@[j]).1
                    < self.nodes@.len() by {
                if i != id as int {
                    assert(self.nodes@[i].slot != slot);
                    assert(old(self).slot_ok(i));
                    assert(self.dirs@[self.nodes@[i].slot as int] == old(self).dirs@[self.nodes@[i].slot as int]);
                } else {
                    assert forall|j: int| 0 <= j < self.dirs@[slot as int]@.len() implies (#[trigger] self.dirs@[slot as int]@[j]).1
                        < self.nodes@.len() by {
                        if j < k {
                            assert(self.dirs@[slot as int]@[j] == e[j]);
                        } else {
                            assert(self.dirs@[slot as int]@[j] == e[j + 1]);
                        }
                    }
                }
            }
        }
    }
}


/// What `lookup` answers for a name in a node.
pub open spec fn lookup_result(v: NodeView, name: Seq<char>) -> Result<MemVNode, VfsError> {
    if !is_dir(v) {
        Err(VfsError::NotADirectory)
    } else {
        let k = entry_index(dir_entries(v), name);
        if k >= 0 {
            Ok(MemVNode { id: dir_entries(v)[k].1 })
        } else {
            Err(VfsError::NotFound)
        }
    }
}

/// Why adding an entry named `name` to a node fails, if it does.
pub open spec fn add_error(v: NodeView, name: Seq<char>) -> Option<VfsError> {
    if !is_dir(v) {
        Some(VfsError::NotADirectory)
    } else if entry_index(dir_entries(v), name) >= 0 {
        Some(VfsError::AlreadyExists)
    } else {
        None
    }
}

/// The nodes after adding `node` as a new entry `name` of directory `d`.
pub open spec fn with_new_child(nodes: Seq<NodeView>, d: int, name: Seq<char>, node: NodeView) -> Seq<NodeView> {
    nodes.update(
        d,
        with_entries(nodes[d], insert_entry(dir_entries(nodes[d]), name, nodes.len() as usize)),
    ).push(node)
}

impl MemVNode {
    /// The type of the node.
    pub fn node_type<D>(&self, fs: &MemFs<D>) -> (t: VNodeType)
        requires
            fs.wf(),
            valid_node(fs.spec_nodes(), *self),
        ensures
            t == fs.spec_nodes()[self.id as int].node_type,
    {
        proof {
            assert(fs.spec_nodes()[self.id as int] == fs.node_view(self.id as int));
        }
        fs.nodes[self.id].node_type
    }

    /// The node's metadata.
    pub fn metadata<D>(&self, fs: &MemFs<D>) -> (r: Result<Metadata, VfsError>)
        requires
            fs.wf(),
            valid_node(fs.spec_nodes(), *self),
        ensures
            r == Ok::<Metadata, VfsError>(fs.spec_nodes()[self.id as int].metadata),
    {
        proof {
            assert(fs.spec_nodes()[self.id as int] == fs.node_view(self.id as int));
        }
        Ok(fs.nodes[self.id].metadata)
    }

    /// Replaces the node's metadata.
    pub fn set_metadata<D>(&self, fs: &mut MemFs<D>, metadata: &Metadata) -> (r: Result<(), VfsError>)
        requires
            old(fs).wf(),
            valid_node(old(fs).spec_nodes(), *self),
        ensures
            final(fs).wf(),
            r is Ok,
            final(fs).spec_nodes() == old(fs).spec_nodes().update(
                self.id as int,
                NodeView { metadata: *metadata, ..old(fs).spec_nodes()[self.id as int] },
            ),
    {
        let mut info = fs.nodes[self.id];
        info.metadata = *metadata;
        fs.nodes.set(self.id, info);
        proof {
            assert forall|i: int| 0 <= i < fs.nodes@.len() implies #[trigger] fs.slot_ok(i) by {
                assert(old(fs).slot_ok(i));
            }
            assert forall|i: int, j: int|
                0 <= i < fs.nodes@.len() && 0 <= j < fs.nodes@.len() && i != j
                    && fs.nodes@[i].node_type == fs.nodes@[j].node_type implies #[trigger] fs.nodes@[i].slot
                != #[trigger] fs.nodes@[j].slot by {
                assert(old(fs).nodes@[i].slot != old(fs).nodes@[j].slot);
            }
            assert forall|i: int|
                0 <= i < fs.nodes@.len() && (#[trigger] fs.nodes@[i]).node_type == VNodeType::Dir
                implies sorted_entries(entries_view(fs.dirs@[fs.nodes@[i].slot as int]@))
                && forall|k: int|
                0 <= k < fs.dirs@[fs.nodes@[i].slot as int]@.len() ==> (#[trigger] fs.dirs@[fs.nodes@[i].slot as int]@[k]).1
                    < fs.nodes@.len() by {
                assert(old(fs).nodes@[i].slot == fs.nodes@[i].slot);
                assert(old(fs).nodes@[i].node_type == fs.nodes@[i].node_type);
            }
            assert(fs.spec_nodes() =~= old(fs).spec_nodes().update(
                self.id as int,
                NodeView { metadata: *metadata, ..old(fs).spec_nodes()[self.id as int] },
            ));
        }
        Ok(())
    }

    /// Nothing to write back for a node in memory.
    pub fn sync(&self) -> (r: Result<(), VfsError>)
        ensures
            r is Ok,
    {
        Ok(())
    }

    /// The node that the entry `name` of this directory names.
    pub fn lookup<D>(&self, fs: &MemFs<D>, name: &str) -> (r: Result<MemVNode, VfsError>)
        requires
            fs.wf(),
            valid_node(fs.spec_nodes(), *self),
        ensures
            r == lookup_result(fs.spec_nodes()[self.id as int], name@),
            r matches Ok(n) ==> valid_node(fs.spec_nodes(), n),
    {
        let info = fs.nodes[self.id];
        proof {
            assert(fs.spec_nodes()[self.id as int] == fs.node_view(self.id as int));
            assert(fs.slot_ok(self.id as int));
        }
        if info.node_type != VNodeType::Dir {
            return Err(VfsError::NotADirectory);
        }
        match fs.find_entry(info.slot, name) {
            Some(k) => {
                proof {
                    lemma_entry_index(entries_view(fs.dirs@[info.slot as int]@), name@);
                    assert(entries_view(fs.dirs@[info.slot as int]@)[k as int].1 == fs.dirs@[info.slot as int]@[k as int].1);
                }
                Ok(MemVNode { id: fs.dirs[info.slot][k].1 })
            },
            None => Err(VfsError::NotFound),
        }
    }

    /// The names in this directory, in order.
    pub fn list<D>(&self, fs: &MemFs<D>) -> (r: Result<Vec<String>, VfsError>)
        requires
            fs.wf(),
            valid_node(fs.spec_nodes(), *self),
        ensures
            !is_dir(fs.spec_nodes()[self.id as int]) ==> r == Err::<Vec<String>, VfsError>(
                VfsError::NotADirectory,
            ),
            is_dir(fs.spec_nodes()[self.id as int]) ==> (r matches Ok(names) && names@.len()
                == dir_entries(fs.spec_nodes()[self.id as int]).len() && forall|k: int|
                0 <= k < names@.len() ==> (#[trigger] names@[k])@ == dir_entries(
                    fs.spec_nodes()[self.id as int],
                )[k].0),
    {
        let info = fs.nodes[self.id];
        proof {
            assert(fs.spec_nodes()[self.id as int] == fs.node_view(self.id as int));
            assert(fs.slot_ok(self.id as int));
        }
        if info.node_type != VNodeType::Dir {
            return Err(VfsError::NotADirectory);
        }
        let ghost e = entries_view(fs.dirs@[info.slot as int]@);
        let n = fs.dirs[info.slot].len();
        let mut names: Vec<String> = Vec::new();
        let mut i: usize = 0;
        while i < n
            invariant
                info.slot < fs.dirs@.len(),
                e == entries_view(fs.dirs@[info.slot as int]@),
                n == e.len(),
                i <= n,
                names@.len() == i,
                forall|k: int| 0 <= k < i ==> (#[trigger] names@[k])@ == e[k].0,
            decreases n - i,
        {
            let name = fs.dirs[info.slot][i].0.clone();
            proof {
                assert(e[i as int].0 == fs.dirs@[info.slot as int]@[i as int].0@);
            }
            names.push(name);
            i = i + 1;
        }
        Ok(names)
    }

    /// The target of this symbolic link.
    pub fn read_symlink<D>(&self, fs: &MemFs<D>) -> (r: Result<String, VfsError>)
        requires
            fs.wf(),
            valid_node(fs.spec_nodes(), *self),
        ensures
            match fs.spec_nodes()[self.id as int].content {
                ContentView::SymLink(t) => r matches Ok(s) && s@ == t,
                _ => r == Err::<String, VfsError>(VfsError::NotAFile),
            },
    {
        let info = fs.nodes[self.id];
        proof {
            assert(fs.spec_nodes()[self.id as int] == fs.node_view(self.id as int));
            assert(fs.slot_ok(self.id as int));
        }
        if info.node_type != VNodeType::SymLink {
            return Err(VfsError::NotAFile);
        }
        Ok(fs.links[info.slot].clone())
    }

    /// Checks that an entry `name` can be added to this directory.
    fn check_new_entry<D>(&self, fs: &MemFs<D>, name: &str) -> (r: Option<VfsError>)
        requires
            fs.wf(),
            valid_node(fs.spec_nodes(), *self),
        ensures
            r == add_error(fs.spec_nodes()[self.id as int], name@),
    {
        let info = fs.nodes[self.id];
        proof {
            assert(fs.spec_nodes()[self.id as int] == fs.node_view(self.id as int));
            assert(fs.slot_ok(self.id as int));
        }
        if info.node_type != VNodeType::Dir {
            return Some(VfsError::NotADirectory);
        }
        match fs.find_entry(info.slot, name) {
            Some(_) => Some(VfsError::AlreadyExists),
            None => None,
        }
    }

    /// Adds a new empty file or directory named `name` to this directory;
    /// other types cannot be made this way.
    pub fn create<D>(&self, fs: &mut MemFs<D>, name: &str, typ: VNodeType) -> (r: Result<MemVNode, VfsError>)
        requires
            old(fs).wf(),
            valid_node(old(fs).spec_nodes(), *self),
        ensures
            final(fs).wf(),
            ({
                let old_nodes = old(fs).spec_nodes();
                match add_error(old_nodes[self.id as int], name@) {
                    Some(e) => r == Err::<MemVNode, VfsError>(e) && final(fs).spec_nodes() == old_nodes,
                    None => if typ == VNodeType::File {
                        r == Ok::<MemVNode, VfsError>(MemVNode { id: old_nodes.len() as usize })
                            && final(fs).spec_nodes() == with_new_child(
                            old_nodes,
                            self.id as int,
                            name@,
                            fresh_node(VNodeType::File, ContentView::File(Seq::empty())),
                        )
                    } else if typ == VNodeType::Dir {
                        r == Ok::<MemVNode, VfsError>(MemVNode { id: old_nodes.len() as usize })
                            && final(fs).spec_nodes() == with_new_child(
                            old_nodes,
                            self.id as int,
                            name@,
                            fresh_node(VNodeType::Dir, ContentView::Dir(Seq::empty())),
                        )
                    } else {
                        r == Err::<MemVNode, VfsError>(VfsError::NotImplemented)
                            && final(fs).spec_nodes() == old_nodes
                    },
                }
            }),
    {
        match self.check_new_entry(fs, name) {
            Some(e) => return Err(e),
            None => {},
        }
        let id = match typ {
            VNodeType::File => fs.add_file(),
            VNodeType::Dir => fs.add_dir(),
            _ => return Err(VfsError::NotImplemented),
        };
        proof {
            assert(fs.spec_nodes()[self.id as int] == old(fs).spec_nodes()[self.id as int]);
            lemma_entry_index(dir_entries(old(fs).spec_nodes()[self.id as int]), name@);
        }
        fs.dir_insert(self.id, name, id);
        proof {
            let old_nodes = old(fs).spec_nodes();
            assert(fs.spec_nodes() =~= with_new_child(old_nodes, self.id as int, name@, fs.spec_nodes()[id as int]));
        }
        Ok(MemVNode { id })
    }

    /// Adds a symbolic link named `name` to `target` to this directory.
    pub fn create_symlink<D>(&self, fs: &mut MemFs<D>, name: &str, target: &str) -> (r: Result<MemVNode, VfsError>)
        requires
            old(fs).wf(),
            valid_node(old(fs).spec_nodes(), *self),
        ensures
            final(fs).wf(),
            ({
                let old_nodes = old(fs).spec_nodes();
                match add_error(old_nodes[self.id as int], name@) {
                    Some(e) => r == Err::<MemVNode, VfsError>(e) && final(fs).spec_nodes() == old_nodes,
                    None => r == Ok::<MemVNode, VfsError>(MemVNode { id: old_nodes.len() as usize })
                        && final(fs).spec_nodes() == with_new_child(
                        old_nodes,
                        self.id as int,
                        name@,
                        link_node(target@, target.len() as u64),
                    ),
                }
            }),
    {
        match self.check_new_entry(fs, name) {
            Some(e) => return Err(e),
            None => {},
        }
        let id = fs.add_link(target);
        proof {
            assert(fs.spec_nodes()[self.id as int] == old(fs).spec_nodes()[self.id as int]);
            lemma_entry_index(dir_entries(old(fs).spec_nodes()[self.id as int]), name@);
        }
        fs.dir_insert(self.id, name, id);
        proof {
            let old_nodes = old(fs).spec_nodes();
            assert(fs.spec_nodes() =~= with_new_child(old_nodes, self.id as int, name@, fs.spec_nodes()[id as int]));
        }
        Ok(MemVNode { id })
    }

    /// Adds a device node named `name` to this directory.
    pub fn create_device<D>(&self, fs: &mut MemFs<D>, name: &str, device: D) -> (r: Result<MemVNode, VfsError>)
        requires
            old(fs).wf(),
            valid_node(old(fs).spec_nodes(), *self),
        ensures
            final(fs).wf(),
            ({
                let old_nodes = old(fs).spec_nodes();
                match add_error(old_nodes[self.id as int], name@) {
                    Some(e) => r == Err::<MemVNode, VfsError>(e) && final(fs).spec_nodes() == old_nodes,
                    None => r == Ok::<MemVNode, VfsError>(MemVNode { id: old_nodes.len() as usize })
                        && final(fs).spec_nodes() == with_new_child(
                        old_nodes,
                        self.id as int,
                        name@,
                        fresh_node(VNodeType::Device, ContentView::Device),
                    ),
                }
            }),
    {
        match self.check_new_entry(fs, name) {
            Some(e) => return Err(e),
            None => {},
        }
        let id = fs.add_device(device);
        proof {
            assert(fs.spec_nodes()[self.id as int] == old(fs).spec_nodes()[self.id as int]);
            lemma_entry_index(dir_entries(old(fs).spec_nodes()[self.id as int]), name@);
        }
        fs.dir_insert(self.id, name, id);
        proof {
            let old_nodes = old(fs).spec_nodes();
            assert(fs.spec_nodes() =~= with_new_child(old_nodes, self.id as int, name@, fs.spec_nodes()[id as int]));
        }
        Ok(MemVNode { id })
    }
}


/// What unlinking `name` from a node does: an error, or the directory's new entries.
pub open spec fn unlink_result(nodes: Seq<NodeView>, d: int, name: Seq<char>) -> Result<Seq<(Seq<char>, usize)>, VfsError> {
    let v = nodes[d];
    if !is_dir(v) {
        Err(VfsError::NotADirectory)
    } else {
        let e = dir_entries(v);
        let k = entry_index(e, name);
        if k < 0 {
            Err(VfsError::NotFound)
        } else if is_dir(nodes[e[k].1 as int]) && dir_entries(nodes[e[k].1 as int]).len() > 0 {
            Err(VfsError::DirectoryNotEmpty)
        } else {
            Ok(e.remove(k))
        }
    }
}

/// Moving the entry `old_name` of directory `src` to the entry `new_name`
/// of directory `dst`: an error, or the nodes afterwards.
pub open spec fn move_result(
    nodes: Seq<NodeView>,
    src: int,
    dst: int,
    old_name: Seq<char>,
    new_name: Seq<char>,
) -> Result<Seq<NodeView>, VfsError> {
    if !is_dir(nodes[src]) || !is_dir(nodes[dst]) {
        Err(VfsError::NotADirectory)
    } else {
        let se = dir_entries(nodes[src]);
        let k = entry_index(se, old_name);
        if k < 0 {
            Err(VfsError::NotFound)
        } else if entry_index(dir_entries(nodes[dst]), new_name) >= 0 {
            Err(VfsError::AlreadyExists)
        } else {
            let n1 = nodes.update(src, with_entries(nodes[src], se.remove(k)));
            Ok(n1.update(dst, with_entries(n1[dst], insert_entry(dir_entries(n1[dst]), new_name, se[k].1))))
        }
    }
}

/// File data after writing `b` at `start`: grown with zeros to reach the
/// end of the write when it is shorter.
pub open spec fn written(d: Seq<u8>, start: int, b: Seq<u8>) -> Seq<u8> {
    let end = start + b.len();
    let grown = if end > d.len() { d + Seq::new((end - d.len()) as nat, |i: int| 0u8) } else { d };
    grown.subrange(0, start) + b + grown.subrange(end, grown.len() as int)
}

/// File data cut or grown with zeros to `size` bytes.
pub open spec fn truncated(d: Seq<u8>, size: int) -> Seq<u8> {
    if size <= d.len() {
        d.subrange(0, size)
    } else {
        d + Seq::new((size - d.len()) as nat, |i: int| 0u8)
    }
}

/// A file node with new data, and its size (and blocks) set to the data's length.
pub open spec fn with_data(v: NodeView, d: Seq<u8>) -> NodeView {
    NodeView {
        metadata: Metadata { size: d.len() as u64, blocks: blocks_for(d.len() as u64), ..v.metadata },
        content: ContentView::File(d),
        ..v
    }
}

impl MemVNode {
    /// Removes the entry `name` from this directory; a directory that still
    /// has entries cannot be removed.
    pub fn unlink<D>(&self, fs: &mut MemFs<D>, name: &str) -> (r: Result<(), VfsError>)
        requires
            old(fs).wf(),
            valid_node(old(fs).spec_nodes(), *self),
        ensures
            final(fs).wf(),
            match unlink_result(old(fs).spec_nodes(), self.id as int, name@) {
                Err(e) => r == Err::<(), VfsError>(e) && final(fs).spec_nodes() == old(fs).spec_nodes(),
                Ok(e) => r is Ok && final(fs).spec_nodes() == old(fs).spec_nodes().update(
                    self.id as int,
                    with_entries(old(fs).spec_nodes()[self.id as int], e),
                ),
            },
    {
        let info = fs.nodes[self.id];
        proof {
            assert(fs.spec_nodes()[self.id as int] == fs.node_view(self.id as int));
            assert(fs.slot_ok(self.id as int));
        }
        if info.node_type != VNodeType::Dir {
            return Err(VfsError::NotADirectory);
        }
        let k = match fs.find_entry(info.slot, name) {
            Some(k) => k,
            None => return Err(VfsError::NotFound),
        };
        proof {
            lemma_entry_index(entries_view(fs.dirs@[info.slot as int]@), name@);
            assert(entries_view(fs.dirs@[info.slot as int]@)[k as int].1 == fs.dirs@[info.slot as int]@[k as int].1);
        }
        let child = fs.dirs[info.slot][k].1;
        let cinfo = fs.nodes[child];
        proof {
            assert(fs.spec_nodes()[child as int] == fs.node_view(child as int));
            assert(fs.slot_ok(child as int));
        }
        if cinfo.node_type == VNodeType::Dir && fs.dirs[cinfo.slot].len() > 0 {
            return Err(VfsError::DirectoryNotEmpty);
        }
        fs.dir_remove(self.id, k);
        Ok(())
    }

    /// Moves the entry `old_name` of `source_parent` to the entry `new_name`
    /// of `target_parent` (which may be the same directory).
    pub fn move_node<D>(
        fs: &mut MemFs<D>,
        source_parent: &MemVNode,
        target_parent: &MemVNode,
        old_name: &str,
        new_name: &str,
    ) -> (r: Result<(), VfsError>)
        requires
            old(fs).wf(),
            valid_node(old(fs).spec_nodes(), *source_parent),
            valid_node(old(fs).spec_nodes(), *target_parent),
        ensures
            final(fs).wf(),
            match move_result(
                old(fs).spec_nodes(),
                source_parent.id as int,
                target_parent.id as int,
                old_name@,
                new_name@,
            ) {
                Err(e) => r == Err::<(), VfsError>(e) && final(fs).spec_nodes() == old(fs).spec_nodes(),
                Ok(nodes) => r is Ok && final(fs).spec_nodes() == nodes,
            },
    {
        let sinfo = fs.nodes[source_parent.id];
        let tinfo = fs.nodes[target_parent.id];
        proof {
            assert(fs.spec_nodes()[source_parent.id as int] == fs.node_view(source_parent.id as int));
            assert(fs.spec_nodes()[target_parent.id as int] == fs.node_view(target_parent.id as int));
            assert(fs.slot_ok(source_parent.id as int));
            assert(fs.slot_ok(target_parent.id as int));
        }
        if sinfo.node_type != VNodeType::Dir {
            return Err(VfsError::NotADirectory);
        }
        if tinfo.node_type != VNodeType::Dir {
            return Err(VfsError::NotADirectory);
        }
        let k = match fs.find_entry(sinfo.slot, old_name) {
            Some(k) => k,
            None => return Err(VfsError::NotFound),
        };
        match fs.find_entry(tinfo.slot, new_name) {
            Some(_) => return Err(VfsError::AlreadyExists),
            None => {},
        }
        let ghost nodes0 = fs.spec_nodes();
        let ghost se = dir_entries(nodes0[source_parent.id as int]);
        proof {
            lemma_entry_index(se, old_name@);
            lemma_entry_index(dir_entries(nodes0[target_parent.id as int]), new_name@);
            assert(se[k as int].1 == fs.dirs@[sinfo.slot as int]@[k as int].1);
        }
        let child = fs.dirs[sinfo.slot][k].1;
        fs.dir_remove(source_parent.id, k);
        proof {
            let n1 = fs.spec_nodes();
            let te = dir_entries(n1[target_parent.id as int]);
            assert forall|j: int| 0 <= j < te.len() implies (#[trigger] te[j]).0 != new_name@ by {
                if target_parent.id == source_parent.id {
                    if j < k {
                        assert(te[j] == se[j]);
                    } else {
                        assert(te[j] == se[j + 1]);
                    }
                }
            }
            lemma_entry_index(te, new_name@);
        }
        fs.dir_insert(target_parent.id, new_name, child);
        Ok(())
    }

    /// Renames the entry `old_name` of this directory to `new_name`.
    pub fn rename<D>(&self, fs: &mut MemFs<D>, old_name: &str, new_name: &str) -> (r: Result<(), VfsError>)
        requires
            old(fs).wf(),
            valid_node(old(fs).spec_nodes(), *self),
        ensures
            final(fs).wf(),
            match move_result(old(fs).spec_nodes(), self.id as int, self.id as int, old_name@, new_name@) {
                Err(e) => r == Err::<(), VfsError>(e) && final(fs).spec_nodes() == old(fs).spec_nodes(),
                Ok(nodes) => r is Ok && final(fs).spec_nodes() == nodes,
            },
    {
        Self::move_node(fs, self, self, old_name, new_name)
    }

    /// Moves the entry `old_name` of this directory to the entry `new_name`
    /// of `target_dir`.
    pub fn move_to<D>(&self, fs: &mut MemFs<D>, old_name: &str, target_dir: &MemVNode, new_name: &str) -> (r: Result<(), VfsError>)
        requires
            old(fs).wf(),
            valid_node(old(fs).spec_nodes(), *self),
            valid_node(old(fs).spec_nodes(), *target_dir),
        ensures
            final(fs).wf(),
            match move_result(old(fs).spec_nodes(), self.id as int, target_dir.id as int, old_name@, new_name@) {
                Err(e) => r == Err::<(), VfsError>(e) && final(fs).spec_nodes() == old(fs).spec_nodes(),
                Ok(nodes) => r is Ok && final(fs).spec_nodes() == nodes,
            },
    {
        Self::move_node(fs, self, target_dir, old_name, new_name)
    }
}


impl<D> MemFs<D> {
    /// Replaces a file's data, and sets its size and blocks to match.
    fn set_file_data(&mut self, id: usize, data: Vec<u8>)
        requires
            old(self).wf(),
            id < old(self).spec_nodes().len(),
            old(self).spec_nodes()[id as int].content is File,
        ensures
            final(self).wf(),
            final(self).spec_nodes() == old(self).spec_nodes().update(
                id as int,
                with_data(old(self).spec_nodes()[id as int], data@),
            ),
    {
        let mut info = self.nodes[id];
        proof {
            assert(old(self).spec_nodes()[id as int] == old(self).node_view(id as int));
            assert(self.slot_ok(id as int));
        }
        let new_size = data.len() as u64;
        self.files.set(info.slot, data);
        info.metadata.size = new_size;
        info.metadata.blocks = new_size / 512 + if new_size % 512 == 0 { 0 } else { 1 };
        self.nodes.set(id, info);
        proof {
            Self::lemma_frame_file(old(self), self, id as int);
            assert(self.spec_nodes() =~= old(self).spec_nodes().update(
                id as int,
                with_data(old(self).spec_nodes()[id as int], data@),
            ));
        }
    }

    /// A file's data, taken out (the file holds nothing until it is put back).
    fn file_data(&self, id: usize) -> (d: &Vec<u8>)
        requires
            self.wf(),
            id < self.spec_nodes().len(),
            self.spec_nodes()[id as int].content is File,
        ensures
            self.spec_nodes()[id as int].content == ContentView::File(d@),
    {
        proof {
            assert(self.spec_nodes()[id as int] == self.node_view(id as int));
            assert(self.slot_ok(id as int));
        }
        &self.files[self.nodes[id].slot]
    }
}

impl MemVNode {
    /// Reads from this file at `offset` into `buf`: as many bytes as both the
    /// file past `offset` and `buf` hold. A device node reads from its device.
    pub fn read_at<D: CharDevice>(&self, fs: &MemFs<D>, offset: u64, buf: &mut [u8]) -> (r: Result<usize, VfsError>)
        requires
            fs.wf(),
            valid_node(fs.spec_nodes(), *self),
        ensures
            match fs.spec_nodes()[self.id as int].content {
                ContentView::File(d) => {
                    let n = if offset >= d.len() {
                        0
                    } else if d.len() - offset < old(buf)@.len() {
                        d.len() - offset
                    } else {
                        old(buf)@.len() as int
                    };
                    &&& r == Ok::<usize, VfsError>(n as usize)
                    &&& final(buf)@ == (if n == 0 {
                        old(buf)@
                    } else {
                        d.subrange(offset as int, offset + n) + old(buf)@.skip(n)
                    })
                },
                ContentView::Device => r is Ok || r matches Err(VfsError::DeviceError(_)),
                _ => r == Err::<usize, VfsError>(VfsError::NotAFile) && final(buf)@ == old(buf)@,
            },
    {
        let info = fs.nodes[self.id];
        proof {
            assert(fs.spec_nodes()[self.id as int] == fs.node_view(self.id as int));
            assert(fs.slot_ok(self.id as int));
        }
        match info.node_type {
            VNodeType::File => {
                let data = fs.file_data(self.id);
                let data_len = data.len() as u64;
                if offset >= data_len {
                    return Ok(0);
                }
                let avail = data_len - offset;
                let n = if avail < buf.len() as u64 { avail as usize } else { buf.len() };
                let start = offset as usize;
                let dlen = data.len();
                let mut i: usize = 0;
                while i < n
                    invariant
                        n <= old(buf)@.len(),
                        dlen == data@.len(),
                        start + n <= dlen,
                        buf@.len() == old(buf)@.len(),
                        i <= n,
                        forall|k: int| 0 <= k < i ==> buf@[k] == data@[start + k],
                        forall|k: int| i <= k < buf@.len() ==> buf@[k] == old(buf)@[k],
                    decreases n - i,
                {
                    buf[i] = data[start + i];
                    i = i + 1;
                }
                proof {
                    if n > 0 {
                        assert(buf@ =~= data@.subrange(offset as int, offset + n) + old(buf)@.skip(n as int));
                    } else {
                        assert(buf@ =~= old(buf)@);
                    }
                }
                Ok(n)
            },
            VNodeType::Device => {
                match fs.devices[info.slot].read(buf) {
                    Ok(n) => Ok(n),
                    Err(e) => Err(VfsError::DeviceError(e)),
                }
            },
            _ => Err(VfsError::NotAFile),
        }
    }

    /// Writes `buf` into this file at `offset`, growing it with zeros as
    /// needed; the size follows the data. A device node writes to its device.
    pub fn write_at<D: CharDevice>(&self, fs: &mut MemFs<D>, offset: u64, buf: &[u8]) -> (r: Result<usize, VfsError>)
        requires
            old(fs).wf(),
            valid_node(old(fs).spec_nodes(), *self),
            offset + buf@.len() <= usize::MAX,
        ensures
            final(fs).wf(),
            match old(fs).spec_nodes()[self.id as int].content {
                ContentView::File(d) => r == Ok::<usize, VfsError>(buf@.len() as usize)
                    && final(fs).spec_nodes() == old(fs).spec_nodes().update(
                    self.id as int,
                    with_data(old(fs).spec_nodes()[self.id as int], written(d, offset as int, buf@)),
                ),
                ContentView::Device => (r is Ok || r matches Err(VfsError::DeviceError(_)))
                    && final(fs).spec_nodes() == old(fs).spec_nodes(),
                _ => r == Err::<usize, VfsError>(VfsError::NotAFile) && final(fs).spec_nodes() == old(fs).spec_nodes(),
            },
    {
        let info = fs.nodes[self.id];
        proof {
            assert(fs.spec_nodes()[self.id as int] == fs.node_view(self.id as int));
            assert(fs.slot_ok(self.id as int));
        }
        match info.node_type {
            VNodeType::File => {
                let start = offset as usize;
                let end = start + buf.len();
                let old_data = fs.file_data(self.id);
                let ghost d = old_data@;
                let old_len = old_data.len();
                let mut data: Vec<u8> = Vec::new();
                let total = if end > old_len { end } else { old_len };
                let mut i: usize = 0;
                while i < total
                    invariant
                        old_data@ == d,
                        old_len == d.len(),
                        start + buf@.len() == end,
                        total == (if end > old_len { end } else { old_len }),
                        i <= total,
                        data@ == written(d, start as int, buf@).take(i as int),
                        written(d, start as int, buf@).len() == total,
                    decreases total - i,
                {
                    let b = if start <= i && i < end {
                        buf[i - start]
                    } else if i < old_len {
                        old_data[i]
                    } else {
                        0
                    };
                    proof {
                        let w = written(d, start as int, buf@);
                        assert(w[i as int] == b);
                        assert(w.take(i as int + 1) =~= w.take(i as int).push(b));
                    }
                    data.push(b);
                    i = i + 1;
                }
                proof {
                    assert(data@ =~= written(d, start as int, buf@));
                }
                fs.set_file_data(self.id, data);
                Ok(buf.len())
            },
            VNodeType::Device => {
                match fs.devices[info.slot].write(buf) {
                    Ok(n) => Ok(n),
                    Err(e) => Err(VfsError::DeviceError(e)),
                }
            },
            _ => Err(VfsError::NotAFile),
        }
    }

    /// Cuts this file to `size` bytes, or grows it with zeros.
    pub fn truncate<D>(&self, fs: &mut MemFs<D>, size: u64) -> (r: Result<(), VfsError>)
        requires
            old(fs).wf(),
            valid_node(old(fs).spec_nodes(), *self),
            size <= usize::MAX,
        ensures
            final(fs).wf(),
            match old(fs).spec_nodes()[self.id as int].content {
                ContentView::File(d) => r is Ok && final(fs).spec_nodes() == old(fs).spec_nodes().update(
                    self.id as int,
                    with_data(old(fs).spec_nodes()[self.id as int], truncated(d, size as int)),
                ),
                _ => r == Err::<(), VfsError>(VfsError::NotImplemented) && final(fs).spec_nodes()
                    == old(fs).spec_nodes(),
            },
    {
        let info = fs.nodes[self.id];
        proof {
            assert(fs.spec_nodes()[self.id as int] == fs.node_view(self.id as int));
            assert(fs.slot_ok(self.id as int));
        }
        if info.node_type != VNodeType::File {
            return Err(VfsError::NotImplemented);
        }
        let old_data = fs.file_data(self.id);
        let ghost d = old_data@;
        let n = size as usize;
        let mut data: Vec<u8> = Vec::new();
        let mut i: usize = 0;
        while i < n
            invariant
                old_data@ == d,
                n == size,
                i <= n,
                data@ == truncated(d, n as int).take(i as int),
                truncated(d, n as int).len() == n,
            decreases n - i,
        {
            let b = if i < old_data.len() { old_data[i] } else { 0 };
            proof {
                let t = truncated(d, n as int);
                assert(t[i as int] == b);
                assert(t.take(i as int + 1) =~= t.take(i as int).push(b));
            }
            data.push(b);
            i = i + 1;
        }
        proof {
            assert(data@ =~= truncated(d, n as int));
        }
        fs.set_file_data(self.id, data);
        Ok(())
    }
}


/// Reading back what was just written gives the written bytes: the file is
/// long enough to hold them, and holds them where they were written.
pub proof fn lemma_read_after_write(d: Seq<u8>, offset: int, b: Seq<u8>)
    requires
        0 <= offset,
    ensures
        written(d, offset, b).len() >= offset + b.len(),
        written(d, offset, b).subrange(offset, offset + b.len()) == b,
        forall|k: int| 0 <= k < d.len() && !(offset <= k < offset + b.len()) ==> #[trigger] written(d, offset, b)[k] == d[k],
{
    let w = written(d, offset, b);
    assert(w.subrange(offset, offset + b.len()) =~= b);
}

/// An entry that was just added is found under its name.
pub proof fn lemma_lookup_after_create(e: Seq<(Seq<char>, usize)>, name: Seq<char>, id: usize)
    requires
        sorted_entries(e),
        entry_index(e, name) == -1,
    ensures
        entry_index(insert_entry(e, name, id), name) >= 0,
        insert_entry(e, name, id)[entry_index(insert_entry(e, name, id), name)] == (name, id),
{
    lemma_insert_pos(e, name);
    lemma_insert_sorted(e, name, id);
    let r = insert_entry(e, name, id);
    let p = insert_pos(e, name);
    assert(r[p] == (name, id));
    lemma_entry_index(r, name);
    let k = entry_index(r, name);
    if k != p {
        if k < p {
            lemma_name_lt_irreflexive(name);
            assert(name_lt(r[k].0, r[p].0));
        } else {
            lemma_name_lt_irreflexive(name);
            assert(name_lt(r[p].0, r[k].0));
        }
    }
}

/// After an entry is removed, its name is found no more.
pub proof fn lemma_lookup_after_remove(e: Seq<(Seq<char>, usize)>, name: Seq<char>)
    requires
        sorted_entries(e),
        entry_index(e, name) >= 0,
    ensures
        entry_index(remove_entry(e, name), name) == -1,
{
    lemma_entry_index(e, name);
    let k = entry_index(e, name);
    let r = e.remove(k);
    assert forall|j: int| 0 <= j < r.len() implies (#[trigger] r[j]).0 != name by {
        let j2 = if j < k { j } else { j + 1 };
        assert(r[j] == e[j2]);
        if e[j2].0 == name {
            lemma_name_lt_irreflexive(name);
            if j2 < k {
                assert(name_lt(e[j2].0, e[k].0));
            } else {
                assert(name_lt(e[k].0, e[j2].0));
            }
        }
    }
    lemma_entry_index(r, name);
}

/// Cutting or growing a file gives it exactly the asked size, and keeps the
/// bytes below it.
pub proof fn lemma_truncate_size(d: Seq<u8>, size: int)
    requires
        0 <= size,
    ensures
        truncated(d, size).len() == size,
        forall|k: int| 0 <= k < size && k < d.len() ==> #[trigger] truncated(d, size)[k] == d[k],
        forall|k: int| d.len() <= k < size ==> #[trigger] truncated(d, size)[k] == 0,
{
}

} // verus!
