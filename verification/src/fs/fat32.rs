//! A read-only FAT32 file system: the boot sector's parameters, directory
//! entries, cluster chains and reads of file data.

use vstd::prelude::*;
use vstd::utf8::{valid_utf8, decode_utf8};
use crate::drivers::ops::DeviceError;
use crate::fs::vfs::{Metadata, VNodeType, VfsError};
use crate::shell::is_space;
use crate::text::string_from_chars;

verus! {

/// Cluster numbers from this on end a chain.
pub const END_OF_CHAIN: u32 = 0x0FFF_FFF8;

/// Something that reads bytes at an offset (the disk holding the file system).
pub trait ByteDevice {
    /// Reads into `buf` starting at byte `offset`; gives the bytes read.
    fn read_at(&self, offset: u64, buf: &mut [u8]) -> Result<usize, DeviceError>;
}

/// The little-endian `u16` at `i`.
pub open spec fn le16(b: Seq<u8>, i: int) -> u16 {
    (b[i] + 256 * b[i + 1]) as u16
}

/// The little-endian `u32` at `i`.
pub open spec fn le32(b: Seq<u8>, i: int) -> u32 {
    (b[i] + 256 * b[i + 1] + 65536 * b[i + 2] + 16777216 * b[i + 3]) as u32
}

fn read_le16(b: &[u8], i: usize) -> (v: u16)
    requires
        i + 2 <= b@.len(),
    ensures
        v == le16(b@, i as int),
{
    b[i] as u16 + 256 * b[i + 1] as u16
}

fn read_le32(b: &[u8], i: usize) -> (v: u32)
    requires
        i + 4 <= b@.len(),
    ensures
        v == le32(b@, i as int),
{
    b[i] as u32 + 256 * b[i + 1] as u32 + 65536 * b[i + 2] as u32 + 16777216 * b[i + 3] as u32
}

/// The parameters of a FAT32 boot sector that the file system uses.
#[derive(Debug, Clone, Copy, PartialEq, Eq, Structural)]
pub struct BiosParameterBlock {
    pub bytes_per_sector: u16,
    pub sectors_per_cluster: u8,
    pub reserved_sectors: u16,
    pub fats: u8,
    pub root_entries: u16,
    pub total_sectors_16: u16,
    pub media: u8,
    pub fat_size_16: u16,
    pub sectors_per_track: u16,
    pub heads: u16,
    pub hidden_sectors: u32,
    pub total_sectors_32: u32,
    pub fat_size_32: u32,
    pub ext_flags: u16,
    pub fs_version: u16,
    pub root_cluster: u32,
    pub fs_info: u16,
    pub backup_boot: u16,
}

/// The boot sector parameters at their offsets.
pub open spec fn bpb_of(b: Seq<u8>) -> BiosParameterBlock {
    BiosParameterBlock {
        bytes_per_sector: le16(b, 11),
        sectors_per_cluster: b[13],
        reserved_sectors: le16(b, 14),
        fats: b[16],
        root_entries: le16(b, 17),
        total_sectors_16: le16(b, 19),
        media: b[21],
        fat_size_16: le16(b, 22),
        sectors_per_track: le16(b, 24),
        heads: le16(b, 26),
        hidden_sectors: le32(b, 28),
        total_sectors_32: le32(b, 32),
        fat_size_32: le32(b, 36),
        ext_flags: le16(b, 40),
        fs_version: le16(b, 42),
        root_cluster: le32(b, 44),
        fs_info: le16(b, 48),
        backup_boot: le16(b, 50),
    }
}

impl BiosParameterBlock {
    /// Reads the parameters from the first bytes of a boot sector.
    pub fn parse(b: &[u8]) -> (p: Self)
        requires
            b@.len() >= 64,
        ensures
            p == bpb_of(b@),
    {
        BiosParameterBlock {
            bytes_per_sector: read_le16(b, 11),
            sectors_per_cluster: b[13],
            reserved_sectors: read_le16(b, 14),
            fats: b[16],
            root_entries: read_le16(b, 17),
            total_sectors_16: read_le16(b, 19),
            media: b[21],
            fat_size_16: read_le16(b, 22),
            sectors_per_track: read_le16(b, 24),
            heads: read_le16(b, 26),
            hidden_sectors: read_le32(b, 28),
            total_sectors_32: read_le32(b, 32),
            fat_size_32: read_le32(b, 36),
            ext_flags: read_le16(b, 40),
            fs_version: read_le16(b, 42),
            root_cluster: read_le32(b, 44),
            fs_info: read_le16(b, 48),
            backup_boot: read_le16(b, 50),
        }
    }
}

/// A 32-byte directory entry.
#[derive(Debug, Clone, Copy)]
pub struct DirEntry {
    pub name: [u8; 11],
    pub attr: u8,
    pub cluster_hi: u16,
    pub cluster_lo: u16,
    pub size: u32,
}

impl DirEntry {
    /// Reads the entry at `at`.
    pub fn parse(b: &[u8], at: usize) -> (e: Self)
        requires
            at + 32 <= b@.len(),
        ensures
            e.name@ == b@.subrange(at as int, at + 11),
            e.attr == b@[at + 11],
            e.cluster_hi == le16(b@, at + 20),
            e.cluster_lo == le16(b@, at + 26),
            e.size == le32(b@, at + 28),
    {
        let len = b.len();
        let mut name = [0u8; 11];
        let mut i: usize = 0;
        while i < 11
            invariant
                at + 32 <= b@.len(),
                len == b@.len(),
                i <= 11,
                name@.len() == 11,
                forall|k: int| 0 <= k < i ==> name@[k] == b@[at + k],
            decreases 11 - i,
        {
            name[i] = b[at + i];
            i = i + 1;
        }
        proof {
            assert(name@ =~= b@.subrange(at as int, at + 11));
        }
        DirEntry {
            name,
            attr: b[at + 11],
            cluster_hi: read_le16(b, at + 20),
            cluster_lo: read_le16(b, at + 26),
            size: read_le32(b, at + 28),
        }
    }

    /// A free slot: its name starts with 0 (end of directory) or 0xE5 (deleted).
    pub fn is_unused(&self) -> (b: bool)
        ensures
            b == (self.name@[0] == 0 || self.name@[0] == 0xE5),
    {
        self.name[0] == 0x00 || self.name[0] == 0xE5
    }

    /// Whether the directory attribute (0x10) is set.
    pub fn is_dir(&self) -> (b: bool)
        ensures
            b == ((self.attr / 16) % 2 == 1),
    {
        let a = self.attr;
        let b = a & 0x10 != 0;
        assert((a & 0x10u8 != 0) == ((a / 16) % 2 == 1)) by (bit_vector);
        b
    }

    /// The first cluster: high half and low half together.
    pub fn first_cluster(&self) -> (c: u32)
        ensures
            c == self.cluster_hi * 0x10000 + self.cluster_lo,
    {
        let hi = self.cluster_hi as u32;
        let lo = self.cluster_lo as u32;
        let c = (hi << 16) | lo;
        assert(c == hi * 0x10000 + lo) by (bit_vector)
            requires
                c == (hi << 16) | lo,
                hi < 0x10000,
                lo < 0x10000,
        ;
        c
    }

    /// The entry's name: base and extension with surrounding white space
    /// cut, joined by a dot when the extension is not empty. `None` when a
    /// part is not UTF-8.
    pub fn filename(&self) -> (r: Option<String>)
        ensures
            !valid_utf8(self.name@.subrange(0, 8)) || !valid_utf8(self.name@.subrange(8, 11))
                ==> r is None,
            valid_utf8(self.name@.subrange(0, 8)) && valid_utf8(self.name@.subrange(8, 11)) ==> (r
                matches Some(s) && s@ == entry_name(self.name@)),
    {
        let base = &self.name[0..8];
        let ext = &self.name[8..11];
        let n = match str_from_utf8(base) {
            Some(n) => n,
            None => return None,
        };
        let e = match str_from_utf8(ext) {
            Some(e) => e,
            None => return None,
        };
        let n = trimmed_chars(n);
        let e = trimmed_chars(e);
        let mut out = n;
        if e.len() > 0 {
            out.push('.');
            let mut i: usize = 0;
            let ghost start = out@;
            while i < e.len()
                invariant
                    i <= e@.len(),
                    out@ == start + e@.take(i as int),
                decreases e@.len() - i,
            {
                out.push(e[i]);
                i = i + 1;
                proof {
                    assert(out@ =~= start + e@.take(i as int));
                }
            }
            proof {
                assert(e@.take(e@.len() as int) =~= e@);
            }
        }
        Some(string_from_chars(&out))
    }
}

/// The text that valid UTF-8 bytes spell (`core::str::from_utf8`): there is
/// one exactly when the bytes are valid UTF-8.
#[verifier::external_body]
fn str_from_utf8(b: &[u8]) -> (r: Option<&str>)
    ensures
        r is Some <==> valid_utf8(b@),
        r matches Some(s) ==> s@ == decode_utf8(b@),
{
    core::str::from_utf8(b).ok()
}

/// Position of the first non-space character (the length when there is none).
pub open spec fn first_non_space(s: Seq<char>) -> int
    decreases s.len(),
{
    if s.len() == 0 || !is_space(s[0]) {
        0
    } else {
        1 + first_non_space(s.drop_first())
    }
}

/// Length of `s` without its trailing spaces.
pub open spec fn end_non_space(s: Seq<char>) -> int
    decreases s.len(),
{
    if s.len() == 0 || !is_space(s.last()) {
        s.len() as int
    } else {
        end_non_space(s.drop_last())
    }
}

/// `s` without leading and trailing white space (what `str::trim` gives).
pub open spec fn trim(s: Seq<char>) -> Seq<char> {
    let a = first_non_space(s);
    let b = end_non_space(s);
    if a >= b {
        Seq::empty()
    } else {
        s.subrange(a, b)
    }
}

/// The name of an entry with these eleven name bytes (valid UTF-8 parts).
pub open spec fn entry_name(name: Seq<u8>) -> Seq<char> {
    let n = trim(decode_utf8(name.subrange(0, 8)));
    let e = trim(decode_utf8(name.subrange(8, 11)));
    if e.len() == 0 {
        n
    } else {
        n + seq!['.'] + e
    }
}

proof fn lemma_first_non_space(s: Seq<char>)
    ensures
        0 <= first_non_space(s) <= s.len(),
        forall|k: int| 0 <= k < first_non_space(s) ==> is_space(#[trigger] s[k]),
        first_non_space(s) < s.len() ==> !is_space(s[first_non_space(s)]),
    decreases s.len(),
{
    if s.len() > 0 && is_space(s[0]) {
        lemma_first_non_space(s.drop_first());
        assert forall|k: int| 0 <= k < first_non_space(s) implies is_space(#[trigger] s[k]) by {
            if k > 0 {
                assert(s[k] == s.drop_first()[k - 1]);
            }
        }
    }
}

proof fn lemma_end_non_space(s: Seq<char>)
    ensures
        0 <= end_non_space(s) <= s.len(),
        forall|k: int| end_non_space(s) <= k < s.len() ==> is_space(#[trigger] s[k]),
        end_non_space(s) > 0 ==> !is_space(s[end_non_space(s) - 1]),
    decreases s.len(),
{
    if s.len() > 0 && is_space(s.last()) {
        lemma_end_non_space(s.drop_last());
        assert forall|k: int| end_non_space(s) <= k < s.len() implies is_space(#[trigger] s[k]) by {
            if k < s.len() - 1 {
                assert(s[k] == s.drop_last()[k]);
            }
        }
    }
}

/// The characters of `s` without leading and trailing white space.
fn trimmed_chars(s: &str) -> (r: Vec<char>)
    ensures
        r@ == trim(s@),
{
    let mut chars: Vec<char> = Vec::new();
    for c in it: s.chars()
        invariant
            it.seq() == s@,
            chars@ == s@.take(it.index() as int),
    {
        proof {
            assert(s@.take(it.index() as int + 1) =~= chars@.push(c));
        }
        chars.push(c);
    }
    proof {
        assert(s@.take(s@.len() as int) =~= s@);
    }
    let ghost cs = chars@;
    proof {
        lemma_first_non_space(cs);
        lemma_end_non_space(cs);
    }
    let n = chars.len();
    let mut a: usize = 0;
    while a < n && is_space_char(chars[a])
        invariant
            n == cs.len(),
            chars@ == cs,
            a <= first_non_space(cs),
            0 <= first_non_space(cs) <= cs.len(),
            forall|k: int| 0 <= k < first_non_space(cs) ==> is_space(#[trigger] cs[k]),
            first_non_space(cs) < cs.len() ==> !is_space(cs[first_non_space(cs)]),
        decreases n - a,
    {
        a = a + 1;
    }
    let mut b: usize = n;
    while b > 0 && is_space_char(chars[b - 1])
        invariant
            n == cs.len(),
            chars@ == cs,
            end_non_space(cs) <= b <= n,
            forall|k: int| end_non_space(cs) <= k < cs.len() ==> is_space(#[trigger] cs[k]),
            end_non_space(cs) > 0 ==> !is_space(cs[end_non_space(cs) - 1]),
        decreases b,
    {
        b = b - 1;
    }
    let mut out: Vec<char> = Vec::new();
    if a < b {
        let mut i = a;
        while i < b
            invariant
                chars@ == cs,
                a <= i <= b <= cs.len(),
                out@ == cs.subrange(a as int, i as int),
            decreases b - i,
        {
            out.push(chars[i]);
            i = i + 1;
            proof {
                assert(out@ =~= cs.subrange(a as int, i as int));
            }
        }
    }
    proof {
        if a < b {
            assert(a == first_non_space(cs));
            assert(b == end_non_space(cs));
        } else {
            assert(out@ =~= Seq::<char>::empty());
            if first_non_space(cs) < end_non_space(cs) {
                assert(a == first_non_space(cs));
                assert(b == end_non_space(cs));
            }
        }
    }
    out
}

/// Whether a character is white space (as `char::is_whitespace` says).
pub fn is_space_char(c: char) -> (b: bool)
    ensures
        b == is_space(c),
{
    ('\t' <= c && c <= '\r') || c == ' ' || c == '\u{85}' || c == '\u{A0}' || c == '\u{1680}' || (
    '\u{2000}' <= c && c <= '\u{200A}') || c == '\u{2028}' || c == '\u{2029}' || c == '\u{202F}'
        || c == '\u{205F}' || c == '\u{3000}'
}


/// The in-use entries of a directory cluster, in order (32 bytes each;
/// entries whose name starts with 0 or 0xE5 are skipped).
pub open spec fn used_entries(b: Seq<u8>, n: int) -> Seq<Seq<u8>>
    decreases n,
{
    if n <= 0 {
        Seq::empty()
    } else {
        let prev = used_entries(b, n - 1);
        let at = (n - 1) * 32;
        if b[at] == 0 || b[at] == 0xE5 {
            prev
        } else {
            prev.push(b.subrange(at, at + 32))
        }
    }
}

/// Whether a parsed entry is the one stored in these 32 bytes.
pub open spec fn entry_matches(e: DirEntry, raw: Seq<u8>) -> bool {
    &&& e.name@ == raw.subrange(0, 11)
    &&& e.attr == raw[11]
    &&& e.cluster_hi == le16(raw, 20)
    &&& e.cluster_lo == le16(raw, 26)
    &&& e.size == le32(raw, 28)
}

/// Reads the in-use entries of a directory cluster.
pub fn parse_dir_entries(b: &[u8]) -> (v: Vec<DirEntry>)
    ensures
        v@.len() == used_entries(b@, b@.len() as int / 32).len(),
        forall|k: int| 0 <= k < v@.len() ==> entry_matches(#[trigger] v@[k], used_entries(b@, b@.len() as int / 32)[k]),
{
    let len = b.len();
    let mut v: Vec<DirEntry> = Vec::new();
    let mut offset: usize = 0;
    while len - offset >= 32
        invariant
            len == b@.len(),
            offset % 32 == 0,
            offset <= len,
            v@.len() == used_entries(b@, offset as int / 32).len(),
            forall|k: int| 0 <= k < v@.len() ==> entry_matches(#[trigger] v@[k], used_entries(b@, offset as int / 32)[k]),
        decreases len - offset,
    {
        let e = DirEntry::parse(b, offset);
        let ghost n = offset as int / 32 + 1;
        proof {
            assert(n - 1 == offset as int / 32);
            assert((n - 1) * 32 == offset);
        }
        if !e.is_unused() {
            proof {
                let raw = b@.subrange(offset as int, offset + 32);
                assert(raw.subrange(0, 11) =~= b@.subrange(offset as int, offset + 11));
                assert(entry_matches(e, raw));
                assert(used_entries(b@, n) == used_entries(b@, n - 1).push(raw));
            }
            v.push(e);
            proof {
                assert forall|k: int| 0 <= k < v@.len() implies entry_matches(#[trigger] v@[k], used_entries(b@, n)[k]) by {
                    if k < v@.len() - 1 {
                        assert(used_entries(b@, n)[k] == used_entries(b@, n - 1)[k]);
                    }
                }
            }
        } else {
            proof {
                assert(used_entries(b@, n) == used_entries(b@, n - 1));
            }
        }
        offset = offset + 32;
        proof {
            assert(offset as int / 32 == n);
        }
    }
    proof {
        assert(offset as int / 32 == len as int / 32);
    }
    v
}

/// A free directory slot: its name starts with 0 or 0xE5.
pub open spec fn entry_unused(e: DirEntry) -> bool {
    e.name@[0] == 0 || e.name@[0] == 0xE5
}

/// Every entry `used_entries` keeps is 32 bytes long and starts in use.
proof fn lemma_used_entries_in_use(b: Seq<u8>, n: int)
    requires
        n * 32 <= b.len(),
    ensures
        forall|k: int| 0 <= k < used_entries(b, n).len() ==> (#[trigger] used_entries(b, n)[k]).len() == 32
            && used_entries(b, n)[k][0] != 0 && used_entries(b, n)[k][0] != 0xE5,
    decreases n,
{
    if n > 0 {
        lemma_used_entries_in_use(b, n - 1);
        let prev = used_entries(b, n - 1);
        let at = (n - 1) * 32;
        if !(b[at] == 0 || b[at] == 0xE5) {
            let raw = b.subrange(at, at + 32);
            assert(raw[0] == b[at]);
            assert forall|k: int| 0 <= k < used_entries(b, n).len() implies (#[trigger] used_entries(b, n)[k]).len() == 32
                && used_entries(b, n)[k][0] != 0 && used_entries(b, n)[k][0] != 0xE5 by {
                if k < prev.len() {
                    assert(used_entries(b, n)[k] == prev[k]);
                }
            }
        }
    }
}

/// A node of a FAT32 file system: where its data starts, whether it is a
/// directory, and its metadata.
#[derive(Debug, Clone, Copy, PartialEq, Eq, Structural)]
pub struct Fat32Inode {
    pub cluster: u32,
    pub is_dir: bool,
    pub metadata: Metadata,
}

/// The metadata of a node found in a directory: its size, permissions by kind.
pub open spec fn entry_metadata(size: u32, is_dir: bool) -> Metadata {
    Metadata {
        size: size as u64,
        permissions: if is_dir { 0o755 } else { 0o644 },
        uid: 0,
        gid: 0,
        ctime: 0,
        mtime: 0,
        blocks: 0,
        nlinks: 1,
    }
}

/// The node an entry describes.
pub open spec fn entry_node(e: DirEntry) -> Fat32Inode {
    let is_dir = (e.attr / 16) % 2 == 1;
    Fat32Inode {
        cluster: (e.cluster_hi * 0x10000 + e.cluster_lo) as u32,
        is_dir,
        metadata: entry_metadata(e.size, is_dir),
    }
}

/// Whether a name part is UTF-8 (else the entry's name cannot be read).
pub open spec fn readable_name(e: DirEntry) -> bool {
    valid_utf8(e.name@.subrange(0, 8)) && valid_utf8(e.name@.subrange(8, 11))
}

/// Looking `name` up among entries: the first entry with that name, an
/// error at the first entry whose name is not UTF-8, or not found.
pub open spec fn find_spec(es: Seq<DirEntry>, name: Seq<char>) -> Result<Fat32Inode, VfsError>
    decreases es.len(),
{
    if es.len() == 0 {
        Err(VfsError::NotFound)
    } else if !readable_name(es[0]) {
        Err(VfsError::InvalidArgument)
    } else if entry_name(es[0].name@) == name {
        Ok(entry_node(es[0]))
    } else {
        find_spec(es.drop_first(), name)
    }
}

/// Finds the entry named `name` (see [`find_spec`]).
pub fn find_entry(entries: &Vec<DirEntry>, name: &str) -> (r: Result<Fat32Inode, VfsError>)
    ensures
        r == find_spec(entries@, name@),
{
    let mut i: usize = 0;
    proof {
        assert(entries@.skip(0) =~= entries@);
    }
    while i < entries.len()
        invariant
            i <= entries@.len(),
            find_spec(entries@, name@) == find_spec(entries@.skip(i as int), name@),
        decreases entries@.len() - i,
    {
        let e = entries[i];
        proof {
            assert(entries@.skip(i as int)[0] == e);
            assert(entries@.skip(i as int).drop_first() =~= entries@.skip(i as int + 1));
        }
        match e.filename() {
            None => return Err(VfsError::InvalidArgument),
            Some(f) => {
                if compare_text(f.as_str(), name) {
                    let is_dir = e.is_dir();
                    let meta = Metadata {
                        size: e.size as u64,
                        permissions: if is_dir { 0o755 } else { 0o644 },
                        uid: 0,
                        gid: 0,
                        ctime: 0,
                        mtime: 0,
                        blocks: 0,
                        nlinks: 1,
                    };
                    return Ok(Fat32Inode { cluster: e.first_cluster(), is_dir, metadata: meta });
                }
            },
        }
        i = i + 1;
    }
    proof {
        assert(entries@.skip(i as int) =~= Seq::<DirEntry>::empty());
    }
    Err(VfsError::NotFound)
}

/// Looking a name up among entries either finds it or fails with `NotFound`
/// or `InvalidArgument`.
proof fn lemma_find_errors(es: Seq<DirEntry>, name: Seq<char>)
    ensures
        find_spec(es, name) is Ok || find_spec(es, name) == Err::<Fat32Inode, VfsError>(VfsError::NotFound)
            || find_spec(es, name) == Err::<Fat32Inode, VfsError>(VfsError::InvalidArgument),
    decreases es.len(),
{
    if es.len() > 0 {
        lemma_find_errors(es.drop_first(), name);
    }
}

/// The names of entries, in order; an error at the first name that is not UTF-8.
pub open spec fn names_spec(es: Seq<DirEntry>) -> Option<Seq<Seq<char>>>
    decreases es.len(),
{
    if es.len() == 0 {
        Some(Seq::empty())
    } else if !readable_name(es.last()) {
        None
    } else {
        match names_spec(es.drop_last()) {
            None => None,
            Some(ns) => Some(ns.push(entry_name(es.last().name@))),
        }
    }
}

/// Whether two strings hold the same characters.
fn compare_text(a: &str, b: &str) -> (r: bool)
    ensures
        r == (a@ == b@),
{
    crate::fs::names::compare_names(a, b) == crate::fs::names::NameOrder::Equal
}


/// The names of entries, in order (see [`names_spec`]); a name that is not
/// UTF-8 is an error.
pub fn list_names(entries: &Vec<DirEntry>) -> (r: Result<Vec<String>, VfsError>)
    ensures
        match names_spec(entries@) {
            None => r == Err::<Vec<String>, VfsError>(VfsError::InvalidArgument),
            Some(ns) => r matches Ok(v) && v@.len() == ns.len() && forall|k: int|
                0 <= k < ns.len() ==> (#[trigger] v@[k])@ == ns[k],
        },
{
    let mut out: Vec<String> = Vec::new();
    let mut i: usize = 0;
    while i < entries.len()
        invariant
            i <= entries@.len(),
            names_spec(entries@.take(i as int)) matches Some(ns) && out@.len() == ns.len()
                && forall|k: int| 0 <= k < ns.len() ==> (#[trigger] out@[k])@ == ns[k],
        decreases entries@.len() - i,
    {
        let e = entries[i];
        proof {
            assert(entries@.take(i as int + 1).drop_last() =~= entries@.take(i as int));
            assert(entries@.take(i as int + 1).last() == e);
        }
        match e.filename() {
            None => {
                proof {
                    lemma_names_none_grows(entries@, i as int + 1);
                }
                return Err(VfsError::InvalidArgument);
            },
            Some(f) => {
                out.push(f);
            },
        }
        i = i + 1;
    }
    proof {
        assert(entries@.take(i as int) =~= entries@);
    }
    Ok(out)
}

proof fn lemma_names_none_grows(es: Seq<DirEntry>, j: int)
    requires
        0 <= j <= es.len(),
        names_spec(es.take(j)) is None,
    ensures
        names_spec(es) is None,
    decreases es.len(),
{
    if j < es.len() {
        assert(es.drop_last().take(j) =~= es.take(j));
        lemma_names_none_grows(es.drop_last(), j);
    } else {
        assert(es.take(j) =~= es);
    }
}

/// A mounted FAT32 file system on a device.
pub struct Fat32Fs<D> {
    pub device: D,
    pub bpb: BiosParameterBlock,
    pub fat_start_lba: u64,
    pub data_start_lba: u64,
}

/// Bytes in a cluster of a file system.
pub open spec fn cluster_bytes<D>(fs: Fat32Fs<D>) -> int {
    fs.bpb.bytes_per_sector * fs.bpb.sectors_per_cluster
}

/// A file system whose layout was read from its boot sector.
pub open spec fn layout_ok<D>(fs: Fat32Fs<D>) -> bool {
    &&& fs.fat_start_lba == fs.bpb.reserved_sectors
    &&& fs.data_start_lba == fs.bpb.reserved_sectors + fs.bpb.fats * fs.bpb.fat_size_32
}

impl<D: ByteDevice> Fat32Fs<D> {
    /// Reads the 512-byte sector `lba` into `buf`: the device's read at byte
    /// `lba * 512` decides; its error comes back as a device error (see
    /// [`sector_read_result`]).
    pub fn read_sector(&self, lba: u64, buf: &mut [u8]) -> (r: Result<(), VfsError>)
        requires
            lba <= 0x7F_FFFF_FFFF_FFFF,
        ensures
            r is Ok || r matches Err(VfsError::DeviceError(_)),
    {
        let res = self.device.read_at(sector_offset(lba), buf);
        sector_read_result(res)
    }

    /// Where the allocation-table entry of `cluster` lies: the sector, and
    /// the byte offset of its four bytes within that sector.
    pub fn fat_position(&self, cluster: u32) -> (p: (u64, usize))
        requires
            layout_ok(*self),
        ensures
            p.0 == self.fat_start_lba + (cluster * 4) / 512,
            p.1 == (cluster * 4) % 512,
            p.1 + 4 <= 512,
            p.0 <= 0x7F_FFFF_FFFF_FFFF,
    {
        let fat_offset = cluster as u64 * 4;
        (self.fat_start_lba + fat_offset / 512, (fat_offset % 512) as usize)
    }

    /// Bytes in a cluster.
    pub fn cluster_size(&self) -> (n: u64)
        ensures
            n == self.bpb.bytes_per_sector * self.bpb.sectors_per_cluster,
            n <= 0xFFFF * 0xFF,
    {
        proof {
            assert(self.bpb.bytes_per_sector * self.bpb.sectors_per_cluster <= 0xFFFF * 0xFF) by (nonlinear_arith);
        }
        self.bpb.bytes_per_sector as u64 * self.bpb.sectors_per_cluster as u64
    }

    /// The first sector of a data cluster (clusters are numbered from 2).
    pub fn cluster_to_lba(&self, cluster: u32) -> (lba: u64)
        requires
            layout_ok(*self),
            2 <= cluster < 0x1000_0000,
        ensures
            lba == self.data_start_lba + (cluster - 2) * self.bpb.sectors_per_cluster,
            lba <= 0x200_0000_0000,
    {
        proof {
            assert(self.bpb.fats * self.bpb.fat_size_32 <= 0xFF * 0xFFFF_FFFF) by (nonlinear_arith);
            assert((cluster - 2) * self.bpb.sectors_per_cluster <= 0x1000_0000 * 0xFF) by (nonlinear_arith)
                requires
                    2 <= cluster < 0x1000_0000,
            ;
        }
        self.data_start_lba + (cluster as u64 - 2) * self.bpb.sectors_per_cluster as u64
    }

    /// The cluster after `cluster` in its chain, read from the allocation
    /// table: the sector that [`Self::fat_position`] names is read, and the
    /// entry there decoded by [`fat_entry`].
    pub fn next_cluster(&self, cluster: u32) -> (r: Result<u32, VfsError>)
        requires
            layout_ok(*self),
        ensures
            r matches Ok(c) ==> c <= 0x0FFF_FFFF,
            r is Ok || r matches Err(VfsError::DeviceError(_)),
    {
        let (sector, offset) = self.fat_position(cluster);
        let mut buf = [0u8; 512];
        match self.read_sector(sector, &mut buf) {
            Ok(()) => {},
            Err(e) => return Err(e),
        }
        Ok(fat_entry(&buf, offset))
    }
}

/// The byte offset on the device where sector `lba` starts.
pub fn sector_offset(lba: u64) -> (o: u64)
    requires
        lba <= 0x7F_FFFF_FFFF_FFFF,
    ensures
        o == lba * 512,
{
    lba * 512
}

/// Copies the first `count` bytes of `chunk` into `buf` at `at`; the rest of
/// `buf` is left as it was.
pub fn copy_chunk(buf: &mut [u8], at: usize, chunk: &[u8], count: usize)
    requires
        at + count <= old(buf)@.len(),
        count <= chunk@.len(),
    ensures
        final(buf)@ == old(buf)@.subrange(0, at as int) + chunk@.subrange(0, count as int)
            + old(buf)@.subrange(at + count, old(buf)@.len() as int),
{
    let len = buf.len();
    let mut k: usize = 0;
    while k < count
        invariant
            len == buf@.len(),
            at + count <= buf@.len(),
            buf@.len() == old(buf)@.len(),
            count <= chunk@.len(),
            k <= count,
            forall|j: int| 0 <= j < at ==> buf@[j] == old(buf)@[j],
            forall|j: int| at + count <= j < buf@.len() ==> buf@[j] == old(buf)@[j],
            forall|j: int| at <= j < at + k ==> buf@[j] == chunk@[j - at],
        decreases count - k,
    {
        buf[at + k] = chunk[k];
        k = k + 1;
    }
    assert(buf@ =~= old(buf)@.subrange(0, at as int) + chunk@.subrange(0, count as int)
        + old(buf)@.subrange(at + count, old(buf)@.len() as int));
}

/// What a read of a sector gives, by what the device answered: success, or
/// the device's error.
pub fn sector_read_result(res: Result<usize, DeviceError>) -> (r: Result<(), VfsError>)
    ensures
        res is Ok ==> r == Ok::<(), VfsError>(()),
        res matches Err(e) ==> r == Err::<(), VfsError>(VfsError::DeviceError(e)),
{
    match res {
        Ok(_) => Ok(()),
        Err(e) => Err(VfsError::DeviceError(e)),
    }
}

/// The cluster number an allocation-table entry holds: its low 28 bits.
pub open spec fn fat_value(b: Seq<u8>, i: int) -> u32 {
    le32(b, i) & 0x0FFF_FFFF
}

/// Decodes the allocation-table entry at `offset` of a sector.
pub fn fat_entry(sector: &[u8], offset: usize) -> (c: u32)
    requires
        offset + 4 <= sector@.len(),
    ensures
        c == fat_value(sector@, offset as int),
        c <= 0x0FFF_FFFF,
{
    let v = read_le32(sector, offset);
    let c = v & 0x0FFF_FFFF;
    assert(c <= 0x0FFF_FFFF) by (bit_vector)
        requires
            c == v & 0x0FFF_FFFF,
    ;
    c
}

impl Fat32Inode {
    /// The in-use entries of this directory, cluster by cluster along its
    /// chain. A cluster number below 2, or a chain longer than there are
    /// clusters, is refused as corrupt.
    pub fn read_dir_entries<D: ByteDevice>(&self, fs: &Fat32Fs<D>) -> (r: Result<Vec<DirEntry>, VfsError>)
        requires
            layout_ok(*fs),
        ensures
            self.cluster >= END_OF_CHAIN ==> (r matches Ok(v) && v@.len() == 0),
            self.cluster < 2 ==> r == Err::<Vec<DirEntry>, VfsError>(VfsError::InvalidArgument),
            r is Ok || r == Err::<Vec<DirEntry>, VfsError>(VfsError::InvalidArgument) || r matches Err(
                VfsError::DeviceError(_),
            ),
            r matches Ok(v) ==> forall|k: int| 0 <= k < v@.len() ==> !entry_unused(#[trigger] v@[k]),
    {
        let mut entries: Vec<DirEntry> = Vec::new();
        let mut cluster = self.cluster;
        let cluster_size = fs.cluster_size() as usize;
        let mut steps: u32 = 0;
        while cluster < END_OF_CHAIN
            invariant
                layout_ok(*fs),
                cluster_size <= 0xFFFF * 0xFF,
                steps == 0 ==> cluster == self.cluster && entries@.len() == 0,
                steps > 0 ==> 2 <= self.cluster < END_OF_CHAIN,
                forall|k: int| 0 <= k < entries@.len() ==> !entry_unused(#[trigger] entries@[k]),
            decreases END_OF_CHAIN - steps,
        {
            if steps >= END_OF_CHAIN || cluster < 2 {
                return Err(VfsError::InvalidArgument);
            }
            steps = steps + 1;
            let lba = fs.cluster_to_lba(cluster);
            let mut buf: Vec<u8> = Vec::new();
            let mut i: usize = 0;
            while i < cluster_size
                invariant
                    i <= cluster_size,
                    buf@.len() == i,
                decreases cluster_size - i,
            {
                buf.push(0);
                i = i + 1;
            }
            match sector_read_result(fs.device.read_at(sector_offset(lba), buf.as_mut_slice())) {
                Ok(()) => {},
                Err(e) => return Err(e),
            }
            let found = parse_dir_entries(buf.as_slice());
            proof {
                lemma_used_entries_in_use(buf@, buf@.len() as int / 32);
            }
            let mut j: usize = 0;
            while j < found.len()
                invariant
                    j <= found@.len(),
                    forall|k: int| 0 <= k < found@.len() ==> !entry_unused(#[trigger] found@[k]),
                    forall|k: int| 0 <= k < entries@.len() ==> !entry_unused(#[trigger] entries@[k]),
                decreases found@.len() - j,
            {
                entries.push(found[j]);
                j = j + 1;
            }
            cluster = match fs.next_cluster(cluster) {
                Ok(c) => c,
                Err(e) => return Err(e),
            };
        }
        Ok(entries)
    }
}


impl Fat32Inode {
    pub fn metadata(&self) -> (r: Result<Metadata, VfsError>)
        ensures
            r == Ok::<Metadata, VfsError>(self.metadata),
    {
        Ok(self.metadata)
    }

    /// Metadata cannot be changed.
    pub fn set_metadata(&self, m: &Metadata) -> (r: Result<(), VfsError>)
        ensures
            r == Err::<(), VfsError>(VfsError::NotImplemented),
    {
        Err(VfsError::NotImplemented)
    }

    pub fn node_type(&self) -> (t: VNodeType)
        ensures
            t == (if self.is_dir { VNodeType::Dir } else { VNodeType::File }),
    {
        if self.is_dir {
            VNodeType::Dir
        } else {
            VNodeType::File
        }
    }

    /// The file system is read-only.
    pub fn write_at(&self, offset: u64, buf: &[u8]) -> (r: Result<usize, VfsError>)
        ensures
            r == Err::<usize, VfsError>(VfsError::PermissionDenied),
    {
        Err(VfsError::PermissionDenied)
    }

    pub fn truncate(&self, size: u64) -> (r: Result<(), VfsError>)
        ensures
            r == Err::<(), VfsError>(VfsError::NotImplemented),
    {
        Err(VfsError::NotImplemented)
    }

    pub fn sync(&self) -> (r: Result<(), VfsError>)
        ensures
            r is Ok,
    {
        Ok(())
    }

    /// The file system is read-only.
    pub fn create(&self, name: &str, typ: VNodeType) -> (r: Result<Fat32Inode, VfsError>)
        ensures
            r == Err::<Fat32Inode, VfsError>(VfsError::PermissionDenied),
    {
        Err(VfsError::PermissionDenied)
    }

    /// The file system is read-only.
    pub fn unlink(&self, name: &str) -> (r: Result<(), VfsError>)
        ensures
            r == Err::<(), VfsError>(VfsError::PermissionDenied),
    {
        Err(VfsError::PermissionDenied)
    }

    /// The node named `name` in this directory (see [`find_spec`] for how
    /// the entries read from the disk are searched).
    pub fn lookup<D: ByteDevice>(&self, fs: &Fat32Fs<D>, name: &str) -> (r: Result<Fat32Inode, VfsError>)
        requires
            layout_ok(*fs),
        ensures
            !self.is_dir ==> r == Err::<Fat32Inode, VfsError>(VfsError::NotADirectory),
            self.is_dir && self.cluster >= END_OF_CHAIN ==> r == Err::<Fat32Inode, VfsError>(VfsError::NotFound),
            self.is_dir && self.cluster < 2 ==> r == Err::<Fat32Inode, VfsError>(VfsError::InvalidArgument),
            self.is_dir ==> (r matches Ok(n) ==> exists|es: Seq<DirEntry>|
                (forall|k: int| 0 <= k < es.len() ==> !entry_unused(#[trigger] es[k]))
                && #[trigger] find_spec(es, name@) == Ok::<Fat32Inode, VfsError>(n)),
            r is Ok || r == Err::<Fat32Inode, VfsError>(VfsError::NotADirectory)
                || r == Err::<Fat32Inode, VfsError>(VfsError::NotFound)
                || r == Err::<Fat32Inode, VfsError>(VfsError::InvalidArgument)
                || r matches Err(VfsError::DeviceError(_)),
    {
        if !self.is_dir {
            return Err(VfsError::NotADirectory);
        }
        let entries = match self.read_dir_entries(fs) {
            Ok(e) => e,
            Err(e) => return Err(e),
        };
        let r = find_entry(&entries, name);
        proof {
            if self.cluster >= END_OF_CHAIN {
                assert(entries@.len() == 0);
            }
            lemma_find_errors(entries@, name@);
        }
        r
    }

    /// The names in this directory (see [`list_names`]).
    pub fn list<D: ByteDevice>(&self, fs: &Fat32Fs<D>) -> (r: Result<Vec<String>, VfsError>)
        requires
            layout_ok(*fs),
        ensures
            !self.is_dir ==> r == Err::<Vec<String>, VfsError>(VfsError::NotADirectory),
            self.is_dir && self.cluster >= END_OF_CHAIN ==> (r matches Ok(v) && v@.len() == 0),
            self.is_dir && self.cluster < 2 ==> r == Err::<Vec<String>, VfsError>(VfsError::InvalidArgument),
            self.is_dir ==> (r matches Ok(v) ==> exists|es: Seq<DirEntry>|
                (forall|k: int| 0 <= k < es.len() ==> !entry_unused(#[trigger] es[k]))
                && #[trigger] names_spec(es) == Some(Seq::new(v@.len(), |k: int| v@[k]@))),
            r is Ok || r == Err::<Vec<String>, VfsError>(VfsError::NotADirectory)
                || r == Err::<Vec<String>, VfsError>(VfsError::InvalidArgument)
                || r matches Err(VfsError::DeviceError(_)),
    {
        if !self.is_dir {
            return Err(VfsError::NotADirectory);
        }
        let entries = match self.read_dir_entries(fs) {
            Ok(e) => e,
            Err(e) => return Err(e),
        };
        let r = list_names(&entries);
        proof {
            if r is Ok {
                let v = r->Ok_0;
                let ns = names_spec(entries@)->0;
                assert(ns =~= Seq::new(v@.len(), |k: int| v@[k]@));
                assert(names_spec(entries@) == Some(Seq::new(v@.len(), |k: int| v@[k]@)));
            }
            if self.cluster >= END_OF_CHAIN {
                assert(entries@.len() == 0);
                assert(names_spec(entries@) == Some(Seq::<Seq<char>>::empty()));
            }
        }
        r
    }

    /// Reads file data from `offset` into `buf` along the cluster chain,
    /// until `buf` is full or the chain ends; gives the bytes read. A
    /// directory cannot be read; a cluster size of zero or a cluster number
    /// below 2 is refused as corrupt.
    pub fn read_at<D: ByteDevice>(&self, fs: &Fat32Fs<D>, offset: u64, buf: &mut [u8]) -> (r: Result<usize, VfsError>)
        requires
            layout_ok(*fs),
        ensures
            final(buf)@.len() == old(buf)@.len(),
            self.is_dir ==> r == Err::<usize, VfsError>(VfsError::NotAFile) && final(buf)@ == old(buf)@,
            !self.is_dir && cluster_bytes(*fs) == 0 ==> r == Err::<usize, VfsError>(VfsError::InvalidArgument)
                && final(buf)@ == old(buf)@,
            !self.is_dir && cluster_bytes(*fs) > 0 && offset < cluster_bytes(*fs) && old(buf)@.len() == 0
                ==> r == Ok::<usize, VfsError>(0),
            !self.is_dir && cluster_bytes(*fs) > 0 && offset < cluster_bytes(*fs) && old(buf)@.len() > 0
                && (self.cluster < 2 || self.cluster >= 0x1000_0000)
                ==> r == Err::<usize, VfsError>(VfsError::InvalidArgument) && final(buf)@ == old(buf)@,
            r matches Ok(n) ==> n <= old(buf)@.len()
                && forall|k: int| n <= k < old(buf)@.len() ==> #[trigger] final(buf)@[k] == old(buf)@[k],
            r is Ok || r == Err::<usize, VfsError>(VfsError::NotAFile)
                || r == Err::<usize, VfsError>(VfsError::InvalidArgument)
                || r matches Err(VfsError::DeviceError(_)),
    {
        if self.is_dir {
            return Err(VfsError::NotAFile);
        }
        let mut cluster = self.cluster;
        let cluster_size = fs.cluster_size();
        if cluster_size == 0 {
            return Err(VfsError::InvalidArgument);
        }
        let mut skip = offset;
        while skip >= cluster_size
            invariant
                layout_ok(*fs),
                !self.is_dir,
                cluster_size > 0,
                buf@ == old(buf)@,
                offset < cluster_size ==> skip == offset && cluster == self.cluster,
                cluster_size == cluster_bytes(*fs),
            decreases skip,
        {
            cluster = match fs.next_cluster(cluster) {
                Ok(c) => c,
                Err(e) => return Err(e),
            };
            skip = skip - cluster_size;
        }
        let n = buf.len();
        let mut read: usize = 0;
        while read < n
            invariant
                layout_ok(*fs),
                !self.is_dir,
                cluster_size > 0,
                skip < cluster_size,
                cluster_size <= 0xFFFF * 0xFF,
                cluster_size == fs.bpb.bytes_per_sector * fs.bpb.sectors_per_cluster,
                n == buf@.len(),
                buf@.len() == old(buf)@.len(),
                read <= n,
                read == 0 ==> buf@ == old(buf)@,
                read == 0 && offset < cluster_size ==> cluster == self.cluster,
                read > 0 && offset < cluster_size ==> 2 <= self.cluster < 0x1000_0000,
                cluster_size == cluster_bytes(*fs),
                forall|k: int| read <= k < n ==> #[trigger] buf@[k] == old(buf)@[k],
            ensures
                read <= n,
                n == buf@.len(),
                buf@.len() == old(buf)@.len(),
                read == 0 ==> n == 0,
                read > 0 && offset < cluster_size ==> 2 <= self.cluster < 0x1000_0000,
                cluster_size == cluster_bytes(*fs),
                forall|k: int| read <= k < n ==> #[trigger] buf@[k] == old(buf)@[k],
            decreases n - read,
        {
            if cluster < 2 || cluster >= 0x1000_0000 {
                return Err(VfsError::InvalidArgument);
            }
            let lba = fs.cluster_to_lba(cluster);
            let room = (cluster_size - skip) as usize;
            let max = if room < n - read { room } else { n - read };
            let mut chunk: Vec<u8> = Vec::new();
            let mut i: usize = 0;
            while i < max
                invariant
                    i <= max,
                    chunk@.len() == i,
                decreases max - i,
            {
                chunk.push(0);
                i = i + 1;
            }
            match sector_read_result(fs.device.read_at(sector_offset(lba) + skip, chunk.as_mut_slice())) {
                Ok(()) => {},
                Err(e) => return Err(e),
            }
            let clen = chunk.len();
            let count = if max < clen { max } else { clen };
            copy_chunk(buf, read, chunk.as_slice(), count);
            read = read + max;
            skip = 0;
            cluster = match fs.next_cluster(cluster) {
                Ok(c) => c,
                Err(e) => return Err(e),
            };
            if cluster >= END_OF_CHAIN {
                break;
            }
        }
        Ok(read)
    }
}

/// The FAT32 file system type.
pub struct Fat32;

/// The root directory of a file system.
pub open spec fn root_node(bpb: BiosParameterBlock) -> Fat32Inode {
    Fat32Inode {
        cluster: bpb.root_cluster,
        is_dir: true,
        metadata: Metadata {
            size: 0,
            permissions: 0o755,
            uid: 0,
            gid: 0,
            ctime: 0,
            mtime: 0,
            blocks: 0,
            nlinks: 1,
        },
    }
}

impl Fat32 {
    /// Mounts the file system on `device`: reads its boot sector and gives
    /// the file system and its root directory. A device is needed.
    pub fn mount<D: ByteDevice>(&self, device: Option<D>) -> (r: Result<(Fat32Fs<D>, Fat32Inode), VfsError>)
        ensures
            (r matches Err(VfsError::InvalidArgument)) <==> device is None,
            r matches Ok((fs, root)) ==> layout_ok(fs) && root == root_node(fs.bpb) && device == Some(fs.device),
            r is Ok || r matches Err(VfsError::InvalidArgument) || r matches Err(VfsError::DeviceError(_)),
    {
        let device = match device {
            Some(d) => d,
            None => return Err(VfsError::InvalidArgument),
        };
        let mut buf = [0u8; 512];
        match sector_read_result(device.read_at(sector_offset(0), &mut buf)) {
            Ok(()) => {},
            Err(e) => return Err(e),
        }
        let bpb = BiosParameterBlock::parse(&buf);
        let fat_start = bpb.reserved_sectors as u64;
        proof {
            assert(bpb.fats * bpb.fat_size_32 <= 0xFF * 0xFFFF_FFFF) by (nonlinear_arith);
        }
        let data_start = fat_start + bpb.fats as u64 * bpb.fat_size_32 as u64;
        let fs = Fat32Fs { device, bpb, fat_start_lba: fat_start, data_start_lba: data_start };
        let root = Fat32Inode {
            cluster: bpb.root_cluster,
            is_dir: true,
            metadata: Metadata {
                size: 0,
                permissions: 0o755,
                uid: 0,
                gid: 0,
                ctime: 0,
                mtime: 0,
                blocks: 0,
                nlinks: 1,
            },
        };
        Ok((fs, root))
    }

    pub fn fs_type(&self) -> (s: &'static str)
        ensures
            s@ == "fat32"@,
    {
        "fat32"
    }
}

} // verus!
