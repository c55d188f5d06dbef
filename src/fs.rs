use std::collections::HashMap;

use vstd::prelude::*;

use vstd::utf8::encode_utf8;

use crate::codec::{parse_head, FileAttrDump, FileHead, FileTypeDump, HeadView, Timestamp};
use crate::disk::Disk;
use crate::error::FsError;
use crate::codec::{head_bytes, head_len, FileMetaFixedSizedPart, HEAD_PREFIX_SIZE};
use crate::disk::written;
use crate::meta::{
    fresh_meta, ino_step, meta_bytes, reserve_step, DumbFsMeta, BLOCK_SIZE, ROOT_ADDRESS,
    SUPERBLOCK_SIZE,
};
use crate::util::{align, align_up, lemma_align, lemma_align_past_max};
use crate::node::{chain, hop_bound, lemma_walk_links, walk, File};

verus! {

broadcast use vstd::std_specs::hash::group_hash_axioms;

/// The outcome of a search through the tree.
#[derive(Clone, Copy, Debug, PartialEq, Eq, Structural)]
pub enum Probe {
    /// A record with the inode number sought, at this address.
    Found(u64),
    /// The search ended without a match.
    Absent,
    /// A record did not decode, or the visit budget ran out.
    Broken,
}

/// The header stored at `a`.
pub open spec fn head_at(img: Seq<u8>, a: u64) -> HeadView {
    parse_head(img, a as int)->0
}

/// Depth-first search for inode `target` through the chain that starts at
/// `addr`: each record is checked, then (for a directory) its children, then
/// its later siblings. Each record visited spends one unit of `fuel`; the
/// second component is what is left.
pub open spec fn search(img: Seq<u8>, addr: u64, target: u64, fuel: nat) -> (Probe, nat)
    decreases fuel,
{
    if addr == 0 {
        (Probe::Absent, fuel)
    } else if fuel == 0 {
        (Probe::Broken, 0)
    } else {
        match parse_head(img, addr as int) {
            None => (Probe::Broken, 0),
            Some(h) => if h.fixed.file_attr.ino == target {
                (Probe::Found(addr), (fuel - 1) as nat)
            } else {
                let below = if h.fixed.file_attr.kind == FileTypeDump::Directory {
                    search(img, h.fixed.first_child, target, (fuel - 1) as nat)
                } else {
                    (Probe::Absent, (fuel - 1) as nat)
                };
                if below.0 == Probe::Absent {
                    search(
                        img,
                        h.fixed.next_sibling,
                        target,
                        if below.1 < fuel {
                            below.1
                        } else {
                            (fuel - 1) as nat
                        },
                    )
                } else {
                    below
                }
            },
        }
    }
}

/// A search only reports records that decode.
pub proof fn lemma_search_found(img: Seq<u8>, addr: u64, target: u64, fuel: nat)
    ensures
        search(img, addr, target, fuel).0 matches Probe::Found(a) ==> parse_head(img, a as int) is Some,
        search(img, addr, target, fuel).1 <= fuel,
    decreases fuel,
{
    if addr != 0 && fuel != 0 {
        if let Some(h) = parse_head(img, addr as int) {
            if h.fixed.file_attr.ino != target {
                if h.fixed.file_attr.kind == FileTypeDump::Directory {
                    lemma_search_found(img, h.fixed.first_child, target, (fuel - 1) as nat);
                }
                let below = if h.fixed.file_attr.kind == FileTypeDump::Directory {
                    search(img, h.fixed.first_child, target, (fuel - 1) as nat)
                } else {
                    (Probe::Absent, (fuel - 1) as nat)
                };
                let left = if below.1 < fuel {
                    below.1
                } else {
                    (fuel - 1) as nat
                };
                lemma_search_found(img, h.fixed.next_sibling, target, left);
            }
        }
    }
}

/// Where inode `ino` lives: the root itself, or the first match of a
/// depth-first search through its children.
pub open spec fn find_spec(img: Seq<u8>, ino: u64) -> Result<u64, FsError> {
    match parse_head(img, ROOT_ADDRESS as int) {
        None => Err(FsError::CorruptionError),
        Some(h) => if h.fixed.file_attr.ino == ino {
            Ok(ROOT_ADDRESS)
        } else if h.fixed.file_attr.kind != FileTypeDump::Directory {
            Err(FsError::NotFound)
        } else {
            match search(img, h.fixed.first_child, ino, hop_bound(img)).0 {
                Probe::Found(a) => Ok(a),
                Probe::Absent => Err(FsError::NotFound),
                Probe::Broken => Err(FsError::CorruptionError),
            }
        },
    }
}

/// `s[i]` is the first record of `s` named `name`.
pub open spec fn first_named(img: Seq<u8>, s: Seq<u64>, name: Seq<char>, i: int) -> bool {
    &&& 0 <= i < s.len()
    &&& head_at(img, s[i]).name == name
    &&& forall|j: int| 0 <= j < i ==> head_at(img, #[trigger] s[j]).name != name
}

/// No record of `s` is named `name`.
pub open spec fn none_named(img: Seq<u8>, s: Seq<u64>, name: Seq<char>) -> bool {
    forall|j: int| 0 <= j < s.len() ==> head_at(img, #[trigger] s[j]).name != name
}

/// `r` is the outcome of looking up `name` among the records `s`: the first
/// record so named, or `NotFound` when there is none.
pub open spec fn lookup_outcome(img: Seq<u8>, s: Seq<u64>, name: Seq<char>, r: Result<File, FsError>) -> bool {
    match r {
        Ok(f) => exists|i: int| #[trigger] first_named(img, s, name, i) && s[i] == f.at(),
        Err(e) => e == FsError::NotFound && none_named(img, s, name),
    }
}

/// The attributes of the first record of `s` named `name`, or `NotFound`.
pub open spec fn attr_lookup_outcome(
    img: Seq<u8>,
    s: Seq<u64>,
    name: Seq<char>,
    r: Result<FileAttrDump, FsError>,
) -> bool {
    match r {
        Ok(a) => exists|i: int| #[trigger]
            first_named(img, s, name, i) && a == head_at(img, s[i]).fixed.file_attr,
        Err(e) => e == FsError::NotFound && none_named(img, s, name),
    }
}

/// `e` lists the record at `a`, which stands at position `k` (from 0) among
/// its siblings.
pub open spec fn lists(img: Seq<u8>, a: u64, k: int, e: DirEntry) -> bool {
    let h = head_at(img, a);
    &&& e.ino == h.fixed.file_attr.ino
    &&& e.offset == k + 1
    &&& e.kind == h.fixed.file_attr.kind
    &&& e.name@ == h.name
}

/// `h` with its first child set to `child`.
pub open spec fn with_first_child(h: HeadView, child: u64) -> HeadView {
    HeadView { fixed: FileMetaFixedSizedPart { first_child: child, ..h.fixed }, name: h.name }
}

/// `h` with its next sibling set to `child`.
pub open spec fn with_next_sibling(h: HeadView, child: u64) -> HeadView {
    HeadView { fixed: FileMetaFixedSizedPart { next_sibling: child, ..h.fixed }, name: h.name }
}

/// The record that appending `child` under `parent` rewrites, with its new
/// header: the parent itself when it has no child yet, else its last child.
pub open spec fn link_target(img: Seq<u8>, parent: u64, child: u64) -> Result<(u64, HeadView), FsError> {
    match parse_head(img, parent as int) {
        None => Err(FsError::CorruptionError),
        Some(h) => if h.fixed.first_child == 0 {
            Ok((parent, with_first_child(h, child)))
        } else {
            match walk(img, h.fixed.first_child, hop_bound(img)) {
                None => Err(FsError::CorruptionError),
                Some(s) => Ok((s.last(), with_next_sibling(head_at(img, s.last()), child))),
            }
        },
    }
}

/// The encoded size of a header named `name`.
pub open spec fn head_size(name: Seq<char>) -> int {
    HEAD_PREFIX_SIZE + encode_utf8(name).len()
}

/// The header of a node made by `create_node`: no links, empty, `ino`, the
/// blocks its header takes, all four times `now`, `kind`, and otherwise as a
/// blank header.
pub open spec fn new_head(name: Seq<char>, kind: FileTypeDump, ino: u64, now: Timestamp) -> HeadView {
    let blank = crate::codec::blank_fixed().file_attr;
    HeadView {
        fixed: FileMetaFixedSizedPart {
            first_child: 0,
            next_sibling: 0,
            file_attr: FileAttrDump {
                ino,
                size: 0,
                blocks: (align_up(head_size(name), BLOCK_SIZE as int) / BLOCK_SIZE as int) as u64,
                atime: now,
                mtime: now,
                ctime: now,
                crtime: now,
                kind,
                ..blank
            },
        },
        name,
    }
}

/// Whether making a node named `name` would overflow one of the superblock's
/// counters.
pub open spec fn exhausted(m: DumbFsMeta, name: Seq<char>) -> bool {
    m.next_ino == u64::MAX || m.next_free_address + align_up(head_size(name), BLOCK_SIZE as int)
        > u64::MAX
}

/// What `create_node` checks before it changes anything: the parent resolves,
/// is a directory, its children can be walked, and the counters have room.
/// On success, the record to relink and its new header.
#[verifier::opaque]
pub open spec fn create_check(
    img: Seq<u8>,
    m: DumbFsMeta,
    parent_ino: u64,
    name: Seq<char>,
) -> Result<(u64, HeadView), FsError> {
    match find_spec(img, parent_ino) {
        Err(e) => Err(e),
        Ok(p) => if head_at(img, p).fixed.file_attr.kind != FileTypeDump::Directory {
            Err(FsError::NotADirectory)
        } else {
            match link_target(img, p, m.next_free_address) {
                Err(e) => Err(e),
                Ok(t) => if exhausted(m, name) {
                    Err(FsError::NoSpace)
                } else {
                    Ok(t)
                },
            }
        },
    }
}

/// The superblock after `create_node` made a node named `name` from `m`.
pub open spec fn meta_after_create(m: DumbFsMeta, name: Seq<char>) -> DumbFsMeta {
    DumbFsMeta {
        next_ino: (m.next_ino + 1) as u64,
        next_free_address: (m.next_free_address + align_up(head_size(name), BLOCK_SIZE as int)) as u64,
        ..m
    }
}

/// The image after `create_node` wrote the superblock twice (reservation,
/// then inode), the new node's header at the reserved address, and the
/// relinked header `t`.
#[verifier::opaque]
pub open spec fn image_after_create(
    img: Seq<u8>,
    m: DumbFsMeta,
    name: Seq<char>,
    kind: FileTypeDump,
    now: Timestamp,
    t: (u64, HeadView),
) -> Seq<u8> {
    let m1 = DumbFsMeta {
        next_free_address: (m.next_free_address + align_up(head_size(name), BLOCK_SIZE as int)) as u64,
        ..m
    };
    let m2 = meta_after_create(m, name);
    let d1 = written(img, 0, meta_bytes(m1));
    let d2 = written(d1, 0, meta_bytes(m2));
    let d3 = written(d2, m.next_free_address as int, head_bytes(new_head(name, kind, m.next_ino, now)));
    written(d3, t.0 as int, head_bytes(t.1))
}

/// The superblock after `init_filesystem`.
pub open spec fn initial_meta() -> DumbFsMeta {
    DumbFsMeta { next_ino: 2, next_free_address: 1024, ..fresh_meta() }
}

/// The image after `init_filesystem` at time `now`.
#[verifier::opaque]
pub open spec fn initial_image(img: Seq<u8>, now: Timestamp) -> Seq<u8> {
    let m1 = DumbFsMeta { next_ino: 2, ..fresh_meta() };
    let d1 = written(img, 0, meta_bytes(m1));
    let d2 = written(d1, 0, meta_bytes(initial_meta()));
    written(d2, ROOT_ADDRESS as int, head_bytes(new_head(Seq::empty(), FileTypeDump::Directory, 1, now)))
}

/// Relies on `SystemTime::elapsed`, taken on the Unix epoch: the current time
/// as seconds and nanoseconds since the epoch (the epoch itself if the clock
/// reads earlier). Nothing is known of its value.
#[verifier::external_body]
fn clock_now() -> (r: Timestamp) {
    match std::time::UNIX_EPOCH.elapsed() {
        Ok(d) => Timestamp { secs: d.as_secs(), nanos: d.subsec_nanos() },
        Err(_) => Timestamp { secs: 0, nanos: 0 },
    }
}

/// One entry of a directory listing.
#[derive(Debug)]
pub struct DirEntry {
    pub ino: u64,
    /// The position after this entry, to resume a listing from.
    pub offset: u64,
    pub kind: FileTypeDump,
    pub name: String,
}

/// Whether two names are the same string (byte for byte).
pub fn same_name(a: &str, b: &str) -> (r: bool)
    ensures
        r == (a@ == b@),
{
    let x = a.as_bytes();
    let y = b.as_bytes();
    assert(x@ == encode_utf8(a@) && y@ == encode_utf8(b@));
    proof {
        vstd::utf8::encode_utf8_decode_utf8(a@);
        vstd::utf8::encode_utf8_decode_utf8(b@);
    }
    if x.len() != y.len() {
        proof {
            if a@ == b@ {
                assert(x@ == y@);
            }
        }
        return false;
    }
    let mut i: usize = 0;
    while i < x.len()
        invariant
            x@ == encode_utf8(a@),
            y@ == encode_utf8(b@),
            x@.len() == y@.len(),
            i <= x@.len(),
            forall|j: int| 0 <= j < i ==> x@[j] == y@[j],
        decreases x.len() - i,
    {
        if x[i] != y[i] {
            proof {
                if a@ == b@ {
                    assert(x@ == y@);
                }
            }
            return false;
        }
        i = i + 1;
    }
    assert(x@ =~= y@);
    true
}

/// The filesystem: the medium, the superblock as last loaded or written, and
/// the table of open handles.
pub struct DumbFS {
    disk: Disk,
    meta: DumbFsMeta,
    next_file_handler: u64,
    opened_files: HashMap<u64, File>,
}

impl DumbFS {
    /// The bytes of the medium.
    pub closed spec fn img(&self) -> Seq<u8> {
        self.disk@
    }

    /// The capacity of the medium.
    pub closed spec fn capacity(&self) -> nat {
        self.disk.capacity()
    }

    /// The superblock as last loaded or written.
    pub closed spec fn sb(&self) -> DumbFsMeta {
        self.meta
    }

    /// The open handles and the nodes they refer to.
    pub closed spec fn handles(&self) -> Map<u64, File> {
        self.opened_files@
    }

    /// The handle the next open will return.
    pub closed spec fn next_handle(&self) -> u64 {
        self.next_file_handler
    }

    /// A filesystem over `disk`, not yet initialized, with no open handles.
    pub fn new(disk: Disk) -> (r: DumbFS)
        ensures
            r.img() == disk@,
            r.capacity() == disk.capacity(),
            r.sb() == crate::meta::fresh_meta(),
            r.handles().is_empty(),
            r.next_handle() == 1,
    {
        DumbFS {
            disk,
            meta: DumbFsMeta::default(),
            next_file_handler: 1,
            opened_files: HashMap::new(),
        }
    }

    /// The medium.
    pub fn disk(&self) -> (r: &Disk)
        ensures
            r@ == self.img(),
            r.capacity() == self.capacity(),
    {
        &self.disk
    }

    /// The superblock as last loaded or written.
    pub fn meta(&self) -> (r: DumbFsMeta)
        ensures
            r == self.sb(),
    {
        self.meta
    }

    /// Gives the medium back.
    pub fn into_disk(self) -> (r: Disk)
        ensures
            r@ == self.img(),
            r.capacity() == self.capacity(),
    {
        self.disk
    }

    fn search(disk: &Disk, addr: u64, target: u64, fuel: u64) -> (r: (Probe, u64))
        ensures
            (r.0, r.1 as nat) == search(disk@, addr, target, fuel as nat),
        decreases fuel,
    {
        if addr == 0 {
            return (Probe::Absent, fuel);
        }
        if fuel == 0 {
            return (Probe::Broken, 0);
        }
        let head = match File::new(addr).header(disk) {
            Ok(h) => h,
            Err(_) => return (Probe::Broken, 0),
        };
        let attr = head.fixed_sized_part.file_attr;
        if attr.ino == target {
            return (Probe::Found(addr), fuel - 1);
        }
        let below = if attr.kind == FileTypeDump::Directory {
            DumbFS::search(disk, head.fixed_sized_part.first_child, target, fuel - 1)
        } else {
            (Probe::Absent, fuel - 1)
        };
        if below.0 == Probe::Absent {
            let left = if below.1 < fuel {
                below.1
            } else {
                fuel - 1
            };
            DumbFS::search(disk, head.fixed_sized_part.next_sibling, target, left)
        } else {
            below
        }
    }

    /// Finds inode `ino` by depth-first search from `root`: the root itself,
    /// then (for a directory) its children in sibling order.
    pub fn find_file_with_root(&self, ino: u64, root: File) -> (r: Result<File, FsError>)
        ensures
            match parse_head(self.img(), root.at() as int) {
                None => r == Err::<File, FsError>(FsError::CorruptionError),
                Some(h) => if h.fixed.file_attr.ino == ino {
                    r matches Ok(f) && f.at() == root.at()
                } else if h.fixed.file_attr.kind != FileTypeDump::Directory {
                    r == Err::<File, FsError>(FsError::NotFound)
                } else {
                    match search(self.img(), h.fixed.first_child, ino, hop_bound(self.img())).0 {
                        Probe::Found(a) => r matches Ok(f) && f.at() == a,
                        Probe::Absent => r == Err::<File, FsError>(FsError::NotFound),
                        Probe::Broken => r == Err::<File, FsError>(FsError::CorruptionError),
                    }
                },
            },
    {
        let head = match root.header(&self.disk) {
            Ok(h) => h,
            Err(e) => return Err(e),
        };
        let attr = head.fixed_sized_part.file_attr;
        if attr.ino == ino {
            return Ok(root);
        }
        if attr.kind != FileTypeDump::Directory {
            return Err(FsError::NotFound);
        }
        let bound = self.disk.len();
        match DumbFS::search(&self.disk, head.fixed_sized_part.first_child, ino, bound).0 {
            Probe::Found(a) => Ok(File::new(a)),
            Probe::Absent => Err(FsError::NotFound),
            Probe::Broken => Err(FsError::CorruptionError),
        }
    }

    /// Finds inode `ino` in the tree rooted at the root directory.
    pub fn find_file(&self, ino: u64) -> (r: Result<File, FsError>)
        ensures
            match find_spec(self.img(), ino) {
                Ok(a) => r matches Ok(f) && f.at() == a,
                Err(e) => r == Err::<File, FsError>(e),
            },
    {
        self.find_file_with_root(ino, File::new(ROOT_ADDRESS))
    }

    /// The first child of `parent` named `name`, in sibling order.
    pub fn find_by_name(&self, parent: &File, name: &str) -> (r: Result<File, FsError>)
        ensures
            match parse_head(self.img(), parent.at() as int) {
                None => r == Err::<File, FsError>(FsError::CorruptionError),
                Some(h) => match walk(self.img(), h.fixed.first_child, hop_bound(self.img())) {
                    None => r == Err::<File, FsError>(FsError::CorruptionError),
                    Some(s) => lookup_outcome(self.img(), s, name@, r),
                },
            },
    {
        let ghost img = self.disk@;
        let kids = match parent.children(&self.disk) {
            Ok(k) => k,
            Err(e) => return Err(e),
        };
        let ghost s = walk(img, head_at(img, parent.at()).fixed.first_child, hop_bound(img))->0;
        proof {
            lemma_walk_links(img, head_at(img, parent.at()).fixed.first_child, hop_bound(img));
        }
        let mut i: usize = 0;
        while i < kids.len()
            invariant
                img == self.disk@,
                parse_head(img, parent.at() as int) is Some,
                walk(img, head_at(img, parent.at()).fixed.first_child, hop_bound(img)) == Some(s),
                crate::node::addresses(kids@) == s,
                forall|k: int| 0 <= k < s.len() ==> (#[trigger] parse_head(img, s[k] as int)) is Some,
                i <= kids@.len(),
                forall|j: int| 0 <= j < i ==> head_at(img, #[trigger] s[j]).name != name@,
            decreases kids.len() - i,
        {
            let child = kids[i];
            assert(child.at() == s[i as int]);
            let head = match child.header(&self.disk) {
                Ok(h) => h,
                Err(e) => return Err(e),
            };
            if same_name(head.filename.as_str(), name) {
                assert(first_named(img, s, name@, i as int) && s[i as int] == child.at());
                assert(lookup_outcome(img, s, name@, Ok(child)));
                return Ok(child);
            }
            i = i + 1;
        }
        assert(lookup_outcome(img, s, name@, Err(FsError::NotFound)));
        Err(FsError::NotFound)
    }

    /// The attributes of inode `ino`.
    pub fn getattr(&self, ino: u64) -> (r: Result<FileAttrDump, FsError>)
        ensures
            match find_spec(self.img(), ino) {
                Ok(a) => r == Ok::<FileAttrDump, FsError>(head_at(self.img(), a).fixed.file_attr),
                Err(e) => r == Err::<FileAttrDump, FsError>(e),
            },
    {
        let file = match self.find_file(ino) {
            Ok(f) => f,
            Err(e) => return Err(e),
        };
        proof {
            let h = parse_head(self.disk@, ROOT_ADDRESS as int)->0;
            lemma_search_found(self.disk@, h.fixed.first_child, ino, hop_bound(self.disk@));
        }
        match file.header(&self.disk) {
            Ok(h) => Ok(h.fixed_sized_part.file_attr),
            Err(e) => Err(e),
        }
    }

    /// The attributes of the first child named `name` of inode `parent`.
    pub fn lookup(&self, parent: u64, name: &str) -> (r: Result<FileAttrDump, FsError>)
        ensures
            match find_spec(self.img(), parent) {
                Err(e) => r == Err::<FileAttrDump, FsError>(e),
                Ok(p) => match walk(
                    self.img(),
                    head_at(self.img(), p).fixed.first_child,
                    hop_bound(self.img()),
                ) {
                    None => r == Err::<FileAttrDump, FsError>(FsError::CorruptionError),
                    Some(s) => attr_lookup_outcome(self.img(), s, name@, r),
                },
            },
    {
        let ghost img = self.disk@;
        let dir = match self.find_file(parent) {
            Ok(f) => f,
            Err(e) => return Err(e),
        };
        proof {
            let h = parse_head(img, ROOT_ADDRESS as int)->0;
            lemma_search_found(img, h.fixed.first_child, parent, hop_bound(img));
        }
        let found = match self.find_by_name(&dir, name) {
            Ok(f) => f,
            Err(e) => return Err(e),
        };
        let ghost s = walk(img, head_at(img, dir.at()).fixed.first_child, hop_bound(img))->0;
        proof {
            lemma_walk_links(img, head_at(img, dir.at()).fixed.first_child, hop_bound(img));
        }
        let ghost i = choose|i: int| first_named(img, s, name@, i) && s[i] == found.at();
        assert(parse_head(img, s[i] as int) is Some);
        match found.header(&self.disk) {
            Ok(h) => {
                assert(attr_lookup_outcome(img, s, name@, Ok(h.fixed_sized_part.file_attr)));
                Ok(h.fixed_sized_part.file_attr)
            },
            Err(e) => Err(e),
        }
    }

    /// Lists the children of directory `ino` from position `offset` (from 0)
    /// on, in sibling order.
    pub fn readdir(&self, ino: u64, offset: u64) -> (r: Result<Vec<DirEntry>, FsError>)
        ensures
            match find_spec(self.img(), ino) {
                Err(e) => r == Err::<Vec<DirEntry>, FsError>(e),
                Ok(d) => if head_at(self.img(), d).fixed.file_attr.kind
                    != FileTypeDump::Directory {
                    r == Err::<Vec<DirEntry>, FsError>(FsError::NotADirectory)
                } else {
                    match walk(
                        self.img(),
                        head_at(self.img(), d).fixed.first_child,
                        hop_bound(self.img()),
                    ) {
                        None => r == Err::<Vec<DirEntry>, FsError>(FsError::CorruptionError),
                        Some(s) => r matches Ok(v) && v@.len() == (if offset < s.len() {
                            s.len() - offset
                        } else {
                            0
                        }) && forall|k: int|
                            0 <= k < v@.len() ==> lists(
                                self.img(),
                                s[offset + k],
                                offset + k,
                                #[trigger] v@[k],
                            ),
                    }
                },
            },
    {
        let ghost img = self.disk@;
        let dir = match self.find_file(ino) {
            Ok(f) => f,
            Err(e) => return Err(e),
        };
        proof {
            let h = parse_head(img, ROOT_ADDRESS as int)->0;
            lemma_search_found(img, h.fixed.first_child, ino, hop_bound(img));
        }
        let head = match dir.header(&self.disk) {
            Ok(h) => h,
            Err(e) => return Err(e),
        };
        if head.fixed_sized_part.file_attr.kind != FileTypeDump::Directory {
            return Err(FsError::NotADirectory);
        }
        let kids = match crate::node::chain(&self.disk, head.fixed_sized_part.first_child) {
            Ok(k) => k,
            Err(e) => return Err(e),
        };
        let ghost s = walk(img, head_at(img, dir.at()).fixed.first_child, hop_bound(img))->0;
        proof {
            lemma_walk_links(img, head_at(img, dir.at()).fixed.first_child, hop_bound(img));
        }
        let mut out: Vec<DirEntry> = Vec::new();
        if offset >= kids.len() as u64 {
            return Ok(out);
        }
        let mut i: usize = offset as usize;
        while i < kids.len()
            invariant
                img == self.disk@,
                crate::node::addresses(kids@) == s,
                forall|k: int| 0 <= k < s.len() ==> (#[trigger] parse_head(img, s[k] as int)) is Some,
                offset <= i <= kids@.len(),
                out@.len() == i - offset,
                forall|k: int| 0 <= k < out@.len() ==> lists(img, s[offset + k], offset + k, #[trigger] out@[k]),
            decreases kids.len() - i,
        {
            let child = kids[i];
            assert(child.at() == s[i as int]);
            let h = match child.header(&self.disk) {
                Ok(h) => h,
                Err(e) => return Err(e),
            };
            let entry = DirEntry {
                ino: h.fixed_sized_part.file_attr.ino,
                offset: i as u64 + 1,
                kind: h.fixed_sized_part.file_attr.kind,
                name: h.filename,
            };
            assert(lists(img, s[i as int], i as int, entry));
            out.push(entry);
            i = i + 1;
        }
        Ok(out)
    }

    /// Opens inode `ino`: a new handle that refers to its node.
    pub fn open(&mut self, ino: u64) -> (r: Result<u64, FsError>)
        ensures
            final(self).img() == old(self).img(),
            final(self).sb() == old(self).sb(),
            final(self).capacity() == old(self).capacity(),
            match find_spec(old(self).img(), ino) {
                Err(e) => r == Err::<u64, FsError>(e) && final(self).handles() == old(self).handles()
                    && final(self).next_handle() == old(self).next_handle(),
                Ok(a) => if old(self).next_handle() == u64::MAX {
                    r == Err::<u64, FsError>(FsError::NoSpace) && final(self).handles() == old(
                        self,
                    ).handles() && final(self).next_handle() == old(self).next_handle()
                } else {
                    &&& r == Ok::<u64, FsError>(old(self).next_handle())
                    &&& final(self).next_handle() == old(self).next_handle() + 1
                    &&& final(self).handles().dom() == old(self).handles().dom().insert(
                        old(self).next_handle(),
                    )
                    &&& final(self).handles()[old(self).next_handle()].at() == a
                    &&& forall|h: u64|
                        h != old(self).next_handle() && old(self).handles().contains_key(h)
                            ==> final(self).handles()[h] == old(self).handles()[h]
                },
            },
    {
        let file = match self.find_file(ino) {
            Ok(f) => f,
            Err(e) => return Err(e),
        };
        if self.next_file_handler == u64::MAX {
            return Err(FsError::NoSpace);
        }
        let fh = self.next_file_handler;
        self.next_file_handler = fh + 1;
        self.opened_files.insert(fh, file);
        Ok(fh)
    }

    /// Opens directory inode `ino`, as `open` does.
    pub fn opendir(&mut self, ino: u64) -> (r: Result<u64, FsError>)
        ensures
            final(self).img() == old(self).img(),
            final(self).sb() == old(self).sb(),
            final(self).capacity() == old(self).capacity(),
            match find_spec(old(self).img(), ino) {
                Err(e) => r == Err::<u64, FsError>(e) && final(self).handles() == old(self).handles()
                    && final(self).next_handle() == old(self).next_handle(),
                Ok(a) => if old(self).next_handle() == u64::MAX {
                    r == Err::<u64, FsError>(FsError::NoSpace) && final(self).handles() == old(
                        self,
                    ).handles() && final(self).next_handle() == old(self).next_handle()
                } else {
                    &&& r == Ok::<u64, FsError>(old(self).next_handle())
                    &&& final(self).next_handle() == old(self).next_handle() + 1
                    &&& final(self).handles().dom() == old(self).handles().dom().insert(
                        old(self).next_handle(),
                    )
                    &&& final(self).handles()[old(self).next_handle()].at() == a
                    &&& forall|h: u64|
                        h != old(self).next_handle() && old(self).handles().contains_key(h)
                            ==> final(self).handles()[h] == old(self).handles()[h]
                },
            },
    {
        self.open(ino)
    }

    /// Reads `len` bytes of the content of the node open as `fh`, from
    /// `offset`; `IoError` for a handle that is not open.
    pub fn read(&self, fh: u64, offset: u64, len: u64) -> (r: Result<Vec<u8>, FsError>)
        ensures
            !self.handles().contains_key(fh) ==> r == Err::<Vec<u8>, FsError>(FsError::IoError),
            self.handles().contains_key(fh) ==> match parse_head(
                self.img(),
                self.handles()[fh].at() as int,
            ) {
                None => r == Err::<Vec<u8>, FsError>(FsError::CorruptionError),
                Some(h) => {
                    let c = crate::node::content_start(self.handles()[fh].at(), h);
                    &&& r is Ok <==> c + offset + len <= self.img().len()
                    &&& r matches Ok(v) ==> v@ == self.img().subrange(c + offset, c + offset + len)
                    &&& r is Err ==> r == Err::<Vec<u8>, FsError>(FsError::IoError)
                },
            },
    {
        match self.opened_files.get(&fh) {
            Some(file) => file.read_at(&self.disk, offset, len),
            None => Err(FsError::IoError),
        }
    }

    /// Writes `data` into the content of the node open as `fh`, at `offset`;
    /// returns the number of bytes written.
    pub fn write(&mut self, fh: u64, offset: u64, data: &[u8]) -> (r: Result<u64, FsError>)
        ensures
            final(self).sb() == old(self).sb(),
            final(self).handles() == old(self).handles(),
            final(self).next_handle() == old(self).next_handle(),
            final(self).capacity() == old(self).capacity(),
            !old(self).handles().contains_key(fh) ==> r == Err::<u64, FsError>(FsError::IoError)
                && final(self).img() == old(self).img(),
            old(self).handles().contains_key(fh) ==> match parse_head(
                old(self).img(),
                old(self).handles()[fh].at() as int,
            ) {
                None => r == Err::<u64, FsError>(FsError::CorruptionError) && final(self).img()
                    == old(self).img(),
                Some(h) => {
                    let at = old(self).handles()[fh].at();
                    let c = crate::node::content_start(at, h);
                    &&& r is Ok <==> c + offset + data@.len() <= old(self).capacity()
                    &&& r is Ok ==> r == Ok::<u64, FsError>(data@.len() as u64) && final(self).img()
                        == crate::disk::written(
                        crate::disk::written(old(self).img(), c + offset, data@),
                        at as int,
                        crate::codec::head_bytes(crate::node::grown_head(h, offset, data@.len() as int)),
                    )
                    &&& r is Err ==> r == Err::<u64, FsError>(FsError::IoError) && final(self).img()
                        == old(self).img()
                },
            },
    {
        let file = match self.opened_files.get(&fh) {
            Some(f) => *f,
            None => return Err(FsError::IoError),
        };
        match file.write(&mut self.disk, offset, data) {
            Ok(()) => Ok(data.len() as u64),
            Err(e) => Err(e),
        }
    }

    /// Closes handle `fh`; `IoError` if it is not open.
    pub fn release(&mut self, fh: u64) -> (r: Result<(), FsError>)
        ensures
            final(self).img() == old(self).img(),
            final(self).sb() == old(self).sb(),
            final(self).capacity() == old(self).capacity(),
            final(self).next_handle() == old(self).next_handle(),
            r is Ok <==> old(self).handles().contains_key(fh),
            r is Ok ==> final(self).handles() == old(self).handles().remove(fh),
            r is Err ==> r == Err::<(), FsError>(FsError::IoError) && final(self).handles() == old(
                self,
            ).handles(),
    {
        if !self.opened_files.contains_key(&fh) {
            return Err(FsError::IoError);
        }
        self.opened_files.remove(&fh);
        Ok(())
    }

    /// Closes directory handle `fh`, as `release` does.
    pub fn releasedir(&mut self, fh: u64) -> (r: Result<(), FsError>)
        ensures
            final(self).img() == old(self).img(),
            final(self).sb() == old(self).sb(),
            final(self).capacity() == old(self).capacity(),
            final(self).next_handle() == old(self).next_handle(),
            r is Ok <==> old(self).handles().contains_key(fh),
            r is Ok ==> final(self).handles() == old(self).handles().remove(fh),
            r is Err ==> r == Err::<(), FsError>(FsError::IoError) && final(self).handles() == old(
                self,
            ).handles(),
    {
        self.release(fh)
    }

    /// Confirms that handle `fh` is open. Every write has already reached the
    /// image; making the image durable is up to whoever holds the medium.
    pub fn fsync(&self, fh: u64) -> (r: Result<(), FsError>)
        ensures
            r is Ok <==> self.handles().contains_key(fh),
            r is Err ==> r == Err::<(), FsError>(FsError::IoError),
    {
        if self.opened_files.contains_key(&fh) {
            Ok(())
        } else {
            Err(FsError::IoError)
        }
    }

    /// Issues the next inode number and persists the superblock.
    pub fn acquire_next_ino(&mut self) -> (r: Result<u64, FsError>)
        ensures
            final(self).handles() == old(self).handles(),
            final(self).next_handle() == old(self).next_handle(),
            final(self).capacity() == old(self).capacity(),
            old(self).sb().next_ino == u64::MAX ==> r == Err::<u64, FsError>(FsError::NoSpace)
                && final(self).sb() == old(self).sb() && final(self).img() == old(self).img(),
            old(self).sb().next_ino < u64::MAX ==> {
                &&& r is Ok <==> SUPERBLOCK_SIZE <= old(self).capacity()
                &&& r matches Ok(ino) ==> ino_step(old(self).sb(), ino, final(self).sb())
                    && final(self).img() == written(old(self).img(), 0, meta_bytes(final(self).sb()))
                &&& r is Err ==> r == Err::<u64, FsError>(FsError::IoError) && final(self).sb()
                    == old(self).sb() && final(self).img() == old(self).img()
            },
    {
        if self.meta.next_ino == u64::MAX {
            return Err(FsError::NoSpace);
        }
        let mut m = self.meta;
        let ino = m.acquire_next_ino();
        match m.sync(&mut self.disk) {
            Ok(()) => {
                self.meta = m;
                Ok(ino)
            },
            Err(e) => Err(e),
        }
    }

    /// Reserves `size` bytes at the next free address, advancing it by `size`
    /// rounded up to the block size, and persists the superblock.
    pub fn reserve(&mut self, size: u64) -> (r: Result<u64, FsError>)
        ensures
            final(self).handles() == old(self).handles(),
            final(self).next_handle() == old(self).next_handle(),
            final(self).capacity() == old(self).capacity(),
            old(self).sb().next_free_address + align_up(size as int, BLOCK_SIZE as int) > u64::MAX
                ==> r == Err::<u64, FsError>(FsError::NoSpace) && final(self).sb() == old(self).sb()
                && final(self).img() == old(self).img(),
            old(self).sb().next_free_address + align_up(size as int, BLOCK_SIZE as int) <= u64::MAX
                ==> {
                &&& r is Ok <==> SUPERBLOCK_SIZE <= old(self).capacity()
                &&& r matches Ok(a) ==> reserve_step(old(self).sb(), size, a, final(self).sb())
                    && final(self).img() == written(old(self).img(), 0, meta_bytes(final(self).sb()))
                &&& r is Err ==> r == Err::<u64, FsError>(FsError::IoError) && final(self).sb()
                    == old(self).sb() && final(self).img() == old(self).img()
            },
    {
        if size > u64::MAX - 511 {
            proof {
                lemma_align_past_max(size as int);
            }
            return Err(FsError::NoSpace);
        }
        proof {
            lemma_align(size as int, 512);
        }
        let step = align(size, BLOCK_SIZE);
        if self.meta.next_free_address > u64::MAX - step {
            return Err(FsError::NoSpace);
        }
        let mut m = self.meta;
        let at = m.reserve(size);
        match m.sync(&mut self.disk) {
            Ok(()) => {
                self.meta = m;
                Ok(at)
            },
            Err(e) => Err(e),
        }
    }

    fn link_target(&self, parent: File, child: u64) -> (r: Result<(File, FileHead), FsError>)
        ensures
            match link_target(self.img(), parent.at(), child) {
                Err(e) => r == Err::<(File, FileHead), FsError>(e),
                Ok(t) => r matches Ok(p) && p.0.at() == t.0 && p.1@ == t.1,
            },
    {
        let mut head = match parent.header(&self.disk) {
            Ok(h) => h,
            Err(e) => return Err(e),
        };
        if head.fixed_sized_part.first_child == 0 {
            head.fixed_sized_part.first_child = child;
            return Ok((parent, head));
        }
        let kids = match chain(&self.disk, head.fixed_sized_part.first_child) {
            Ok(k) => k,
            Err(e) => return Err(e),
        };
        proof {
            lemma_walk_links(self.disk@, head@.fixed.first_child, hop_bound(self.disk@));
        }
        let last = kids[kids.len() - 1];
        assert(last.at() == crate::node::addresses(kids@).last());
        let mut lh = match last.header(&self.disk) {
            Ok(h) => h,
            Err(e) => return Err(e),
        };
        lh.fixed_sized_part.next_sibling = child;
        Ok((last, lh))
    }

    /// Links the record at `child` as the last child of `parent`: sets the
    /// parent's `first_child` if it has no child yet, else the last child's
    /// `next_sibling`, and persists that header.
    pub fn append_child(&mut self, parent: &File, child: u64) -> (r: Result<(), FsError>)
        ensures
            final(self).sb() == old(self).sb(),
            final(self).handles() == old(self).handles(),
            final(self).next_handle() == old(self).next_handle(),
            final(self).capacity() == old(self).capacity(),
            match link_target(old(self).img(), parent.at(), child) {
                Err(e) => r == Err::<(), FsError>(e) && final(self).img() == old(self).img(),
                Ok(t) => {
                    &&& r is Ok <==> t.0 + head_len(t.1) <= old(self).capacity()
                    &&& r is Ok ==> final(self).img() == written(old(self).img(), t.0 as int, head_bytes(t.1))
                    &&& r is Err ==> r == Err::<(), FsError>(FsError::IoError) && final(self).img()
                        == old(self).img()
                },
            },
    {
        let (target, head) = match self.link_target(*parent, child) {
            Ok(t) => t,
            Err(e) => return Err(e),
        };
        target.set_header(&mut self.disk, &head)
    }

    /// Makes a node named `name` of kind `kind` under directory `parent_ino`,
    /// with all four times `now`: reserves an address and an inode number
    /// (persisting the superblock after each), writes the node, and links it
    /// after the parent's last child. Nothing is changed unless the parent
    /// resolves to a directory whose children can be walked and the counters
    /// have room.
    pub fn create_node(&mut self, parent_ino: u64, name: &str, kind: FileTypeDump, now: Timestamp)
        -> (r: Result<(File, FileAttrDump), FsError>)
        ensures
            final(self).handles() == old(self).handles(),
            final(self).next_handle() == old(self).next_handle(),
            final(self).capacity() == old(self).capacity(),
            match create_check(old(self).img(), old(self).sb(), parent_ino, name@) {
                Err(e) => r == Err::<(File, FileAttrDump), FsError>(e) && final(self).img() == old(
                    self,
                ).img() && final(self).sb() == old(self).sb(),
                Ok(t) => {
                    let m = old(self).sb();
                    let h = new_head(name@, kind, m.next_ino, now);
                    &&& r is Ok <==> SUPERBLOCK_SIZE <= old(self).capacity() && m.next_free_address
                        + head_len(h) <= old(self).capacity() && t.0 + head_len(t.1) <= old(
                        self,
                    ).capacity()
                    &&& r matches Ok(p) ==> p.0.at() == m.next_free_address && p.1
                        == h.fixed.file_attr && final(self).sb() == meta_after_create(m, name@)
                        && final(self).img() == image_after_create(
                        old(self).img(),
                        m,
                        name@,
                        kind,
                        now,
                        t,
                    )
                    &&& r is Err ==> r == Err::<(File, FileAttrDump), FsError>(FsError::IoError)
                },
            },
    {
        proof {
            reveal(image_after_create);
            reveal(create_check);
        }
        let ghost img0 = self.disk@;
        let ghost m0 = self.meta;
        let parent = match self.find_file(parent_ino) {
            Ok(f) => f,
            Err(e) => return Err(e),
        };
        proof {
            let h = parse_head(img0, ROOT_ADDRESS as int)->0;
            lemma_search_found(img0, h.fixed.first_child, parent_ino, hop_bound(img0));
        }
        let ph = match parent.header(&self.disk) {
            Ok(h) => h,
            Err(e) => return Err(e),
        };
        if ph.fixed_sized_part.file_attr.kind != FileTypeDump::Directory {
            return Err(FsError::NotADirectory);
        }
        let addr = self.meta.next_free_address;
        let (target, th) = match self.link_target(parent, addr) {
            Ok(t) => t,
            Err(e) => return Err(e),
        };
        let name_len = name.as_bytes().len() as u64;
        if name_len > u64::MAX - 122 - 511 {
            proof {
                lemma_align_past_max(head_size(name@));
            }
            return Err(FsError::NoSpace);
        }
        let size = 122 + name_len;
        proof {
            lemma_align(size as int, 512);
        }
        let step = align(size, BLOCK_SIZE);
        if self.meta.next_ino == u64::MAX || self.meta.next_free_address > u64::MAX - step {
            return Err(FsError::NoSpace);
        }
        let mut head = FileHead::new();
        head.filename = name.to_owned();
        head.fixed_sized_part.file_attr.blocks = step / BLOCK_SIZE;
        head.fixed_sized_part.file_attr.kind = kind;
        head.fixed_sized_part.file_attr.atime = now;
        head.fixed_sized_part.file_attr.mtime = now;
        head.fixed_sized_part.file_attr.ctime = now;
        head.fixed_sized_part.file_attr.crtime = now;
        let at = match self.reserve(size) {
            Ok(a) => a,
            Err(e) => return Err(e),
        };
        let ino = match self.acquire_next_ino() {
            Ok(i) => i,
            Err(e) => return Err(e),
        };
        head.fixed_sized_part.file_attr.ino = ino;
        let node = File::new(at);
        match node.set_header(&mut self.disk, &head) {
            Ok(()) => {},
            Err(e) => return Err(e),
        }
        match target.set_header(&mut self.disk, &th) {
            Ok(()) => {},
            Err(e) => return Err(e),
        }
        assert(head@ == new_head(name@, kind, m0.next_ino, now));
        Ok((node, head.fixed_sized_part.file_attr))
    }

    /// Writes a fresh superblock and an empty root directory (inode 1, empty
    /// name, times `now`) at the root address, discarding what the image held.
    pub fn init_filesystem(&mut self, now: Timestamp) -> (r: Result<(), FsError>)
        ensures
            final(self).handles() == old(self).handles(),
            final(self).next_handle() == old(self).next_handle(),
            final(self).capacity() == old(self).capacity(),
            r is Ok <==> ROOT_ADDRESS + HEAD_PREFIX_SIZE <= old(self).capacity(),
            r is Ok ==> final(self).sb() == initial_meta() && final(self).img() == initial_image(
                old(self).img(),
                now,
            ),
            r is Err ==> r == Err::<(), FsError>(FsError::IoError),
    {
        proof {
            reveal(initial_image);
        }
        self.meta = DumbFsMeta::default();
        let ino = match self.acquire_next_ino() {
            Ok(i) => i,
            Err(e) => return Err(e),
        };
        proof {
            lemma_align(HEAD_PREFIX_SIZE as int, 512);
        }
        let at = match self.reserve(HEAD_PREFIX_SIZE) {
            Ok(a) => a,
            Err(e) => return Err(e),
        };
        let mut root = FileHead::new();
        root.fixed_sized_part.file_attr.ino = ino;
        root.fixed_sized_part.file_attr.blocks = 1;
        root.fixed_sized_part.file_attr.atime = now;
        root.fixed_sized_part.file_attr.mtime = now;
        root.fixed_sized_part.file_attr.ctime = now;
        root.fixed_sized_part.file_attr.crtime = now;
        proof {
            vstd::utf8::encode_utf8_decode_utf8(Seq::<char>::empty());
            assert(encode_utf8(Seq::<char>::empty()).len() == 0) by {
                reveal_with_fuel(encode_utf8, 1);
            }
            assert(root@ == new_head(Seq::empty(), FileTypeDump::Directory, 1, now));
        }
        File::new(at).set_header(&mut self.disk, &root)
    }

    /// Loads the superblock, or, when it is absent or its marker does not
    /// match, initializes a fresh filesystem with times `now`.
    pub fn init_at(&mut self, now: Timestamp) -> (r: Result<(), FsError>)
        ensures
            final(self).handles() == old(self).handles(),
            final(self).next_handle() == old(self).next_handle(),
            final(self).capacity() == old(self).capacity(),
            match crate::meta::loaded_meta(old(self).img()) {
                Some(m) => r == Ok::<(), FsError>(()) && final(self).sb() == m && final(self).img()
                    == old(self).img(),
                None => {
                    &&& r is Ok <==> ROOT_ADDRESS + HEAD_PREFIX_SIZE <= old(self).capacity()
                    &&& r is Ok ==> final(self).sb() == initial_meta() && final(self).img()
                        == initial_image(old(self).img(), now)
                    &&& r is Err ==> r == Err::<(), FsError>(FsError::IoError)
                },
            },
    {
        match DumbFsMeta::load(&self.disk) {
            Ok(m) => {
                self.meta = m;
                Ok(())
            },
            Err(_) => self.init_filesystem(now),
        }
    }

    /// `init_at` with the current time.
    pub fn init(&mut self) -> (r: Result<(), FsError>)
        ensures
            final(self).handles() == old(self).handles(),
            final(self).next_handle() == old(self).next_handle(),
            final(self).capacity() == old(self).capacity(),
            match crate::meta::loaded_meta(old(self).img()) {
                Some(m) => r == Ok::<(), FsError>(()) && final(self).sb() == m && final(self).img()
                    == old(self).img(),
                None => {
                    &&& r is Ok <==> ROOT_ADDRESS + HEAD_PREFIX_SIZE <= old(self).capacity()
                    &&& r is Ok ==> final(self).sb() == initial_meta() && exists|now: Timestamp|
                        final(self).img() == #[trigger] initial_image(old(self).img(), now)
                    &&& r is Err ==> r == Err::<(), FsError>(FsError::IoError)
                },
            },
    {
        let now = clock_now();
        let r = self.init_at(now);
        assert(r is Ok && crate::meta::loaded_meta(old(self).img()) is None ==> self.img()
            == initial_image(old(self).img(), now));
        r
    }

    /// Makes a node of kind `kind` named `name` under `parent` (see
    /// `create_node`), stamped with the current time, and opens it.
    /// `NoSpace` once the node is made if no handle number is left.
    pub fn create(&mut self, parent: u64, name: &str, kind: FileTypeDump) -> (r: Result<(u64, FileAttrDump), FsError>)
        ensures
            final(self).capacity() == old(self).capacity(),
            match create_check(old(self).img(), old(self).sb(), parent, name@) {
                Err(e) => r == Err::<(u64, FileAttrDump), FsError>(e) && final(self).img() == old(
                    self,
                ).img() && final(self).sb() == old(self).sb() && final(self).handles() == old(
                    self,
                ).handles() && final(self).next_handle() == old(self).next_handle(),
                Ok(t) => {
                    let m = old(self).sb();
                    &&& r is Ok <==> SUPERBLOCK_SIZE <= old(self).capacity() && m.next_free_address
                        + head_size(name@) <= old(self).capacity() && t.0 + head_len(t.1) <= old(
                        self,
                    ).capacity() && old(self).next_handle() < u64::MAX
                    &&& r is Err ==> r == Err::<(u64, FileAttrDump), FsError>(FsError::IoError) || r
                        == Err::<(u64, FileAttrDump), FsError>(FsError::NoSpace)
                    &&& r matches Ok(p) ==> exists|now: Timestamp| {
                        &&& final(self).img() == #[trigger] image_after_create(
                            old(self).img(),
                            m,
                            name@,
                            kind,
                            now,
                            t,
                        )
                        &&& p.1 == new_head(name@, kind, m.next_ino, now).fixed.file_attr
                    }
                    &&& r matches Ok(p) ==> {
                        &&& final(self).sb() == meta_after_create(m, name@)
                        &&& p.0 == old(self).next_handle()
                        &&& final(self).next_handle() == old(self).next_handle() + 1
                        &&& final(self).handles() == old(self).handles().insert(
                            p.0,
                            final(self).handles()[p.0],
                        )
                        &&& final(self).handles()[p.0].at() == m.next_free_address
                    }
                },
            },
    {
        let now = clock_now();
        let (node, attr) = match self.create_node(parent, name, kind, now) {
            Ok(p) => p,
            Err(e) => return Err(e),
        };
        if self.next_file_handler == u64::MAX {
            return Err(FsError::NoSpace);
        }
        let fh = self.next_file_handler;
        self.next_file_handler = fh + 1;
        self.opened_files.insert(fh, node);
        proof {
            assert(self.opened_files@ =~= old(self).opened_files@.insert(fh, self.opened_files@[fh]));
        }
        Ok((fh, attr))
    }

    /// Makes a directory named `name` under `parent` (see `create_node`),
    /// stamped with the current time.
    pub fn mkdir(&mut self, parent: u64, name: &str) -> (r: Result<FileAttrDump, FsError>)
        ensures
            final(self).handles() == old(self).handles(),
            final(self).next_handle() == old(self).next_handle(),
            final(self).capacity() == old(self).capacity(),
            match create_check(old(self).img(), old(self).sb(), parent, name@) {
                Err(e) => r == Err::<FileAttrDump, FsError>(e) && final(self).img() == old(
                    self,
                ).img() && final(self).sb() == old(self).sb(),
                Ok(t) => {
                    let m = old(self).sb();
                    &&& r is Ok <==> SUPERBLOCK_SIZE <= old(self).capacity() && m.next_free_address
                        + head_size(name@) <= old(self).capacity() && t.0 + head_len(t.1) <= old(
                        self,
                    ).capacity()
                    &&& r is Err ==> r == Err::<FileAttrDump, FsError>(FsError::IoError)
                    &&& r matches Ok(a) ==> final(self).sb() == meta_after_create(m, name@)
                        && exists|now: Timestamp| {
                        &&& final(self).img() == #[trigger] image_after_create(
                            old(self).img(),
                            m,
                            name@,
                            FileTypeDump::Directory,
                            now,
                            t,
                        )
                        &&& a == new_head(name@, FileTypeDump::Directory, m.next_ino, now).fixed.file_attr
                    }
                },
            },
    {
        let now = clock_now();
        match self.create_node(parent, name, FileTypeDump::Directory, now) {
            Ok(p) => Ok(p.1),
            Err(e) => Err(e),
        }
    }
}

} // verus!
