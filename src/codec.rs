use vstd::prelude::*;
use vstd::utf8::{decode_utf8, encode_utf8, valid_utf8};

use crate::error::FsError;

verus! {

/// Encoded size of an `FileAttrDump`.
pub const ATTR_SIZE: u64 = 98;

/// Encoded size of a `FileMetaFixedSizedPart`.
pub const FIXED_SIZE: u64 = 114;

/// Encoded size of the fixed part followed by a name's length prefix.
pub const HEAD_PREFIX_SIZE: u64 = 122;

/// A point in time: seconds and nanoseconds since the Unix epoch.
#[derive(Clone, Copy, Debug, PartialEq, Eq, Structural)]
pub struct Timestamp {
    pub secs: u64,
    pub nanos: u32,
}

/// The kind of a node.
#[derive(Clone, Copy, Debug, PartialEq, Eq, Structural)]
pub enum FileTypeDump {
    Directory,
    RegularFile,
    Symlink,
}

/// The attributes that a node stores.
#[derive(Clone, Copy, Debug, PartialEq, Eq, Structural)]
pub struct FileAttrDump {
    pub ino: u64,
    pub size: u64,
    pub blocks: u64,
    pub atime: Timestamp,
    pub mtime: Timestamp,
    pub ctime: Timestamp,
    pub crtime: Timestamp,
    pub kind: FileTypeDump,
    pub perm: u16,
    pub nlink: u32,
    pub uid: u32,
    pub gid: u32,
    pub rdev: u32,
    pub flags: u32,
}

/// The fixed-size part of a node record: its two links and its attributes.
/// A link of 0 means "none".
#[derive(Clone, Copy, Debug, PartialEq, Eq, Structural)]
pub struct FileMetaFixedSizedPart {
    pub first_child: u64,
    pub next_sibling: u64,
    pub file_attr: FileAttrDump,
}

/// The header of a node record: the fixed part and the node's name.
#[derive(Debug)]
pub struct FileHead {
    pub fixed_sized_part: FileMetaFixedSizedPart,
    pub filename: String,
}

/// What a `FileHead` holds, with the name as characters.
pub struct HeadView {
    pub fixed: FileMetaFixedSizedPart,
    pub name: Seq<char>,
}

impl View for FileHead {
    type V = HeadView;

    open spec fn view(&self) -> HeadView {
        HeadView { fixed: self.fixed_sized_part, name: self.filename@ }
    }
}

/// The two bytes of `x`, least significant first.
pub open spec fn u16_le(x: u16) -> Seq<u8> {
    seq![x as u8, (x >> 8u16) as u8]
}

/// The four bytes of `x`, least significant first.
pub open spec fn u32_le(x: u32) -> Seq<u8> {
    seq![x as u8, (x >> 8u32) as u8, (x >> 16u32) as u8, (x >> 24u32) as u8]
}

/// The eight bytes of `x`, least significant first.
pub open spec fn u64_le(x: u64) -> Seq<u8> {
    seq![
        x as u8,
        (x >> 8u64) as u8,
        (x >> 16u64) as u8,
        (x >> 24u64) as u8,
        (x >> 32u64) as u8,
        (x >> 40u64) as u8,
        (x >> 48u64) as u8,
        (x >> 56u64) as u8,
    ]
}

/// The little-endian `u16` stored at `s[at..at + 2]`.
#[verifier::opaque]
pub open spec fn u16_at(s: Seq<u8>, at: int) -> u16 {
    (s[at] as u16) | ((s[at + 1] as u16) << 8u16)
}

/// The little-endian `u32` stored at `s[at..at + 4]`.
#[verifier::opaque]
pub open spec fn u32_at(s: Seq<u8>, at: int) -> u32 {
    (s[at] as u32) | ((s[at + 1] as u32) << 8u32) | ((s[at + 2] as u32) << 16u32) | ((s[at
        + 3] as u32) << 24u32)
}

/// The little-endian `u64` stored at `s[at..at + 8]`.
#[verifier::opaque]
pub open spec fn u64_at(s: Seq<u8>, at: int) -> u64 {
    (s[at] as u64) | ((s[at + 1] as u64) << 8u64) | ((s[at + 2] as u64) << 16u64) | ((s[at
        + 3] as u64) << 24u64) | ((s[at + 4] as u64) << 32u64) | ((s[at + 5] as u64) << 40u64)
        | ((s[at + 6] as u64) << 48u64) | ((s[at + 7] as u64) << 56u64)
}

proof fn lemma_u16_at(s: Seq<u8>, at: int, x: u16)
    requires
        0 <= at,
        at + 2 <= s.len(),
        forall|i: int| 0 <= i < 2 ==> s[at + i] == #[trigger] u16_le(x)[i],
    ensures
        u16_at(s, at) == x,
{
    reveal(u16_at);
    assert(s[at] == u16_le(x)[0] && s[at + 1] == u16_le(x)[1]);
    let (b0, b1) = (x as u8, (x >> 8u16) as u8);
    assert(((b0 as u16) | ((b1 as u16) << 8u16)) == x) by (bit_vector)
        requires
            b0 == x as u8,
            b1 == (x >> 8u16) as u8,
    ;
}

proof fn lemma_u32_at(s: Seq<u8>, at: int, x: u32)
    requires
        0 <= at,
        at + 4 <= s.len(),
        forall|i: int| 0 <= i < 4 ==> s[at + i] == #[trigger] u32_le(x)[i],
    ensures
        u32_at(s, at) == x,
{
    reveal(u32_at);
    assert(s[at] == u32_le(x)[0] && s[at + 1] == u32_le(x)[1]);
    assert(s[at + 2] == u32_le(x)[2] && s[at + 3] == u32_le(x)[3]);
    let (b0, b1, b2, b3) = (x as u8, (x >> 8u32) as u8, (x >> 16u32) as u8, (x >> 24u32) as u8);
    assert(((b0 as u32) | ((b1 as u32) << 8u32) | ((b2 as u32) << 16u32) | ((b3 as u32)
        << 24u32)) == x) by (bit_vector)
        requires
            b0 == x as u8,
            b1 == (x >> 8u32) as u8,
            b2 == (x >> 16u32) as u8,
            b3 == (x >> 24u32) as u8,
    ;
}

proof fn lemma_u64_at(s: Seq<u8>, at: int, x: u64)
    requires
        0 <= at,
        at + 8 <= s.len(),
        forall|i: int| 0 <= i < 8 ==> s[at + i] == #[trigger] u64_le(x)[i],
    ensures
        u64_at(s, at) == x,
{
    reveal(u64_at);
    assert(s[at] == u64_le(x)[0] && s[at + 1] == u64_le(x)[1]);
    assert(s[at + 2] == u64_le(x)[2] && s[at + 3] == u64_le(x)[3]);
    assert(s[at + 4] == u64_le(x)[4] && s[at + 5] == u64_le(x)[5]);
    assert(s[at + 6] == u64_le(x)[6] && s[at + 7] == u64_le(x)[7]);
    let (b0, b1, b2, b3) = (x as u8, (x >> 8u64) as u8, (x >> 16u64) as u8, (x >> 24u64) as u8);
    let (b4, b5, b6, b7) = (
        (x >> 32u64) as u8,
        (x >> 40u64) as u8,
        (x >> 48u64) as u8,
        (x >> 56u64) as u8,
    );
    assert(((b0 as u64) | ((b1 as u64) << 8u64) | ((b2 as u64) << 16u64) | ((b3 as u64)
        << 24u64) | ((b4 as u64) << 32u64) | ((b5 as u64) << 40u64) | ((b6 as u64) << 48u64) | ((
    b7 as u64) << 56u64)) == x) by (bit_vector)
        requires
            b0 == x as u8,
            b1 == (x >> 8u64) as u8,
            b2 == (x >> 16u64) as u8,
            b3 == (x >> 24u64) as u8,
            b4 == (x >> 32u64) as u8,
            b5 == (x >> 40u64) as u8,
            b6 == (x >> 48u64) as u8,
            b7 == (x >> 56u64) as u8,
    ;
}

/// The 4-byte discriminant that encodes a kind.
pub open spec fn kind_code(k: FileTypeDump) -> u32 {
    match k {
        FileTypeDump::Directory => 0,
        FileTypeDump::RegularFile => 1,
        FileTypeDump::Symlink => 2,
    }
}

/// The kind that a discriminant encodes, if any.
pub open spec fn kind_of(c: u32) -> Option<FileTypeDump> {
    if c == 0 {
        Some(FileTypeDump::Directory)
    } else if c == 1 {
        Some(FileTypeDump::RegularFile)
    } else if c == 2 {
        Some(FileTypeDump::Symlink)
    } else {
        None
    }
}

/// A timestamp: seconds (8 bytes) then nanoseconds (4 bytes).
pub open spec fn ts_bytes(t: Timestamp) -> Seq<u8> {
    u64_le(t.secs) + u32_le(t.nanos)
}

/// The inode number, size and block count (24 bytes).
pub open spec fn attr_counts_bytes(a: FileAttrDump) -> Seq<u8> {
    u64_le(a.ino) + u64_le(a.size) + u64_le(a.blocks)
}

/// The four timestamps (48 bytes).
pub open spec fn attr_times_bytes(a: FileAttrDump) -> Seq<u8> {
    ts_bytes(a.atime) + ts_bytes(a.mtime) + ts_bytes(a.ctime) + ts_bytes(a.crtime)
}

/// The kind, permissions, link count, owner, group, device and flags (26 bytes).
pub open spec fn attr_tail_bytes(a: FileAttrDump) -> Seq<u8> {
    u32_le(kind_code(a.kind)) + u16_le(a.perm) + u32_le(a.nlink) + u32_le(a.uid) + u32_le(a.gid)
        + u32_le(a.rdev) + u32_le(a.flags)
}

/// The encoding of attributes: every field in declaration order, little-endian.
pub open spec fn attr_bytes(a: FileAttrDump) -> Seq<u8> {
    attr_counts_bytes(a) + attr_times_bytes(a) + attr_tail_bytes(a)
}

/// The encoding of a fixed part: the two links, then the attributes.
pub open spec fn fixed_bytes(f: FileMetaFixedSizedPart) -> Seq<u8> {
    u64_le(f.first_child) + u64_le(f.next_sibling) + attr_bytes(f.file_attr)
}

/// The UTF-8 bytes of a name, after an 8-byte length prefix.
pub open spec fn name_bytes(name: Seq<char>) -> Seq<u8> {
    u64_le(encode_utf8(name).len() as u64) + encode_utf8(name)
}

/// The encoding of a header: its fixed part, then its name.
pub open spec fn head_bytes(h: HeadView) -> Seq<u8> {
    fixed_bytes(h.fixed) + name_bytes(h.name)
}

/// The encoded size of a header.
pub open spec fn head_len(h: HeadView) -> int {
    HEAD_PREFIX_SIZE + encode_utf8(h.name).len()
}

/// The timestamp stored at `s[at..at + 12]`.
pub open spec fn ts_at(s: Seq<u8>, at: int) -> Timestamp {
    Timestamp { secs: u64_at(s, at), nanos: u32_at(s, at + 8) }
}

/// The attributes decoded from `s` at `at`: none when the region is short or
/// the kind's discriminant is unknown.
pub open spec fn parse_attr(s: Seq<u8>, at: int) -> Option<FileAttrDump> {
    if at < 0 || at + ATTR_SIZE > s.len() {
        None
    } else {
        match kind_of(u32_at(s, at + 72)) {
            None => None,
            Some(kind) => Some(
                FileAttrDump {
                    ino: u64_at(s, at),
                    size: u64_at(s, at + 8),
                    blocks: u64_at(s, at + 16),
                    atime: ts_at(s, at + 24),
                    mtime: ts_at(s, at + 36),
                    ctime: ts_at(s, at + 48),
                    crtime: ts_at(s, at + 60),
                    kind,
                    perm: u16_at(s, at + 76),
                    nlink: u32_at(s, at + 78),
                    uid: u32_at(s, at + 82),
                    gid: u32_at(s, at + 86),
                    rdev: u32_at(s, at + 90),
                    flags: u32_at(s, at + 94),
                },
            ),
        }
    }
}

/// The fixed part decoded from `s` at `at`.
pub open spec fn parse_fixed(s: Seq<u8>, at: int) -> Option<FileMetaFixedSizedPart> {
    if at < 0 || at + FIXED_SIZE > s.len() {
        None
    } else {
        match parse_attr(s, at + 16) {
            None => None,
            Some(a) => Some(
                FileMetaFixedSizedPart {
                    first_child: u64_at(s, at),
                    next_sibling: u64_at(s, at + 8),
                    file_attr: a,
                },
            ),
        }
    }
}

/// The header decoded from `s` at `at`: none when a part is short, the kind is
/// unknown, or the name is not well-formed UTF-8.
#[verifier::opaque]
pub open spec fn parse_head(s: Seq<u8>, at: int) -> Option<HeadView> {
    if at < 0 || at + HEAD_PREFIX_SIZE > s.len() {
        None
    } else {
        match parse_fixed(s, at) {
            None => None,
            Some(f) => {
                let n = u64_at(s, at + FIXED_SIZE);
                if at + HEAD_PREFIX_SIZE + n > s.len() {
                    None
                } else {
                    let nb = s.subrange(at + HEAD_PREFIX_SIZE, at + HEAD_PREFIX_SIZE + n);
                    if valid_utf8(nb) {
                        Some(HeadView { fixed: f, name: decode_utf8(nb) })
                    } else {
                        None
                    }
                }
            },
        }
    }
}

proof fn lemma_ts_at(s: Seq<u8>, at: int, t: Timestamp)
    requires
        0 <= at,
        at + 12 <= s.len(),
        forall|i: int| 0 <= i < 12 ==> s[at + i] == #[trigger] ts_bytes(t)[i],
    ensures
        ts_at(s, at) == t,
{
    assert forall|i: int| 0 <= i < 8 implies s[at + i] == #[trigger] u64_le(t.secs)[i] by {
        assert(ts_bytes(t)[i] == u64_le(t.secs)[i]);
    }
    assert forall|i: int| 0 <= i < 4 implies s[at + 8 + i] == #[trigger] u32_le(t.nanos)[i] by {
        assert(ts_bytes(t)[8 + i] == u32_le(t.nanos)[i]);
    }
    lemma_u64_at(s, at, t.secs);
    lemma_u32_at(s, at + 8, t.nanos);
}

proof fn lemma_counts_at(s: Seq<u8>, at: int, a: FileAttrDump)
    requires
        0 <= at,
        at + 24 <= s.len(),
        forall|i: int| 0 <= i < 24 ==> s[at + i] == #[trigger] attr_counts_bytes(a)[i],
    ensures
        u64_at(s, at) == a.ino,
        u64_at(s, at + 8) == a.size,
        u64_at(s, at + 16) == a.blocks,
{
    let e = attr_counts_bytes(a);
    assert forall|i: int| 0 <= i < 8 implies s[at + i] == #[trigger] u64_le(a.ino)[i] by {
        assert(e[i] == u64_le(a.ino)[i]);
    }
    assert forall|i: int| 0 <= i < 8 implies s[at + 8 + i] == #[trigger] u64_le(a.size)[i] by {
        assert(e[8 + i] == u64_le(a.size)[i]);
    }
    assert forall|i: int| 0 <= i < 8 implies s[at + 16 + i] == #[trigger] u64_le(a.blocks)[i] by {
        assert(e[16 + i] == u64_le(a.blocks)[i]);
    }
    lemma_u64_at(s, at, a.ino);
    lemma_u64_at(s, at + 8, a.size);
    lemma_u64_at(s, at + 16, a.blocks);
}

proof fn lemma_times_at(s: Seq<u8>, at: int, a: FileAttrDump)
    requires
        0 <= at,
        at + 48 <= s.len(),
        forall|i: int| 0 <= i < 48 ==> s[at + i] == #[trigger] attr_times_bytes(a)[i],
    ensures
        ts_at(s, at) == a.atime,
        ts_at(s, at + 12) == a.mtime,
        ts_at(s, at + 24) == a.ctime,
        ts_at(s, at + 36) == a.crtime,
{
    let e = attr_times_bytes(a);
    assert forall|i: int| 0 <= i < 12 implies s[at + i] == #[trigger] ts_bytes(a.atime)[i] by {
        assert(e[i] == ts_bytes(a.atime)[i]);
    }
    assert forall|i: int| 0 <= i < 12 implies s[at + 12 + i] == #[trigger] ts_bytes(a.mtime)[i] by {
        assert(e[12 + i] == ts_bytes(a.mtime)[i]);
    }
    assert forall|i: int| 0 <= i < 12 implies s[at + 24 + i] == #[trigger] ts_bytes(a.ctime)[i] by {
        assert(e[24 + i] == ts_bytes(a.ctime)[i]);
    }
    assert forall|i: int| 0 <= i < 12 implies s[at + 36 + i] == #[trigger] ts_bytes(a.crtime)[i] by {
        assert(e[36 + i] == ts_bytes(a.crtime)[i]);
    }
    lemma_ts_at(s, at, a.atime);
    lemma_ts_at(s, at + 12, a.mtime);
    lemma_ts_at(s, at + 24, a.ctime);
    lemma_ts_at(s, at + 36, a.crtime);
}

proof fn lemma_tail_at(s: Seq<u8>, at: int, a: FileAttrDump)
    requires
        0 <= at,
        at + 26 <= s.len(),
        forall|i: int| 0 <= i < 26 ==> s[at + i] == #[trigger] attr_tail_bytes(a)[i],
    ensures
        u32_at(s, at) == kind_code(a.kind),
        u16_at(s, at + 4) == a.perm,
        u32_at(s, at + 6) == a.nlink,
        u32_at(s, at + 10) == a.uid,
        u32_at(s, at + 14) == a.gid,
        u32_at(s, at + 18) == a.rdev,
        u32_at(s, at + 22) == a.flags,
{
    let e = attr_tail_bytes(a);
    assert forall|i: int| 0 <= i < 4 implies s[at + i] == #[trigger] u32_le(kind_code(a.kind))[i] by {
        assert(e[i] == u32_le(kind_code(a.kind))[i]);
    }
    assert forall|i: int| 0 <= i < 2 implies s[at + 4 + i] == #[trigger] u16_le(a.perm)[i] by {
        assert(e[4 + i] == u16_le(a.perm)[i]);
    }
    assert forall|i: int| 0 <= i < 4 implies s[at + 6 + i] == #[trigger] u32_le(a.nlink)[i] by {
        assert(e[6 + i] == u32_le(a.nlink)[i]);
    }
    assert forall|i: int| 0 <= i < 4 implies s[at + 10 + i] == #[trigger] u32_le(a.uid)[i] by {
        assert(e[10 + i] == u32_le(a.uid)[i]);
    }
    assert forall|i: int| 0 <= i < 4 implies s[at + 14 + i] == #[trigger] u32_le(a.gid)[i] by {
        assert(e[14 + i] == u32_le(a.gid)[i]);
    }
    assert forall|i: int| 0 <= i < 4 implies s[at + 18 + i] == #[trigger] u32_le(a.rdev)[i] by {
        assert(e[18 + i] == u32_le(a.rdev)[i]);
    }
    assert forall|i: int| 0 <= i < 4 implies s[at + 22 + i] == #[trigger] u32_le(a.flags)[i] by {
        assert(e[22 + i] == u32_le(a.flags)[i]);
    }
    lemma_u32_at(s, at, kind_code(a.kind));
    lemma_u16_at(s, at + 4, a.perm);
    lemma_u32_at(s, at + 6, a.nlink);
    lemma_u32_at(s, at + 10, a.uid);
    lemma_u32_at(s, at + 14, a.gid);
    lemma_u32_at(s, at + 18, a.rdev);
    lemma_u32_at(s, at + 22, a.flags);
}

/// Attribute round trip: the attributes decoded from wherever an encoding of
/// `a` is stored are `a`, and every encoding has the same size.
pub proof fn lemma_attr_round_trip(s: Seq<u8>, at: int, a: FileAttrDump)
    requires
        0 <= at,
        at + ATTR_SIZE <= s.len(),
        s.subrange(at, at + ATTR_SIZE) == attr_bytes(a),
    ensures
        parse_attr(s, at) == Some(a),
        attr_bytes(a).len() == ATTR_SIZE,
{
    let e = attr_bytes(a);
    let (c, t, r) = (attr_counts_bytes(a), attr_times_bytes(a), attr_tail_bytes(a));
    assert(e.len() == ATTR_SIZE);
    assert forall|i: int| 0 <= i < ATTR_SIZE implies s[at + i] == e[i] by {
        assert(s.subrange(at, at + ATTR_SIZE)[i] == s[at + i]);
    }
    assert forall|i: int| 0 <= i < 24 implies s[at + i] == #[trigger] c[i] by {
        assert(e[i] == c[i]);
    }
    assert forall|i: int| 0 <= i < 48 implies s[at + 24 + i] == #[trigger] t[i] by {
        assert(e[24 + i] == t[i]);
    }
    assert forall|i: int| 0 <= i < 26 implies s[at + 72 + i] == #[trigger] r[i] by {
        assert(e[72 + i] == r[i]);
    }
    lemma_counts_at(s, at, a);
    lemma_times_at(s, at + 24, a);
    lemma_tail_at(s, at + 72, a);
}

/// Fixed-part round trip: the fixed part decoded where an encoding of `f` is
/// stored is `f`.
pub proof fn lemma_fixed_round_trip(s: Seq<u8>, at: int, f: FileMetaFixedSizedPart)
    requires
        0 <= at,
        at + FIXED_SIZE <= s.len(),
        s.subrange(at, at + FIXED_SIZE) == fixed_bytes(f),
    ensures
        parse_fixed(s, at) == Some(f),
{
    let e = fixed_bytes(f);
    let a = attr_bytes(f.file_attr);
    assert(a.len() == ATTR_SIZE);
    assert forall|i: int| 0 <= i < FIXED_SIZE implies s[at + i] == e[i] by {
        assert(s.subrange(at, at + FIXED_SIZE)[i] == s[at + i]);
    }
    assert forall|i: int| 0 <= i < 8 implies s[at + i] == #[trigger] u64_le(f.first_child)[i] by {
        assert(e[i] == u64_le(f.first_child)[i]);
    }
    assert forall|i: int| 0 <= i < 8 implies s[at + 8 + i] == #[trigger] u64_le(
        f.next_sibling,
    )[i] by {
        assert(e[8 + i] == u64_le(f.next_sibling)[i]);
    }
    lemma_u64_at(s, at, f.first_child);
    lemma_u64_at(s, at + 8, f.next_sibling);
    assert(s.subrange(at + 16, at + FIXED_SIZE) =~= a) by {
        assert forall|i: int| 0 <= i < ATTR_SIZE implies s.subrange(at + 16, at + FIXED_SIZE)[i]
            == a[i] by {
            assert(e[16 + i] == a[i]);
        }
    }
    lemma_attr_round_trip(s, at + 16, f.file_attr);
}

/// Header round trip: the header decoded where an encoding of `h` is stored is
/// `h`.
pub proof fn lemma_head_round_trip(s: Seq<u8>, at: int, h: HeadView)
    requires
        0 <= at,
        at + head_len(h) <= s.len(),
        head_len(h) <= u64::MAX,
        s.subrange(at, at + head_len(h)) == head_bytes(h),
    ensures
        parse_head(s, at) == Some(h),
        head_bytes(h).len() == head_len(h),
{
    reveal(parse_head);
    let e = head_bytes(h);
    let fb = fixed_bytes(h.fixed);
    let nb = encode_utf8(h.name);
    let n = nb.len();
    assert(attr_bytes(h.fixed.file_attr).len() == ATTR_SIZE);
    assert(fb.len() == FIXED_SIZE);
    assert(e.len() == head_len(h));
    assert forall|i: int| 0 <= i < head_len(h) implies s[at + i] == e[i] by {
        assert(s.subrange(at, at + head_len(h))[i] == s[at + i]);
    }
    assert(s.subrange(at, at + FIXED_SIZE) =~= fb) by {
        assert forall|i: int| 0 <= i < FIXED_SIZE implies s.subrange(at, at + FIXED_SIZE)[i]
            == fb[i] by {
            assert(e[i] == fb[i]);
        }
    }
    lemma_fixed_round_trip(s, at, h.fixed);
    assert forall|i: int| 0 <= i < 8 implies s[at + FIXED_SIZE + i] == #[trigger] u64_le(
        n as u64,
    )[i] by {
        assert(e[FIXED_SIZE + i] == u64_le(n as u64)[i]);
    }
    lemma_u64_at(s, at + FIXED_SIZE, n as u64);
    assert(s.subrange(at + HEAD_PREFIX_SIZE, at + HEAD_PREFIX_SIZE + n) =~= nb) by {
        assert forall|i: int| 0 <= i < n implies s.subrange(
            at + HEAD_PREFIX_SIZE,
            at + HEAD_PREFIX_SIZE + n,
        )[i] == nb[i] by {
            assert(e[HEAD_PREFIX_SIZE + i] == nb[i]);
        }
    }
    vstd::utf8::encode_utf8_valid_utf8(h.name);
    vstd::utf8::encode_utf8_decode_utf8(h.name);
}

/// The encoding of a header is as long as `head_len` says.
pub proof fn lemma_head_bytes_len(h: HeadView)
    ensures
        head_bytes(h).len() == head_len(h),
        fixed_bytes(h.fixed).len() == FIXED_SIZE,
{
    assert(attr_bytes(h.fixed.file_attr).len() == ATTR_SIZE);
}

/// A decoded header occupies `head_len` bytes from its address, and its name
/// bytes are the ones the length prefix delimits.
pub proof fn lemma_parsed_head(s: Seq<u8>, at: int)
    requires
        parse_head(s, at) is Some,
    ensures
        at + head_len(parse_head(s, at)->0) <= s.len(),
        head_len(parse_head(s, at)->0) == HEAD_PREFIX_SIZE + u64_at(s, at + FIXED_SIZE),
        encode_utf8(parse_head(s, at)->0.name) == s.subrange(
            at + HEAD_PREFIX_SIZE,
            at + HEAD_PREFIX_SIZE + u64_at(s, at + FIXED_SIZE),
        ),
{
    reveal(parse_head);
    let n = u64_at(s, at + FIXED_SIZE);
    let nb = s.subrange(at + HEAD_PREFIX_SIZE, at + HEAD_PREFIX_SIZE + n);
    vstd::utf8::decode_utf8_encode_utf8(nb);
}

/// A header decodes from its own bytes alone: another image that holds the
/// same bytes over the header's extent decodes the same header there.
pub proof fn lemma_parse_local(s1: Seq<u8>, s2: Seq<u8>, at: int)
    requires
        parse_head(s1, at) is Some,
        at + head_len(parse_head(s1, at)->0) <= s2.len(),
        forall|i: int| at <= i < at + head_len(parse_head(s1, at)->0) ==> #[trigger] s1[i] == s2[i],
    ensures
        parse_head(s2, at) == parse_head(s1, at),
{
    reveal(parse_head);
    lemma_parsed_head(s1, at);
    reveal(u16_at);
    reveal(u32_at);
    reveal(u64_at);
    let n = u64_at(s1, at + FIXED_SIZE);
    assert(u64_at(s2, at + FIXED_SIZE) == n);
    assert(parse_fixed(s2, at) == parse_fixed(s1, at));
    assert(s1.subrange(at + HEAD_PREFIX_SIZE, at + HEAD_PREFIX_SIZE + n) =~= s2.subrange(
        at + HEAD_PREFIX_SIZE,
        at + HEAD_PREFIX_SIZE + n,
    ));
}

fn push_u16(out: &mut Vec<u8>, x: u16)
    ensures
        final(out)@ == old(out)@ + u16_le(x),
{
    out.push(x as u8);
    out.push((x >> 8u16) as u8);
    assert(final(out)@ =~= old(out)@ + u16_le(x));
}

fn push_u32(out: &mut Vec<u8>, x: u32)
    ensures
        final(out)@ == old(out)@ + u32_le(x),
{
    out.push(x as u8);
    out.push((x >> 8u32) as u8);
    out.push((x >> 16u32) as u8);
    out.push((x >> 24u32) as u8);
    assert(final(out)@ =~= old(out)@ + u32_le(x));
}

fn push_u64(out: &mut Vec<u8>, x: u64)
    ensures
        final(out)@ == old(out)@ + u64_le(x),
{
    out.push(x as u8);
    out.push((x >> 8u64) as u8);
    out.push((x >> 16u64) as u8);
    out.push((x >> 24u64) as u8);
    out.push((x >> 32u64) as u8);
    out.push((x >> 40u64) as u8);
    out.push((x >> 48u64) as u8);
    out.push((x >> 56u64) as u8);
    assert(final(out)@ =~= old(out)@ + u64_le(x));
}

fn push_bytes(out: &mut Vec<u8>, b: &[u8])
    ensures
        final(out)@ == old(out)@ + b@,
{
    let ghost start = out@;
    let mut i: usize = 0;
    while i < b.len()
        invariant
            i <= b@.len(),
            out@ == start + b@.subrange(0, i as int),
        decreases b.len() - i,
    {
        out.push(b[i]);
        i = i + 1;
        assert(out@ =~= start + b@.subrange(0, i as int));
    }
    assert(b@.subrange(0, b@.len() as int) =~= b@);
}

fn get_u16(s: &[u8], at: usize) -> (r: u16)
    requires
        at + 2 <= s@.len(),
    ensures
        r == u16_at(s@, at as int),
{
    reveal(u16_at);
    (s[at] as u16) | ((s[at + 1] as u16) << 8u16)
}

fn get_u32(s: &[u8], at: usize) -> (r: u32)
    requires
        at + 4 <= s@.len(),
    ensures
        r == u32_at(s@, at as int),
{
    reveal(u32_at);
    (s[at] as u32) | ((s[at + 1] as u32) << 8u32) | ((s[at + 2] as u32) << 16u32) | ((s[at
        + 3] as u32) << 24u32)
}

pub(crate) fn get_u64(s: &[u8], at: usize) -> (r: u64)
    requires
        at + 8 <= s@.len(),
    ensures
        r == u64_at(s@, at as int),
{
    reveal(u64_at);
    (s[at] as u64) | ((s[at + 1] as u64) << 8u64) | ((s[at + 2] as u64) << 16u64) | ((s[at
        + 3] as u64) << 24u64) | ((s[at + 4] as u64) << 32u64) | ((s[at + 5] as u64) << 40u64)
        | ((s[at + 6] as u64) << 48u64) | ((s[at + 7] as u64) << 56u64)
}

fn push_timestamp(out: &mut Vec<u8>, t: Timestamp)
    ensures
        final(out)@ == old(out)@ + ts_bytes(t),
{
    push_u64(out, t.secs);
    push_u32(out, t.nanos);
    assert(final(out)@ =~= old(out)@ + ts_bytes(t));
}

fn get_timestamp(s: &[u8], at: usize) -> (r: Timestamp)
    requires
        at + 12 <= s@.len(),
    ensures
        r == ts_at(s@, at as int),
{
    let n = s.len();
    assert(at + 8 <= n);
    Timestamp { secs: get_u64(s, at), nanos: get_u32(s, at + 8) }
}

/// Relies on `String::from_utf8`: it succeeds exactly on well-formed UTF-8, and
/// the string then holds the characters that the bytes encode.
#[verifier::external_body]
fn string_from_utf8(bytes: Vec<u8>) -> (r: Option<String>)
    ensures
        r is Some <==> valid_utf8(bytes@),
        r matches Some(s) ==> s@ == decode_utf8(bytes@),
{
    String::from_utf8(bytes).ok()
}

impl FileTypeDump {
    /// The discriminant that encodes this kind.
    pub fn code(&self) -> (r: u32)
        ensures
            r == kind_code(*self),
    {
        match self {
            FileTypeDump::Directory => 0,
            FileTypeDump::RegularFile => 1,
            FileTypeDump::Symlink => 2,
        }
    }

    /// The kind that `c` encodes; `CorruptionError` for an unknown discriminant.
    pub fn from_code(c: u32) -> (r: Result<FileTypeDump, FsError>)
        ensures
            r == match kind_of(c) {
                Some(k) => Ok::<FileTypeDump, FsError>(k),
                None => Err(FsError::CorruptionError),
            },
    {
        if c == 0 {
            Ok(FileTypeDump::Directory)
        } else if c == 1 {
            Ok(FileTypeDump::RegularFile)
        } else if c == 2 {
            Ok(FileTypeDump::Symlink)
        } else {
            Err(FsError::CorruptionError)
        }
    }
}

impl FileAttrDump {
    /// Appends the fixed-width encoding of these attributes to `out`.
    pub fn encode(&self, out: &mut Vec<u8>)
        ensures
            final(out)@ == old(out)@ + attr_bytes(*self),
    {
        let ghost start = out@;
        push_u64(out, self.ino);
        push_u64(out, self.size);
        push_u64(out, self.blocks);
        assert(out@ =~= start + attr_counts_bytes(*self));
        push_timestamp(out, self.atime);
        push_timestamp(out, self.mtime);
        push_timestamp(out, self.ctime);
        push_timestamp(out, self.crtime);
        assert(out@ =~= start + attr_counts_bytes(*self) + attr_times_bytes(*self));
        let ghost mid = out@;
        push_u32(out, self.kind.code());
        push_u16(out, self.perm);
        push_u32(out, self.nlink);
        push_u32(out, self.uid);
        push_u32(out, self.gid);
        push_u32(out, self.rdev);
        push_u32(out, self.flags);
        assert(out@ =~= mid + attr_tail_bytes(*self));
        assert(out@ =~= start + attr_bytes(*self));
    }

    /// Decodes attributes from `s` at `at`; `CorruptionError` when the region is
    /// short or the kind is unknown.
    pub fn decode(s: &[u8], at: usize) -> (r: Result<FileAttrDump, FsError>)
        ensures
            r == match parse_attr(s@, at as int) {
                Some(a) => Ok::<FileAttrDump, FsError>(a),
                None => Err(FsError::CorruptionError),
            },
    {
        if at > s.len() || s.len() - at < 98 {
            return Err(FsError::CorruptionError);
        }
        let kind = match FileTypeDump::from_code(get_u32(s, at + 72)) {
            Ok(k) => k,
            Err(e) => return Err(e),
        };
        Ok(
            FileAttrDump {
                ino: get_u64(s, at),
                size: get_u64(s, at + 8),
                blocks: get_u64(s, at + 16),
                atime: get_timestamp(s, at + 24),
                mtime: get_timestamp(s, at + 36),
                ctime: get_timestamp(s, at + 48),
                crtime: get_timestamp(s, at + 60),
                kind,
                perm: get_u16(s, at + 76),
                nlink: get_u32(s, at + 78),
                uid: get_u32(s, at + 82),
                gid: get_u32(s, at + 86),
                rdev: get_u32(s, at + 90),
                flags: get_u32(s, at + 94),
            },
        )
    }
}

impl FileMetaFixedSizedPart {
    /// Appends the encoding of the fixed part to `out`.
    pub fn encode(&self, out: &mut Vec<u8>)
        ensures
            final(out)@ == old(out)@ + fixed_bytes(*self),
    {
        let ghost start = out@;
        push_u64(out, self.first_child);
        push_u64(out, self.next_sibling);
        self.file_attr.encode(out);
        assert(out@ =~= start + fixed_bytes(*self));
    }

    /// Decodes a fixed part from `s` at `at`.
    pub fn decode(s: &[u8], at: usize) -> (r: Result<FileMetaFixedSizedPart, FsError>)
        ensures
            r == match parse_fixed(s@, at as int) {
                Some(f) => Ok::<FileMetaFixedSizedPart, FsError>(f),
                None => Err(FsError::CorruptionError),
            },
    {
        if at > s.len() || s.len() - at < 114 {
            return Err(FsError::CorruptionError);
        }
        let file_attr = match FileAttrDump::decode(s, at + 16) {
            Ok(a) => a,
            Err(e) => return Err(e),
        };
        Ok(
            FileMetaFixedSizedPart {
                first_child: get_u64(s, at),
                next_sibling: get_u64(s, at + 8),
                file_attr,
            },
        )
    }
}

/// The fixed part of a fresh header: no links, inode 0, empty, all times at
/// the epoch, a directory with permissions 0o777 and no links counted.
pub open spec fn blank_fixed() -> FileMetaFixedSizedPart {
    let epoch = Timestamp { secs: 0, nanos: 0 };
    FileMetaFixedSizedPart {
        first_child: 0,
        next_sibling: 0,
        file_attr: FileAttrDump {
            ino: 0,
            size: 0,
            blocks: 0,
            atime: epoch,
            mtime: epoch,
            ctime: epoch,
            crtime: epoch,
            kind: FileTypeDump::Directory,
            perm: 0o777,
            nlink: 0,
            uid: 0,
            gid: 0,
            rdev: 0,
            flags: 0,
        },
    }
}

/// Decodes a name from its UTF-8 bytes; `CorruptionError` if they are not
/// well-formed.
pub fn decode_name(bytes: Vec<u8>) -> (r: Result<String, FsError>)
    ensures
        r is Ok <==> valid_utf8(bytes@),
        r matches Ok(s) ==> s@ == decode_utf8(bytes@),
        r is Err ==> r == Err::<String, FsError>(FsError::CorruptionError),
{
    match string_from_utf8(bytes) {
        Some(s) => Ok(s),
        None => Err(FsError::CorruptionError),
    }
}

impl FileHead {
    /// A blank header: see `blank_fixed`, with an empty name.
    pub fn new() -> (r: FileHead)
        ensures
            r@.fixed == blank_fixed(),
            r@.name == Seq::<char>::empty(),
    {
        let epoch = Timestamp { secs: 0, nanos: 0 };
        FileHead {
            fixed_sized_part: FileMetaFixedSizedPart {
                first_child: 0,
                next_sibling: 0,
                file_attr: FileAttrDump {
                    ino: 0,
                    size: 0,
                    blocks: 0,
                    atime: epoch,
                    mtime: epoch,
                    ctime: epoch,
                    crtime: epoch,
                    kind: FileTypeDump::Directory,
                    perm: 0o777,
                    nlink: 0,
                    uid: 0,
                    gid: 0,
                    rdev: 0,
                    flags: 0,
                },
            },
            filename: String::new(),
        }
    }

    /// The encoded size of this header, computed without encoding it.
    pub fn serialize_size(&self) -> (r: u64)
        requires
            head_len(self@) <= u64::MAX,
        ensures
            r == head_len(self@),
    {
        let n = self.filename.as_str().as_bytes().len() as u64;
        122 + n
    }

    /// Appends the encoding of this header to `out`.
    pub fn serialize_into(&self, out: &mut Vec<u8>)
        ensures
            final(out)@ == old(out)@ + head_bytes(self@),
    {
        let ghost start = out@;
        let name = self.filename.as_str().as_bytes();
        self.fixed_sized_part.encode(out);
        push_u64(out, name.len() as u64);
        push_bytes(out, name);
        assert(out@ =~= start + head_bytes(self@));
    }

    /// Decodes a header stored at the start of `s`.
    pub fn deserialize_from(s: &[u8]) -> (r: Result<FileHead, FsError>)
        ensures
            r is Ok <==> parse_head(s@, 0) is Some,
            r matches Ok(h) ==> parse_head(s@, 0) == Some(h@),
            r is Err ==> r == Err::<FileHead, FsError>(FsError::CorruptionError),
    {
        proof {
            reveal(parse_head);
        }
        if s.len() < 122 {
            return Err(FsError::CorruptionError);
        }
        let fixed = match FileMetaFixedSizedPart::decode(s, 0) {
            Ok(f) => f,
            Err(e) => return Err(e),
        };
        let n = get_u64(s, 114);
        if n > s.len() as u64 - 122 {
            return Err(FsError::CorruptionError);
        }
        let end = 122 + n as usize;
        let nb = vstd::slice::slice_to_vec(vstd::slice::slice_subrange(s, 122, end));
        match decode_name(nb) {
            Ok(filename) => Ok(FileHead { fixed_sized_part: fixed, filename }),
            Err(e) => Err(e),
        }
    }
}

} // verus!
