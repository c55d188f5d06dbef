use vstd::prelude::*;

use crate::codec::{
    decode_name, get_u64, head_bytes, head_len, lemma_head_bytes_len, lemma_head_round_trip,
    lemma_parsed_head,
    parse_head, FileHead, FileMetaFixedSizedPart, FileTypeDump, HeadView, Timestamp,
    HEAD_PREFIX_SIZE,
};
use crate::disk::{written, Disk};
use crate::util::{align, align_up, lemma_align, lemma_align_past_max};
use crate::error::FsError;

verus! {

/// The header `h` with its fixed part replaced by `f`.
pub open spec fn with_fixed(h: HeadView, f: FileMetaFixedSizedPart) -> HeadView {
    HeadView { fixed: f, name: h.name }
}

/// The header `h` after `len` bytes were written into the content at `offset`.
pub open spec fn grown_head(h: HeadView, offset: u64, len: int) -> HeadView {
    let a = h.fixed.file_attr;
    with_fixed(
        h,
        FileMetaFixedSizedPart {
            file_attr: crate::codec::FileAttrDump {
                size: grown_size(a.size, offset, len) as u64,
                ..a
            },
            ..h.fixed
        },
    )
}

/// Where the content of a node with header `h` at `addr` begins.
pub open spec fn content_start(addr: u64, h: HeadView) -> int {
    addr + head_len(h)
}

/// The size a node has after `len` bytes were written at `offset` into
/// content of size `size`.
pub open spec fn grown_size(size: u64, offset: u64, len: int) -> int {
    if offset + len > size {
        offset + len
    } else {
        size as int
    }
}

/// The addresses of the sibling chain that starts at `addr`, following
/// `next_sibling` links to the sentinel 0 within `fuel` hops; none when a
/// record on the way does not decode or the hops run out.
pub open spec fn walk(img: Seq<u8>, addr: u64, fuel: nat) -> Option<Seq<u64>>
    decreases fuel,
{
    if addr == 0 {
        Some(Seq::empty())
    } else if fuel == 0 {
        None
    } else {
        match parse_head(img, addr as int) {
            None => None,
            Some(h) => match walk(img, h.fixed.next_sibling, (fuel - 1) as nat) {
                None => None,
                Some(rest) => Some(seq![addr] + rest),
            },
        }
    }
}

/// The hop bound of a walk over `img`: no chain of records that do not
/// overlap can be longer.
pub open spec fn hop_bound(img: Seq<u8>) -> nat {
    img.len()
}

/// The addresses of a sequence of nodes.
pub open spec fn addresses(v: Seq<File>) -> Seq<u64> {
    v.map_values(|f: File| f.at())
}

/// The `next_sibling` link of the record at `a`.
pub open spec fn next_of(img: Seq<u8>, a: u64) -> u64 {
    parse_head(img, a as int)->0.fixed.next_sibling
}

/// Every address of a walked chain holds a record that decodes, and each
/// record links to the next one, the last to the sentinel.
pub proof fn lemma_walk_links(img: Seq<u8>, addr: u64, fuel: nat)
    requires
        walk(img, addr, fuel) is Some,
    ensures
        ({
            let s = walk(img, addr, fuel)->0;
            &&& s.len() <= fuel
            &&& (s.len() == 0 <==> addr == 0)
            &&& s.len() > 0 ==> s[0] == addr
            &&& forall|i: int|
                0 <= i < s.len() ==> s[i] != 0 && (#[trigger] parse_head(img, s[i] as int)) is Some
                    && next_of(img, s[i]) == if i + 1 < s.len() {
                    s[i + 1]
                } else {
                    0
                }
        }),
    decreases fuel,
{
    if addr != 0 {
        let h = parse_head(img, addr as int)->0;
        lemma_walk_links(img, h.fixed.next_sibling, (fuel - 1) as nat);
        let rest = walk(img, h.fixed.next_sibling, (fuel - 1) as nat)->0;
        let s = walk(img, addr, fuel)->0;
        assert(s == seq![addr] + rest);
        assert forall|i: int| 0 <= i < s.len() implies s[i] != 0 && (#[trigger] parse_head(
            img,
            s[i] as int,
        )) is Some && next_of(img, s[i]) == if i + 1 < s.len() {
            s[i + 1]
        } else {
            0
        } by {
            if i > 0 {
                assert(s[i] == rest[i - 1]);
                assert(parse_head(img, rest[i - 1] as int) is Some);
            }
        }
    }
}

/// A chain whose records decode and link each to the next, the last to the
/// sentinel, is what a walk with at least as many hops yields.
pub proof fn lemma_links_walk(img: Seq<u8>, s: Seq<u64>, fuel: nat)
    requires
        s.len() > 0,
        s.len() <= fuel,
        forall|i: int|
            0 <= i < s.len() ==> s[i] != 0 && (#[trigger] parse_head(img, s[i] as int)) is Some
                && next_of(img, s[i]) == if i + 1 < s.len() {
                s[i + 1]
            } else {
                0
            },
    ensures
        walk(img, s[0], fuel) == Some(s),
    decreases s.len(),
{
    assert(parse_head(img, s[0] as int) is Some);
    assert(next_of(img, s[0]) == if 1 < s.len() {
        s[1]
    } else {
        0
    });
    if s.len() == 1 {
        assert(walk(img, 0, (fuel - 1) as nat) == Some(Seq::<u64>::empty()));
        assert(seq![s[0]] + Seq::<u64>::empty() =~= s);
    } else {
        let rest = s.drop_first();
        assert forall|i: int| 0 <= i < rest.len() implies rest[i] != 0 && (#[trigger] parse_head(
            img,
            rest[i] as int,
        )) is Some && next_of(img, rest[i]) == if i + 1 < rest.len() {
            rest[i + 1]
        } else {
            0
        } by {
            assert(rest[i] == s[i + 1]);
            assert(parse_head(img, s[i + 1] as int) is Some);
        }
        lemma_links_walk(img, rest, (fuel - 1) as nat);
        assert(rest[0] == s[1]);
        assert(seq![s[0]] + rest =~= s);
    }
}

/// Content correctness: after `write` put `b` at `offset` into the content
/// of the node at `at`, the node's header decodes with size
/// `max(size, offset + b.len())`, its content starts where it did, and
/// reading `b.len()` bytes at `offset` yields `b`.
pub proof fn lemma_write_then_read(d0: Seq<u8>, at: u64, offset: u64, b: Seq<u8>)
    requires
        parse_head(d0, at as int) is Some,
        content_start(at, parse_head(d0, at as int)->0) + offset + b.len() <= u64::MAX,
    ensures
        ({
            let h = parse_head(d0, at as int)->0;
            let c = content_start(at, h);
            let h2 = grown_head(h, offset, b.len() as int);
            let d1 = written(written(d0, c + offset, b), at as int, head_bytes(h2));
            &&& parse_head(d1, at as int) == Some(h2)
            &&& h2.fixed.file_attr.size == grown_size(h.fixed.file_attr.size, offset, b.len() as int)
            &&& content_start(at, h2) == c
            &&& d1.subrange(c + offset, c + offset + b.len()) == b
        }),
{
    reveal(written);
    let h = parse_head(d0, at as int)->0;
    let c = content_start(at, h);
    let h2 = grown_head(h, offset, b.len() as int);
    let da = written(d0, c + offset, b);
    let d1 = written(da, at as int, head_bytes(h2));
    lemma_parsed_head(d0, at as int);
    lemma_head_bytes_len(h2);
    assert(d1.subrange(at as int, at + head_len(h2)) =~= head_bytes(h2));
    lemma_head_round_trip(d1, at as int, h2);
    assert(d1.subrange(c + offset, c + offset + b.len()) =~= b);
}

/// A node: a record at an address of the image. It caches nothing; every
/// access goes to the disk.
#[derive(Clone, Copy, Debug)]
pub struct File {
    address: u64,
}

impl File {
    /// The address of the node's record.
    pub closed spec fn at(&self) -> u64 {
        self.address
    }

    /// The node whose record is at `address`.
    pub fn new(address: u64) -> (r: File)
        ensures
            r.at() == address,
    {
        File { address }
    }

    /// The address of the node's record.
    pub fn address(&self) -> (r: u64)
        ensures
            r == self.at(),
    {
        self.address
    }

    /// Reads and decodes the node's header; `CorruptionError` when it does not
    /// decode.
    pub fn header(&self, disk: &Disk) -> (r: Result<FileHead, FsError>)
        ensures
            r is Ok <==> parse_head(disk@, self.at() as int) is Some,
            r matches Ok(h) ==> parse_head(disk@, self.at() as int) == Some(h@),
            r is Err ==> r == Err::<FileHead, FsError>(FsError::CorruptionError),
    {
        proof {
            reveal(parse_head);
        }
        let img = disk.image();
        let len = img.len() as u64;
        if self.address > len || len - self.address < HEAD_PREFIX_SIZE {
            return Err(FsError::CorruptionError);
        }
        let at = self.address as usize;
        let fixed = match FileMetaFixedSizedPart::decode(img, at) {
            Ok(f) => f,
            Err(e) => return Err(e),
        };
        let n = get_u64(img, at + 114);
        let name_at = self.address + HEAD_PREFIX_SIZE;
        let nb = match disk.read_at(name_at, n) {
            Ok(b) => b,
            Err(_) => return Err(FsError::CorruptionError),
        };
        match decode_name(nb) {
            Ok(filename) => Ok(FileHead { fixed_sized_part: fixed, filename }),
            Err(e) => Err(e),
        }
    }

    /// Rewrites the node's header in place, whatever its old length.
    pub fn set_header(&self, disk: &mut Disk, head: &FileHead) -> (r: Result<(), FsError>)
        ensures
            r is Ok <==> self.at() + head_len(head@) <= old(disk).capacity(),
            r is Ok ==> final(disk)@ == written(old(disk)@, self.at() as int, head_bytes(head@)),
            r is Err ==> final(disk)@ == old(disk)@ && r == Err::<(), FsError>(FsError::IoError),
            final(disk).capacity() == old(disk).capacity(),
    {
        let mut bytes: Vec<u8> = Vec::new();
        head.serialize_into(&mut bytes);
        proof {
            lemma_head_bytes_len(head@);
        }
        disk.write_at(self.address, bytes.as_slice())
    }

    /// Where the node's content begins: just after its header.
    pub fn content_address(&self, disk: &Disk) -> (r: Result<u64, FsError>)
        ensures
            r == match parse_head(disk@, self.at() as int) {
                Some(h) => Ok::<u64, FsError>(content_start(self.at(), h) as u64),
                None => Err(FsError::CorruptionError),
            },
            r matches Ok(c) ==> c == content_start(self.at(), parse_head(disk@, self.at() as int)->0),
    {
        let head = match self.header(disk) {
            Ok(h) => h,
            Err(e) => return Err(e),
        };
        let n = head.filename.as_str().as_bytes().len() as u64;
        let _len = disk.len();
        proof {
            lemma_parsed_head(disk@, self.at() as int);
        }
        Ok(self.address + HEAD_PREFIX_SIZE + n)
    }

    /// Reads `len` bytes of content starting `offset` bytes into it. Bytes
    /// past the node's size are whatever the image holds there.
    pub fn read_at(&self, disk: &Disk, offset: u64, len: u64) -> (r: Result<Vec<u8>, FsError>)
        ensures
            match parse_head(disk@, self.at() as int) {
                None => r == Err::<Vec<u8>, FsError>(FsError::CorruptionError),
                Some(h) => {
                    let c = content_start(self.at(), h);
                    &&& r is Ok <==> c + offset + len <= disk@.len()
                    &&& r matches Ok(v) ==> v@ == disk@.subrange(c + offset, c + offset + len)
                    &&& r is Err ==> r == Err::<Vec<u8>, FsError>(FsError::IoError)
                },
            },
    {
        let c = match self.content_address(disk) {
            Ok(c) => c,
            Err(e) => return Err(e),
        };
        let _len = disk.len();
        if offset > u64::MAX - c {
            return Err(FsError::IoError);
        }
        disk.read_at(c + offset, len)
    }

    /// Writes `bytes` into the content at `offset`, then records the size
    /// `max(size, offset + bytes.len())` in the header. Nothing stops the
    /// content from running into a record allocated after this one.
    pub fn write(&self, disk: &mut Disk, offset: u64, bytes: &[u8]) -> (r: Result<(), FsError>)
        ensures
            final(disk).capacity() == old(disk).capacity(),
            match parse_head(old(disk)@, self.at() as int) {
                None => r == Err::<(), FsError>(FsError::CorruptionError) && final(disk)@ == old(
                    disk,
                )@,
                Some(h) => {
                    let c = content_start(self.at(), h);
                    let h2 = grown_head(h, offset, bytes@.len() as int);
                    &&& r is Ok <==> c + offset + bytes@.len() <= old(disk).capacity()
                    &&& r is Ok ==> final(disk)@ == written(
                        written(old(disk)@, c + offset, bytes@),
                        self.at() as int,
                        head_bytes(h2),
                    )
                    &&& r is Err ==> r == Err::<(), FsError>(FsError::IoError) && final(disk)@
                        == old(disk)@
                },
            },
    {
        let mut head = match self.header(disk) {
            Ok(h) => h,
            Err(e) => return Err(e),
        };
        let ghost h = head@;
        let c = match self.content_address(disk) {
            Ok(c) => c,
            Err(e) => return Err(e),
        };
        let _cap = disk.size();
        if offset > u64::MAX - c {
            return Err(FsError::IoError);
        }
        match disk.write_at(c + offset, bytes) {
            Ok(()) => {},
            Err(e) => return Err(e),
        }
        let end = offset + bytes.len() as u64;
        let old_size = head.fixed_sized_part.file_attr.size;
        head.fixed_sized_part.file_attr.size = if end > old_size {
            end
        } else {
            old_size
        };
        let r = self.set_header(disk, &head);
        assert(head@.name == h.name);
        assert(self.at() + head_len(h) <= c);
        r
    }

    /// The node's children: the chain from its `first_child`, in sibling
    /// order; `CorruptionError` when a record on the way does not decode or
    /// the chain is longer than the hop bound.
    pub fn children(&self, disk: &Disk) -> (r: Result<Vec<File>, FsError>)
        ensures
            match parse_head(disk@, self.at() as int) {
                None => r == Err::<Vec<File>, FsError>(FsError::CorruptionError),
                Some(h) => match walk(disk@, h.fixed.first_child, hop_bound(disk@)) {
                    None => r == Err::<Vec<File>, FsError>(FsError::CorruptionError),
                    Some(s) => r matches Ok(v) && addresses(v@) == s,
                },
            },
    {
        let head = match self.header(disk) {
            Ok(h) => h,
            Err(e) => return Err(e),
        };
        chain(disk, head.fixed_sized_part.first_child)
    }

    /// Sets the node's inode number.
    pub fn set_ino(&self, disk: &mut Disk, ino: u64) -> (r: Result<(), FsError>)
        ensures
            final(disk).capacity() == old(disk).capacity(),
            match parse_head(old(disk)@, self.at() as int) {
                None => r == Err::<(), FsError>(FsError::CorruptionError) && final(disk)@ == old(
                    disk,
                )@,
                Some(h) => {
                    let h2 = with_fixed(h, FileMetaFixedSizedPart { file_attr: crate::codec::FileAttrDump { ino, ..h.fixed.file_attr }, ..h.fixed });
                    &&& r is Ok <==> self.at() + head_len(h2) <= old(disk).capacity()
                    &&& r is Ok ==> final(disk)@ == written(old(disk)@, self.at() as int, head_bytes(h2))
                    &&& r is Err ==> r == Err::<(), FsError>(FsError::IoError) && final(disk)@
                        == old(disk)@
                },
            },
    {
        let mut head = match self.header(disk) {
            Ok(h) => h,
            Err(e) => return Err(e),
        };
        head.fixed_sized_part.file_attr.ino = ino;
        self.set_header(disk, &head)
    }

    /// Sets the node's `next_sibling` link.
    pub fn set_next_sibling(&self, disk: &mut Disk, address: u64) -> (r: Result<(), FsError>)
        ensures
            final(disk).capacity() == old(disk).capacity(),
            match parse_head(old(disk)@, self.at() as int) {
                None => r == Err::<(), FsError>(FsError::CorruptionError) && final(disk)@ == old(
                    disk,
                )@,
                Some(h) => {
                    let h2 = with_fixed(h, FileMetaFixedSizedPart { next_sibling: address, ..h.fixed });
                    &&& r is Ok <==> self.at() + head_len(h2) <= old(disk).capacity()
                    &&& r is Ok ==> final(disk)@ == written(old(disk)@, self.at() as int, head_bytes(h2))
                    &&& r is Err ==> r == Err::<(), FsError>(FsError::IoError) && final(disk)@
                        == old(disk)@
                },
            },
    {
        let mut head = match self.header(disk) {
            Ok(h) => h,
            Err(e) => return Err(e),
        };
        head.fixed_sized_part.next_sibling = address;
        self.set_header(disk, &head)
    }

    /// Sets the node's `first_child` link.
    pub fn set_first_child(&self, disk: &mut Disk, address: u64) -> (r: Result<(), FsError>)
        ensures
            final(disk).capacity() == old(disk).capacity(),
            match parse_head(old(disk)@, self.at() as int) {
                None => r == Err::<(), FsError>(FsError::CorruptionError) && final(disk)@ == old(
                    disk,
                )@,
                Some(h) => {
                    let h2 = with_fixed(h, FileMetaFixedSizedPart { first_child: address, ..h.fixed });
                    &&& r is Ok <==> self.at() + head_len(h2) <= old(disk).capacity()
                    &&& r is Ok ==> final(disk)@ == written(old(disk)@, self.at() as int, head_bytes(h2))
                    &&& r is Err ==> r == Err::<(), FsError>(FsError::IoError) && final(disk)@
                        == old(disk)@
                },
            },
    {
        let mut head = match self.header(disk) {
            Ok(h) => h,
            Err(e) => return Err(e),
        };
        head.fixed_sized_part.first_child = address;
        self.set_header(disk, &head)
    }

    /// Sets the node's kind.
    pub fn set_file_type(&self, disk: &mut Disk, file_type: FileTypeDump) -> (r: Result<(), FsError>)
        ensures
            final(disk).capacity() == old(disk).capacity(),
            match parse_head(old(disk)@, self.at() as int) {
                None => r == Err::<(), FsError>(FsError::CorruptionError) && final(disk)@ == old(
                    disk,
                )@,
                Some(h) => {
                    let h2 = with_fixed(h, FileMetaFixedSizedPart { file_attr: crate::codec::FileAttrDump { kind: file_type, ..h.fixed.file_attr }, ..h.fixed });
                    &&& r is Ok <==> self.at() + head_len(h2) <= old(disk).capacity()
                    &&& r is Ok ==> final(disk)@ == written(old(disk)@, self.at() as int, head_bytes(h2))
                    &&& r is Err ==> r == Err::<(), FsError>(FsError::IoError) && final(disk)@
                        == old(disk)@
                },
            },
    {
        let mut head = match self.header(disk) {
            Ok(h) => h,
            Err(e) => return Err(e),
        };
        head.fixed_sized_part.file_attr.kind = file_type;
        self.set_header(disk, &head)
    }

    /// Renames the node in place. The record does not move: a longer name
    /// runs into whatever follows the header.
    pub fn set_name(&self, disk: &mut Disk, name: &str) -> (r: Result<(), FsError>)
        ensures
            final(disk).capacity() == old(disk).capacity(),
            match parse_head(old(disk)@, self.at() as int) {
                None => r == Err::<(), FsError>(FsError::CorruptionError) && final(disk)@ == old(
                    disk,
                )@,
                Some(h) => {
                    let h2 = HeadView { fixed: h.fixed, name: name@ };
                    &&& r is Ok <==> self.at() + head_len(h2) <= old(disk).capacity()
                    &&& r is Ok ==> final(disk)@ == written(old(disk)@, self.at() as int, head_bytes(h2))
                    &&& r is Err ==> r == Err::<(), FsError>(FsError::IoError) && final(disk)@
                        == old(disk)@
                },
            },
    {
        let mut head = match self.header(disk) {
            Ok(h) => h,
            Err(e) => return Err(e),
        };
        head.filename = name.to_owned();
        self.set_header(disk, &head)
    }

    /// The first block boundary at or after the end of the node's content.
    pub fn next_chunk_start(&self, disk: &Disk) -> (r: Result<u64, FsError>)
        ensures
            match parse_head(disk@, self.at() as int) {
                None => r == Err::<u64, FsError>(FsError::CorruptionError),
                Some(h) => {
                    let end = content_start(self.at(), h) + h.fixed.file_attr.size;
                    &&& align_up(end, 512) <= u64::MAX ==> r == Ok::<u64, FsError>(
                        align_up(end, 512) as u64,
                    )
                    &&& align_up(end, 512) > u64::MAX ==> r == Err::<u64, FsError>(
                        FsError::NoSpace,
                    )
                },
            },
    {
        let head = match self.header(disk) {
            Ok(h) => h,
            Err(e) => return Err(e),
        };
        let c = match self.content_address(disk) {
            Ok(c) => c,
            Err(e) => return Err(e),
        };
        let size = head.fixed_sized_part.file_attr.size;
        if size > u64::MAX - c || c + size > u64::MAX - 511 {
            proof {
                if c + size <= u64::MAX {
                    lemma_align_past_max(c + size);
                } else {
                    lemma_align(c + size, 512);
                }
            }
            return Err(FsError::NoSpace);
        }
        proof {
            lemma_align((c + size) as int, 512);
        }
        Ok(align(c + size, 512))
    }

    /// Replaces the node's content: records `content.len()` as its size and
    /// the blocks that header and content take, rewrites the header, then
    /// writes the content just after it.
    pub fn set_content(&self, disk: &mut Disk, content: &[u8]) -> (r: Result<(), FsError>)
        ensures
            final(disk).capacity() == old(disk).capacity(),
            match parse_head(old(disk)@, self.at() as int) {
                None => r == Err::<(), FsError>(FsError::CorruptionError) && final(disk)@ == old(
                    disk,
                )@,
                Some(h) => {
                    let total = head_len(h) + content@.len();
                    let h2 = with_fixed(
                        h,
                        FileMetaFixedSizedPart {
                            file_attr: crate::codec::FileAttrDump {
                                size: content@.len() as u64,
                                blocks: (align_up(total, 512) / 512) as u64,
                                ..h.fixed.file_attr
                            },
                            ..h.fixed
                        },
                    );
                    &&& r is Ok <==> content_start(self.at(), h) + content@.len() <= old(
                        disk,
                    ).capacity()
                    &&& r is Ok ==> final(disk)@ == written(
                        written(old(disk)@, self.at() as int, head_bytes(h2)),
                        content_start(self.at(), h),
                        content@,
                    )
                },
            },
    {
        let mut head = match self.header(disk) {
            Ok(h) => h,
            Err(e) => return Err(e),
        };
        let c = match self.content_address(disk) {
            Ok(c) => c,
            Err(e) => return Err(e),
        };
        let cap = disk.size();
        let len = content.len() as u64;
        if len > cap || c > cap - len {
            return Err(FsError::IoError);
        }
        let total = c - self.address + len;
        let blocks = total / 512 + if total % 512 == 0 {
            0
        } else {
            1
        };
        proof {
            let n = total as int;
            vstd::arithmetic::div_mod::lemma_fundamental_div_mod(n, 512);
            if n % 512 != 0 {
                vstd::arithmetic::mul::lemma_mul_is_distributive_add_other_way(512, n / 512, 1);
                vstd::arithmetic::div_mod::lemma_div_by_multiple(n / 512 + 1, 512);
            } else {
                vstd::arithmetic::div_mod::lemma_div_by_multiple(n / 512, 512);
            }
        }
        head.fixed_sized_part.file_attr.size = len;
        head.fixed_sized_part.file_attr.blocks = blocks;
        match self.set_header(disk, &head) {
            Ok(()) => {},
            Err(e) => return Err(e),
        }
        disk.write_at(c, content)
    }

    /// The node's later siblings: the chain from its `next_sibling`.
    pub fn siblings(&self, disk: &Disk) -> (r: Result<Vec<File>, FsError>)
        ensures
            match parse_head(disk@, self.at() as int) {
                None => r == Err::<Vec<File>, FsError>(FsError::CorruptionError),
                Some(h) => match walk(disk@, h.fixed.next_sibling, hop_bound(disk@)) {
                    None => r == Err::<Vec<File>, FsError>(FsError::CorruptionError),
                    Some(s) => r matches Ok(v) && addresses(v@) == s,
                },
            },
    {
        let head = match self.header(disk) {
            Ok(h) => h,
            Err(e) => return Err(e),
        };
        chain(disk, head.fixed_sized_part.next_sibling)
    }
}

/// Assembles the header of a node to be written at an address.
pub struct FileBuilder {
    address: u64,
    head: FileHead,
}

impl FileBuilder {
    /// The address the node will have.
    pub closed spec fn at(&self) -> u64 {
        self.address
    }

    /// The header assembled so far.
    pub closed spec fn spec_head(&self) -> HeadView {
        self.head@
    }

    /// A builder for a node at `address`, starting from a blank header.
    pub fn new(address: u64) -> (r: FileBuilder)
        ensures
            r.at() == address,
            r.spec_head().fixed == crate::codec::blank_fixed(),
            r.spec_head().name == Seq::<char>::empty(),
    {
        FileBuilder { address, head: FileHead::new() }
    }

    /// Sets the name.
    pub fn filename(self, filename: &str) -> (r: FileBuilder)
        ensures
            r.at() == self.at(),
            r.spec_head() == (HeadView { fixed: self.spec_head().fixed, name: filename@ }),
    {
        let mut b = self;
        b.head.filename = filename.to_owned();
        b
    }

    /// Sets the `first_child` link.
    pub fn first_child(self, address: u64) -> (r: FileBuilder)
        ensures
            r.at() == self.at(),
            r.spec_head() == with_fixed(
                self.spec_head(),
                FileMetaFixedSizedPart { first_child: address, ..self.spec_head().fixed },
            ),
    {
        let mut b = self;
        b.head.fixed_sized_part.first_child = address;
        b
    }

    /// Sets the `next_sibling` link.
    pub fn next_sibling(self, address: u64) -> (r: FileBuilder)
        ensures
            r.at() == self.at(),
            r.spec_head() == with_fixed(
                self.spec_head(),
                FileMetaFixedSizedPart { next_sibling: address, ..self.spec_head().fixed },
            ),
    {
        let mut b = self;
        b.head.fixed_sized_part.next_sibling = address;
        b
    }

    /// Sets the inode number.
    pub fn ino(self, ino: u64) -> (r: FileBuilder)
        ensures
            r.at() == self.at(),
            r.spec_head() == with_fixed(
                self.spec_head(),
                FileMetaFixedSizedPart {
                    file_attr: crate::codec::FileAttrDump { ino, ..self.spec_head().fixed.file_attr },
                    ..self.spec_head().fixed
                },
            ),
    {
        let mut b = self;
        b.head.fixed_sized_part.file_attr.ino = ino;
        b
    }

    /// Sets the size.
    pub fn size(self, size: u64) -> (r: FileBuilder)
        ensures
            r.at() == self.at(),
            r.spec_head() == with_fixed(
                self.spec_head(),
                FileMetaFixedSizedPart {
                    file_attr: crate::codec::FileAttrDump { size, ..self.spec_head().fixed.file_attr },
                    ..self.spec_head().fixed
                },
            ),
    {
        let mut b = self;
        b.head.fixed_sized_part.file_attr.size = size;
        b
    }

    /// Sets the kind.
    pub fn kind(self, kind: FileTypeDump) -> (r: FileBuilder)
        ensures
            r.at() == self.at(),
            r.spec_head() == with_fixed(
                self.spec_head(),
                FileMetaFixedSizedPart {
                    file_attr: crate::codec::FileAttrDump { kind, ..self.spec_head().fixed.file_attr },
                    ..self.spec_head().fixed
                },
            ),
    {
        let mut b = self;
        b.head.fixed_sized_part.file_attr.kind = kind;
        b
    }

    /// The node and its finished header: the blocks that header and content
    /// take, and all four times set to `now`. `NoSpace` when header and
    /// content together do not fit in a `u64`.
    pub fn build(self, now: Timestamp) -> (r: Result<(File, FileHead), FsError>)
        ensures
            ({
                let h = self.spec_head();
                let total = head_len(h) + h.fixed.file_attr.size;
                &&& total > u64::MAX ==> r == Err::<(File, FileHead), FsError>(FsError::NoSpace)
                &&& total <= u64::MAX ==> (r matches Ok(p) && p.0.at() == self.at() && p.1@
                    == with_fixed(
                    h,
                    FileMetaFixedSizedPart {
                        file_attr: crate::codec::FileAttrDump {
                            blocks: (align_up(total, 512) / 512) as u64,
                            atime: now,
                            mtime: now,
                            ctime: now,
                            crtime: now,
                            ..h.fixed.file_attr
                        },
                        ..h.fixed
                    },
                ))
            }),
    {
        let mut head = self.head;
        let name_len = head.filename.as_str().as_bytes().len() as u64;
        let size = head.fixed_sized_part.file_attr.size;
        if name_len > u64::MAX - HEAD_PREFIX_SIZE || size > u64::MAX - HEAD_PREFIX_SIZE - name_len {
            return Err(FsError::NoSpace);
        }
        let total = HEAD_PREFIX_SIZE + name_len + size;
        let blocks = total / 512 + if total % 512 == 0 {
            0
        } else {
            1
        };
        proof {
            let n = total as int;
            vstd::arithmetic::div_mod::lemma_fundamental_div_mod(n, 512);
            if n % 512 != 0 {
                vstd::arithmetic::mul::lemma_mul_is_distributive_add_other_way(512, n / 512, 1);
                vstd::arithmetic::div_mod::lemma_div_by_multiple(n / 512 + 1, 512);
            } else {
                vstd::arithmetic::div_mod::lemma_div_by_multiple(n / 512, 512);
            }
        }
        head.fixed_sized_part.file_attr.blocks = blocks;
        head.fixed_sized_part.file_attr.atime = now;
        head.fixed_sized_part.file_attr.mtime = now;
        head.fixed_sized_part.file_attr.ctime = now;
        head.fixed_sized_part.file_attr.crtime = now;
        Ok((File::new(self.address), head))
    }
}

/// The sibling chain that starts at `first`, within the hop bound.
pub fn chain(disk: &Disk, first: u64) -> (r: Result<Vec<File>, FsError>)
    ensures
        match walk(disk@, first, hop_bound(disk@)) {
            None => r == Err::<Vec<File>, FsError>(FsError::CorruptionError),
            Some(s) => r matches Ok(v) && addresses(v@) == s,
        },
{
    let ghost img = disk@;
    let bound = disk.len();
    let mut fuel: u64 = bound;
    let mut cur: u64 = first;
    let mut out: Vec<File> = Vec::new();
    while cur != 0
        invariant
            img == disk@,
            fuel <= bound,
            walk(img, first, hop_bound(img)) == match walk(img, cur, fuel as nat) {
                None => None,
                Some(rest) => Some(addresses(out@) + rest),
            },
        decreases fuel,
    {
        if fuel == 0 {
            return Err(FsError::CorruptionError);
        }
        let node = File::new(cur);
        let head = match node.header(disk) {
            Ok(h) => h,
            Err(e) => return Err(e),
        };
        let ghost old_out = out@;
        out.push(node);
        proof {
            assert(addresses(out@) =~= addresses(old_out).push(cur));
            match walk(img, head.fixed_sized_part.next_sibling, (fuel - 1) as nat) {
                None => {},
                Some(rest) => {
                    assert(addresses(old_out) + (seq![cur] + rest) =~= addresses(out@) + rest);
                },
            }
        }
        cur = head.fixed_sized_part.next_sibling;
        fuel = fuel - 1;
    }
    proof {
        assert(addresses(out@) + Seq::<u64>::empty() =~= addresses(out@));
    }
    Ok(out)
}

} // verus!
