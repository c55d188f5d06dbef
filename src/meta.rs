use vstd::prelude::*;

use crate::codec::{u32_at, u32_le, u64_at, u64_le};
use crate::disk::{written, Disk};
use crate::error::FsError;
use crate::util::{align, align_up, lemma_align};

verus! {

/// The format marker of an initialized image.
pub const MAGIC: u32 = 0xAA55_9669;

/// The allocation unit: every node starts at a multiple of it.
pub const BLOCK_SIZE: u64 = 512;

/// Encoded size of the superblock.
pub const SUPERBLOCK_SIZE: u64 = 20;

/// Where the root directory's node starts: the first block boundary after
/// the superblock.
pub const ROOT_ADDRESS: u64 = 512;

/// The superblock: the format marker and the allocator's two counters.
#[derive(Clone, Copy, Debug, PartialEq, Eq, Structural)]
pub struct DumbFsMeta {
    pub magic: u32,
    pub next_ino: u64,
    pub next_free_address: u64,
}

/// A fresh superblock: inode numbers start at 1 and the first free address is
/// the root's.
pub open spec fn fresh_meta() -> DumbFsMeta {
    DumbFsMeta { magic: MAGIC, next_ino: 1, next_free_address: ROOT_ADDRESS }
}

/// The encoding of a superblock: marker, next inode, next free address.
pub open spec fn meta_bytes(m: DumbFsMeta) -> Seq<u8> {
    u32_le(m.magic) + u64_le(m.next_ino) + u64_le(m.next_free_address)
}

/// The superblock decoded from the start of `s`, if `s` is long enough.
pub open spec fn parse_meta(s: Seq<u8>) -> Option<DumbFsMeta> {
    if s.len() < SUPERBLOCK_SIZE {
        None
    } else {
        Some(
            DumbFsMeta {
                magic: u32_at(s, 0),
                next_ino: u64_at(s, 4),
                next_free_address: u64_at(s, 12),
            },
        )
    }
}

/// The superblock that loading `s` yields: present and carrying the marker.
pub open spec fn loaded_meta(s: Seq<u8>) -> Option<DumbFsMeta> {
    match parse_meta(s) {
        Some(m) => if m.magic == MAGIC {
            Some(m)
        } else {
            None
        },
        None => None,
    }
}

/// `m2` is `m` after reserving `size` bytes, which returned `addr`.
pub open spec fn reserve_step(m: DumbFsMeta, size: u64, addr: u64, m2: DumbFsMeta) -> bool {
    &&& addr == m.next_free_address
    &&& m2.next_free_address == m.next_free_address + align_up(size as int, BLOCK_SIZE as int)
    &&& m2.next_ino == m.next_ino
    &&& m2.magic == m.magic
}

/// `m2` is `m` after issuing the inode number `ino`.
pub open spec fn ino_step(m: DumbFsMeta, ino: u64, m2: DumbFsMeta) -> bool {
    &&& ino == m.next_ino
    &&& m2.next_ino == m.next_ino + 1
    &&& m2.next_free_address == m.next_free_address
    &&& m2.magic == m.magic
}

impl Default for DumbFsMeta {
    fn default() -> (r: DumbFsMeta)
        ensures
            r == fresh_meta(),
    {
        DumbFsMeta { magic: MAGIC, next_ino: 1, next_free_address: ROOT_ADDRESS }
    }
}

impl DumbFsMeta {
    /// Issues the next inode number and advances the counter.
    pub fn acquire_next_ino(&mut self) -> (r: u64)
        requires
            old(self).next_ino < u64::MAX,
        ensures
            ino_step(*old(self), r, *final(self)),
    {
        let result = self.next_ino;
        self.next_ino = self.next_ino + 1;
        result
    }

    /// Whether the format marker is the expected one.
    pub fn valid(&self) -> (r: bool)
        ensures
            r == (self.magic == MAGIC),
    {
        self.magic == MAGIC
    }

    /// Returns the next free address and advances it by `size` rounded up to
    /// the block size.
    pub fn reserve(&mut self, size: u64) -> (r: u64)
        requires
            old(self).next_free_address + align_up(size as int, BLOCK_SIZE as int) <= u64::MAX,
        ensures
            reserve_step(*old(self), size, r, *final(self)),
    {
        proof {
            lemma_align(size as int, BLOCK_SIZE as int);
        }
        let result = self.next_free_address;
        self.next_free_address = self.next_free_address + align(size, BLOCK_SIZE);
        result
    }

    /// The encoding of the superblock.
    pub fn encode(&self) -> (r: Vec<u8>)
        ensures
            r@ == meta_bytes(*self),
    {
        let mut out: Vec<u8> = Vec::new();
        let m = self.magic;
        let i = self.next_ino;
        let f = self.next_free_address;
        out.push(m as u8);
        out.push((m >> 8u32) as u8);
        out.push((m >> 16u32) as u8);
        out.push((m >> 24u32) as u8);
        let mut k: u64 = 0;
        while k < 2
            invariant
                k <= 2,
                out@.len() == 4 + 8 * k,
                out@.subrange(0, 4) == u32_le(m),
                k >= 1 ==> out@.subrange(4, 12) == u64_le(i),
                k >= 2 ==> out@.subrange(12, 20) == u64_le(f),
            decreases 2 - k,
        {
            let x = if k == 0 {
                i
            } else {
                f
            };
            let ghost before = out@;
            out.push(x as u8);
            out.push((x >> 8u64) as u8);
            out.push((x >> 16u64) as u8);
            out.push((x >> 24u64) as u8);
            out.push((x >> 32u64) as u8);
            out.push((x >> 40u64) as u8);
            out.push((x >> 48u64) as u8);
            out.push((x >> 56u64) as u8);
            assert(out@ =~= before + u64_le(x));
            assert(out@.subrange(0, 4) =~= before.subrange(0, 4));
            assert(k >= 1 ==> out@.subrange(4, 12) =~= before.subrange(4, 12));
            assert(out@.subrange(4 + 8 * k, 12 + 8 * k) =~= u64_le(x));
            k = k + 1;
        }
        assert(out@ =~= meta_bytes(*self));
        out
    }

    /// Decodes a superblock from the start of `s`; `CorruptionError` if `s`
    /// is shorter than a superblock.
    pub fn decode(s: &[u8]) -> (r: Result<DumbFsMeta, FsError>)
        ensures
            r == match parse_meta(s@) {
                Some(m) => Ok::<DumbFsMeta, FsError>(m),
                None => Err(FsError::CorruptionError),
            },
    {
        if s.len() < 20 {
            return Err(FsError::CorruptionError);
        }
        reveal(u32_at);
        reveal(u64_at);
        let magic = (s[0] as u32) | ((s[1] as u32) << 8u32) | ((s[2] as u32) << 16u32) | ((
        s[3] as u32) << 24u32);
        let next_ino = (s[4] as u64) | ((s[5] as u64) << 8u64) | ((s[6] as u64) << 16u64) | ((
        s[7] as u64) << 24u64) | ((s[8] as u64) << 32u64) | ((s[9] as u64) << 40u64) | ((
        s[10] as u64) << 48u64) | ((s[11] as u64) << 56u64);
        let next_free_address = (s[12] as u64) | ((s[13] as u64) << 8u64) | ((s[14] as u64)
            << 16u64) | ((s[15] as u64) << 24u64) | ((s[16] as u64) << 32u64) | ((s[17] as u64)
            << 40u64) | ((s[18] as u64) << 48u64) | ((s[19] as u64) << 56u64);
        Ok(DumbFsMeta { magic, next_ino, next_free_address })
    }

    /// Reads the superblock at address 0; `CorruptionError` when it is absent
    /// or its marker does not match.
    pub fn load(disk: &Disk) -> (r: Result<DumbFsMeta, FsError>)
        ensures
            r == match loaded_meta(disk@) {
                Some(m) => Ok::<DumbFsMeta, FsError>(m),
                None => Err(FsError::CorruptionError),
            },
    {
        let bytes = match disk.read_at(0, SUPERBLOCK_SIZE) {
            Ok(b) => b,
            Err(_) => return Err(FsError::CorruptionError),
        };
        proof {
            reveal(u32_at);
            reveal(u64_at);
        }
        let m = match DumbFsMeta::decode(bytes.as_slice()) {
            Ok(m) => m,
            Err(e) => return Err(e),
        };
        if m.valid() {
            Ok(m)
        } else {
            Err(FsError::CorruptionError)
        }
    }

    /// Writes the superblock at address 0.
    pub fn sync(&self, disk: &mut Disk) -> (r: Result<(), FsError>)
        ensures
            r is Ok <==> SUPERBLOCK_SIZE <= old(disk).capacity(),
            r is Ok ==> final(disk)@ == written(old(disk)@, 0, meta_bytes(*self)),
            r is Err ==> final(disk)@ == old(disk)@ && r == Err::<(), FsError>(FsError::IoError),
            final(disk).capacity() == old(disk).capacity(),
    {
        let bytes = self.encode();
        disk.write_at(0, bytes.as_slice())
    }
}

/// Allocation monotonicity, for addresses: along any run of reservations of
/// positive sizes from a block-aligned superblock, the returned addresses are
/// block-aligned and strictly increasing.
pub proof fn lemma_reserve_monotone(ms: Seq<DumbFsMeta>, sizes: Seq<u64>, addrs: Seq<u64>)
    requires
        ms.len() == sizes.len() + 1,
        addrs.len() == sizes.len(),
        ms[0].next_free_address % BLOCK_SIZE == 0,
        forall|i: int| 0 <= i < sizes.len() ==> sizes[i] > 0,
        forall|i: int|
            0 <= i < sizes.len() ==> #[trigger] reserve_step(ms[i], sizes[i], addrs[i], ms[i + 1]),
    ensures
        forall|i: int| 0 <= i < addrs.len() ==> addrs[i] % BLOCK_SIZE == 0,
        forall|i: int, j: int| 0 <= i < j < addrs.len() ==> addrs[i] < addrs[j],
{
    lemma_free_address_grows(ms, sizes, addrs, sizes.len() as int);
    assert forall|i: int, j: int| 0 <= i < j < addrs.len() implies addrs[i] < addrs[j] by {
        lemma_free_address_grows(ms, sizes, addrs, j);
        assert(reserve_step(ms[i], sizes[i], addrs[i], ms[i + 1]));
        assert(reserve_step(ms[j], sizes[j], addrs[j], ms[j + 1]));
    }
    assert forall|i: int| 0 <= i < addrs.len() implies addrs[i] % BLOCK_SIZE == 0 by {
        assert(reserve_step(ms[i], sizes[i], addrs[i], ms[i + 1]));
    }
}

proof fn lemma_free_address_grows(ms: Seq<DumbFsMeta>, sizes: Seq<u64>, addrs: Seq<u64>, k: int)
    requires
        ms.len() == sizes.len() + 1,
        addrs.len() == sizes.len(),
        0 <= k <= sizes.len(),
        ms[0].next_free_address % BLOCK_SIZE == 0,
        forall|i: int| 0 <= i < sizes.len() ==> sizes[i] > 0,
        forall|i: int|
            0 <= i < sizes.len() ==> #[trigger] reserve_step(ms[i], sizes[i], addrs[i], ms[i + 1]),
    ensures
        forall|i: int| 0 <= i <= k ==> ms[i].next_free_address % BLOCK_SIZE == 0,
        forall|i: int, j: int|
            0 <= i < j <= k ==> ms[i].next_free_address < ms[j].next_free_address,
    decreases k,
{
    if k > 0 {
        lemma_free_address_grows(ms, sizes, addrs, k - 1);
        let j = k - 1;
        assert(reserve_step(ms[j], sizes[j], addrs[j], ms[j + 1]));
        lemma_align(sizes[k - 1] as int, BLOCK_SIZE as int);
        let a = ms[k - 1].next_free_address as int;
        let b = align_up(sizes[k - 1] as int, BLOCK_SIZE as int);
        assert((a + b) % 512 == 0) by {
            vstd::arithmetic::div_mod::lemma_add_mod_noop(a, b, 512);
        }
    }
}

/// Allocation monotonicity, for inode numbers: along any run of inode
/// issuances from a fresh superblock, the `i`-th number issued is `i + 1`, so
/// they start at 1 and strictly increase.
pub proof fn lemma_ino_sequence(ms: Seq<DumbFsMeta>, inos: Seq<u64>)
    requires
        ms.len() == inos.len() + 1,
        ms[0] == fresh_meta(),
        forall|i: int| 0 <= i < inos.len() ==> #[trigger] ino_step(ms[i], inos[i], ms[i + 1]),
    ensures
        forall|i: int| 0 <= i < inos.len() ==> inos[i] == i + 1,
        forall|i: int, j: int| 0 <= i < j < inos.len() ==> inos[i] < inos[j],
{
    lemma_ino_counter(ms, inos, inos.len() as int);
    assert forall|i: int| 0 <= i < inos.len() implies inos[i] == i + 1 by {
        assert(ino_step(ms[i], inos[i], ms[i + 1]));
    }
}

proof fn lemma_ino_counter(ms: Seq<DumbFsMeta>, inos: Seq<u64>, k: int)
    requires
        ms.len() == inos.len() + 1,
        0 <= k <= inos.len(),
        ms[0] == fresh_meta(),
        forall|i: int| 0 <= i < inos.len() ==> #[trigger] ino_step(ms[i], inos[i], ms[i + 1]),
    ensures
        forall|i: int| 0 <= i <= k ==> ms[i].next_ino == i + 1,
    decreases k,
{
    if k > 0 {
        lemma_ino_counter(ms, inos, k - 1);
        let j = k - 1;
        assert(ino_step(ms[j], inos[j], ms[j + 1]));
    }
}

} // verus!
