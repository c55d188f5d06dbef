use vstd::prelude::*;

use crate::error::FsError;

verus! {

/// The bytes of `d` after `b` was written at offset `at`; a gap between the old
/// end and `at` reads as zeros.
#[verifier::opaque]
pub open spec fn written(d: Seq<u8>, at: int, b: Seq<u8>) -> Seq<u8> {
    let n = if at + b.len() > d.len() {
        at + b.len()
    } else {
        d.len() as int
    };
    Seq::new(
        n as nat,
        |i: int|
            if at <= i < at + b.len() {
                b[i - at]
            } else if i < d.len() {
                d[i]
            } else {
                0u8
            },
    )
}

/// A byte-addressable block store: the whole medium held as an image with a
/// fixed capacity. Reads and writes are positioned and unbuffered; a write
/// past the current end grows the image, up to the capacity.
pub struct Disk {
    data: Vec<u8>,
    capacity: usize,
}

impl View for Disk {
    type V = Seq<u8>;

    closed spec fn view(&self) -> Seq<u8> {
        self.data@
    }
}

impl Disk {
    /// The largest number of bytes the medium can hold.
    pub closed spec fn capacity(&self) -> nat {
        self.capacity as nat
    }

    /// An empty medium that can hold `capacity` bytes.
    pub fn new(capacity: usize) -> (r: Disk)
        ensures
            r@ == Seq::<u8>::empty(),
            r.capacity() == capacity,
    {
        Disk { data: Vec::new(), capacity }
    }

    /// A medium holding `data`, able to grow up to `capacity` bytes (or the
    /// length of `data`, if that is larger).
    pub fn from_image(data: Vec<u8>, capacity: usize) -> (r: Disk)
        ensures
            r@ == data@,
            r.capacity() == if data@.len() > capacity {
                data@.len()
            } else {
                capacity as nat
            },
    {
        let cap = if data.len() > capacity {
            data.len()
        } else {
            capacity
        };
        Disk { data, capacity: cap }
    }

    /// The capacity of the medium in bytes.
    pub fn size(&self) -> (r: u64)
        ensures
            r == self.capacity(),
    {
        self.capacity as u64
    }

    /// The number of bytes the image currently holds.
    pub fn len(&self) -> (r: u64)
        ensures
            r == self@.len(),
    {
        self.data.len() as u64
    }

    /// The current image, for persisting it elsewhere.
    pub fn image(&self) -> (r: &[u8])
        ensures
            r@ == self@,
    {
        self.data.as_slice()
    }

    /// Reads `len` bytes at `offset`; fails with `IoError` unless the whole
    /// range lies within the image.
    pub fn read_at(&self, offset: u64, len: u64) -> (r: Result<Vec<u8>, FsError>)
        ensures
            r is Ok <==> offset + len <= self@.len(),
            r matches Ok(v) ==> v@ == self@.subrange(offset as int, offset + len),
            r is Err ==> r == Err::<Vec<u8>, FsError>(FsError::IoError),
    {
        let n = self.data.len();
        if offset > n as u64 || len > n as u64 - offset {
            return Err(FsError::IoError);
        }
        let start = offset as usize;
        let count = len as usize;
        let mut out: Vec<u8> = Vec::with_capacity(count);
        let mut i: usize = 0;
        while i < count
            invariant
                start + count <= n,
                n == self.data.len(),
                i <= count,
                out@ == self@.subrange(start as int, start + i),
            decreases count - i,
        {
            out.push(self.data[start + i]);
            i = i + 1;
            proof {
                assert(out@ =~= self@.subrange(start as int, start + i));
            }
        }
        Ok(out)
    }

    /// Writes `bytes` at `offset`; fails with `IoError`, changing nothing,
    /// when the write would end past the capacity.
    pub fn write_at(&mut self, offset: u64, bytes: &[u8]) -> (r: Result<(), FsError>)
        ensures
            r is Ok <==> offset + bytes@.len() <= old(self).capacity(),
            r is Ok ==> final(self)@ == written(old(self)@, offset as int, bytes@),
            r is Err ==> final(self)@ == old(self)@ && r == Err::<(), FsError>(FsError::IoError),
            final(self).capacity() == old(self).capacity(),
    {
        let cap = self.capacity;
        if offset > cap as u64 || bytes.len() as u64 > cap as u64 - offset {
            return Err(FsError::IoError);
        }
        let start = offset as usize;
        let end = start + bytes.len();
        let ghost d0 = self.data@;
        while self.data.len() < end
            invariant
                end <= cap,
                cap == self.capacity,
                self.data.len() >= d0.len(),
                forall|i: int| 0 <= i < d0.len() ==> self.data@[i] == d0[i],
                forall|i: int| d0.len() <= i < self.data.len() ==> self.data@[i] == 0u8,
                self.data.len() <= if end > d0.len() {
                    end as int
                } else {
                    d0.len() as int
                },
            decreases end - self.data.len(),
        {
            self.data.push(0u8);
        }
        let mut i: usize = 0;
        while i < bytes.len()
            invariant
                end == start + bytes@.len(),
                end <= cap,
                cap == self.capacity,
                self.data.len() == if end > d0.len() {
                    end as int
                } else {
                    d0.len() as int
                },
                i <= bytes.len(),
                forall|j: int|
                    0 <= j < self.data.len() ==> self.data@[j] == if start <= j < start + i {
                        bytes@[j - start]
                    } else if j < d0.len() {
                        d0[j]
                    } else {
                        0u8
                    },
            decreases bytes.len() - i,
        {
            self.data.set(start + i, bytes[i]);
            i = i + 1;
        }
        proof {
            reveal(written);
            assert(self.data@ =~= written(d0, offset as int, bytes@));
        }
        Ok(())
    }
}

} // verus!
