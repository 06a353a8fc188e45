//! The block device, as a run of bytes held in memory.
//!
//! The device behaves as a regular file does: a read that reaches past its
//! end fails, and a write that reaches past its end makes it longer, with
//! zeros in any gap. A write of no bytes changes nothing.

use crate::error::Error;
use vstd::prelude::*;

verus! {

/// The device after `bytes` are written at `offset`.
#[verifier::opaque]
pub open spec fn write_at(dev: Seq<u8>, offset: int, bytes: Seq<u8>) -> Seq<u8> {
    if bytes.len() == 0 {
        dev
    } else {
        Seq::new(
            if dev.len() >= offset + bytes.len() {
                dev.len()
            } else {
                (offset + bytes.len()) as nat
            },
            |i: int|
                if offset <= i < offset + bytes.len() {
                    bytes[i - offset]
                } else if i < dev.len() {
                    dev[i]
                } else {
                    0u8
                },
        )
    }
}

/// What was written can be read back where it was written.
pub proof fn lemma_write_then_read(dev: Seq<u8>, offset: int, bytes: Seq<u8>)
    requires
        0 <= offset,
        bytes.len() > 0 || offset <= dev.len(),
    ensures
        write_at(dev, offset, bytes).len() >= offset + bytes.len(),
        write_at(dev, offset, bytes).len() >= dev.len(),
        write_at(dev, offset, bytes).subrange(offset, offset + bytes.len()) == bytes,
{
    reveal(write_at);
}

/// A write leaves every range that it does not touch as it was.
pub proof fn lemma_write_elsewhere(dev: Seq<u8>, offset: int, bytes: Seq<u8>, from: int, to: int)
    requires
        0 <= offset,
        0 <= from <= to <= dev.len(),
        to <= offset || offset + bytes.len() <= from,
    ensures
        write_at(dev, offset, bytes).len() >= dev.len(),
        write_at(dev, offset, bytes).subrange(from, to) == dev.subrange(from, to),
{
    reveal(write_at);
}

/// A block device held in memory.
#[derive(Debug, Clone)]
pub struct BlockDevice {
    pub data: Vec<u8>,
}

impl View for BlockDevice {
    type V = Seq<u8>;

    open spec fn view(&self) -> Seq<u8> {
        self.data@
    }
}

impl BlockDevice {
    /// The device that holds `data`.
    pub fn new(data: Vec<u8>) -> (dev: Self)
        ensures
            dev@ == data@,
    {
        Self { data }
    }

    /// Length of the device in bytes.
    pub fn len(&self) -> (n: u64)
        ensures
            n == self@.len(),
            n <= usize::MAX,
    {
        self.data.len() as u64
    }

    /// The bytes of the device.
    pub fn into_bytes(self) -> (data: Vec<u8>)
        ensures
            data@ == self@,
    {
        self.data
    }

    /// Reads `len` bytes at `offset`. Fails where the range reaches past the
    /// end of the device.
    pub fn read_exact_at(&self, offset: u64, len: usize) -> (r: Result<Vec<u8>, Error>)
        ensures
            r is Ok <==> offset + len <= self@.len(),
            r is Err ==> r == Err::<Vec<u8>, Error>(Error::IoError),
            r matches Ok(bytes) ==> bytes@ == self@.subrange(offset as int, offset + len),
    {
        let n = self.data.len();
        if len > n || offset > (n - len) as u64 {
            return Err(Error::IoError);
        }
        let from = offset as usize;
        let mut out: Vec<u8> = Vec::new();
        let mut i: usize = 0;
        while i < len
            invariant
                i <= len,
                from + len <= self.data@.len(),
                n == self.data@.len(),
                out@ == self@.subrange(from as int, from + i),
            decreases len - i,
        {
            out.push(self.data[from + i]);
            i += 1;
        }
        Ok(out)
    }

    /// Writes `bytes` at `offset`, making the device longer where the range
    /// reaches past its end.
    pub fn write_all_at(&mut self, offset: u64, bytes: &[u8])
        requires
            offset + bytes@.len() <= usize::MAX,
        ensures
            final(self)@ == write_at(old(self)@, offset as int, bytes@),
    {
        proof {
            reveal(write_at);
        }
        let at = offset as usize;
        let n = bytes.len();
        if n == 0 {
            return;
        }
        let ghost before = self@;
        while self.data.len() < at
            invariant
                self@.len() >= before.len(),
                self@.len() <= at || self@.len() == before.len(),
                forall|j: int| 0 <= j < before.len() ==> self@[j] == before[j],
                forall|j: int| before.len() <= j < self@.len() ==> self@[j] == 0u8,
            decreases at - self.data.len(),
        {
            self.data.push(0u8);
        }
        let ghost padded = self@;
        let mut i: usize = 0;
        while i < n
            invariant
                i <= n,
                0 < n == bytes@.len(),
                at + n <= usize::MAX,
                at <= padded.len(),
                padded.len() == if before.len() >= at {
                    before.len() as int
                } else {
                    at as int
                },
                forall|j: int| 0 <= j < before.len() ==> padded[j] == before[j],
                forall|j: int| before.len() <= j < padded.len() ==> padded[j] == 0u8,
                self@.len() == if padded.len() >= at + i {
                    padded.len() as int
                } else {
                    at + i
                },
                forall|j: int| 0 <= j < at ==> self@[j] == padded[j],
                forall|j: int| at <= j < at + i ==> self@[j] == bytes@[j - at],
                forall|j: int| at + i <= j < self@.len() ==> self@[j] == padded[j],
            decreases n - i,
        {
            if at + i < self.data.len() {
                self.data.set(at + i, bytes[i]);
            } else {
                self.data.push(bytes[i]);
            }
            i += 1;
        }
        let ghost want = write_at(before, offset as int, bytes@);
        assert forall|j: int| 0 <= j < want.len() implies self@[j] == want[j] by {
            if j < at {
                assert(self@[j] == padded[j]);
            }
        }
    }
}

} // verus!
