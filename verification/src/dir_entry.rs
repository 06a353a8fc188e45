//! Directory entries.

use crate::codec::{get_u32, lemma_u32_le_of_read, lemma_u32_roundtrip, put_u32, u32_le};
use crate::error::Error;
use vstd::prelude::*;

verus! {

/// Length in bytes of the name field of a directory entry.
pub const MAX_NAME_LEN: usize = 60;

/// Length in bytes of a directory entry on the wire.
pub const DIR_ENTRY_SIZE: usize = 64;

/// One entry of a directory: a zero-padded name and the inode it names.
#[derive(Debug, Clone, Copy, PartialEq, Eq)]
pub struct DirEntry {
    pub name: [u8; 60],
    pub inode: u32,
}

impl DirEntry {
    /// The entry that gives `name` to inode `inode`.
    pub fn new(name: [u8; 60], inode: u32) -> (entry: Self)
        ensures
            entry.name == name,
            entry.inode == inode,
    {
        Self { name, inode }
    }

    /// The sixty-four bytes of the entry: the name, then the inode index.
    pub open spec fn encode(self) -> Seq<u8> {
        self.name@ + u32_le(self.inode)
    }

    /// Two entries with the same bytes are the same entry.
    pub proof fn lemma_encode_injective(a: DirEntry, b: DirEntry)
        requires
            a.encode() == b.encode(),
        ensures
            a == b,
    {
        let e = a.encode();
        assert(a.name@ == e.subrange(0, 60));
        assert(a.name =~= b.name);
        assert(e.subrange(60, 64) == u32_le(a.inode));
        lemma_u32_roundtrip(e, 60, a.inode);
        lemma_u32_roundtrip(e, 60, b.inode);
    }

    /// The bytes of the entry, as they stand in a directory block.
    pub fn to_bytes(&self) -> (out: Vec<u8>)
        ensures
            out@ == self.encode(),
    {
        let mut out: Vec<u8> = Vec::new();
        let mut i: usize = 0;
        while i < 60
            invariant
                i <= 60,
                out@ == self.name@.subrange(0, i as int),
            decreases 60 - i,
        {
            out.push(self.name[i]);
            i += 1;
        }
        put_u32(&mut out, self.inode);
        out
    }

    /// Reads the entry stored at `bytes[at .. at + 64]`.
    pub fn from_bytes(bytes: &[u8], at: usize) -> (r: Result<DirEntry, Error>)
        ensures
            r is Ok <==> at + 64 <= bytes@.len(),
            r is Err ==> r == Err::<DirEntry, Error>(Error::ShortBuffer),
            r matches Ok(entry) ==> entry.encode() == bytes@.subrange(at as int, at + 64),
    {
        if bytes.len() < 64 || at > bytes.len() - 64 {
            return Err(Error::ShortBuffer);
        }
        let mut name = [0u8; 60];
        let mut i: usize = 0;
        while i < 60
            invariant
                i <= 60,
                at + 64 <= bytes@.len() <= usize::MAX,
                forall|j: int| 0 <= j < i ==> name@[j] == bytes@[at + j],
            decreases 60 - i,
        {
            name[i] = bytes[at + i];
            i += 1;
        }
        let inode = get_u32(bytes, at + 60);
        let entry = DirEntry { name, inode };
        proof {
            lemma_u32_le_of_read(bytes@, at + 60);
        }
        Ok(entry)
    }
}

} // verus!
