//! Inodes and the inode table.

use crate::codec::{
    get_u16, get_u32, lemma_u16_le_of_read, lemma_u16_roundtrip, lemma_u32_le_of_read,
    lemma_u32_roundtrip, put_u16, put_u32, u16_le, u32_le,
};
use crate::error::Error;
use vstd::prelude::*;
use vstd::slice::slice_subrange;

verus! {

/// Index of the reserved inode, which names nothing.
pub const BAD_INODE: u32 = 0;

/// Index of the root directory.
pub const ROOT_INODE: u32 = 1;

/// Length in bytes of an inode on the wire: four 16-bit fields, four 32-bit
/// fields and ten 32-bit block addresses.
pub const INODE_SIZE: usize = 64;

/// Number of direct block addresses that an inode holds.
pub const DIRECT_BLOCKS: usize = 10;

/// Mode of the root directory: a directory, `rwxr-xr-x`.
pub const ROOT_MODE: u16 = 0o040_755;

/// Metadata of one file or directory, with its direct block addresses.
#[derive(Debug, Copy, Clone, PartialEq, Eq)]
pub struct Inode {
    pub mode: u16,
    pub nchildren: u16,
    pub uid: u16,
    pub gid: u16,
    pub size: u32,
    pub atime: u32,
    pub mtime: u32,
    pub ctime: u32,
    pub blkaddr: [u32; 10],
}

/// The bytes of a run of block addresses, four per address.
pub open spec fn addrs_le(addrs: Seq<u32>) -> Seq<u8> {
    Seq::new(4 * addrs.len(), |i: int| u32_le(addrs[i / 4])[i % 4])
}

/// The bytes of a run of inodes, sixty-four per inode, with nothing between.
pub open spec fn encode_inodes(inodes: Seq<Inode>) -> Seq<u8> {
    Seq::new(64 * inodes.len(), |i: int| inodes[i / 64].encode()[i % 64])
}

/// The inode table of a fresh filesystem: slot 1 holds the empty root
/// directory and every other slot is zero.
pub open spec fn fresh_inodes(ninodes: nat) -> Seq<Inode> {
    Seq::new(
        ninodes,
        |i: int|
            if i == 1 {
                Inode::fresh_root()
            } else {
                Inode::zero()
            },
    )
}

/// Inode `k` of a run stands at bytes `64 * k .. 64 * k + 64` of its encoding.
pub proof fn lemma_encode_inodes_at(inodes: Seq<Inode>, k: int)
    requires
        0 <= k < inodes.len(),
    ensures
        encode_inodes(inodes).subrange(64 * k, 64 * k + 64) == inodes[k].encode(),
{
}

/// Two runs of inodes with the same bytes are the same run.
pub proof fn lemma_encode_inodes_injective(a: Seq<Inode>, b: Seq<Inode>)
    requires
        encode_inodes(a) == encode_inodes(b),
    ensures
        a == b,
{
    assert(encode_inodes(a).len() == 64 * a.len());
    assert forall|k: int| 0 <= k < a.len() implies a[k] == b[k] by {
        lemma_encode_inodes_at(a, k);
        lemma_encode_inodes_at(b, k);
        Inode::lemma_encode_injective(a[k], b[k]);
    }
}

impl Inode {
    /// An inode with the given fields.
    pub fn new(
        mode: u16,
        nchildren: u16,
        uid: u16,
        gid: u16,
        size: u32,
        atime: u32,
        mtime: u32,
        ctime: u32,
        blkaddr: [u32; 10],
    ) -> (inode: Self)
        ensures
            inode == (Inode { mode, nchildren, uid, gid, size, atime, mtime, ctime, blkaddr }),
    {
        Self { mode, nchildren, uid, gid, size, atime, mtime, ctime, blkaddr }
    }

    /// How many inodes fit in one block of `block_size` bytes.
    #[inline(always)]
    pub fn inodes_per_block(&self, block_size: u64) -> (n: u64)
        ensures
            n == block_size / 64,
    {
        block_size / 64
    }

    /// The inode of a free slot: every field zero.
    pub open spec fn zero() -> Inode {
        Inode {
            mode: 0,
            nchildren: 0,
            uid: 0,
            gid: 0,
            size: 0,
            atime: 0,
            mtime: 0,
            ctime: 0,
            blkaddr: [0u32, 0u32, 0u32, 0u32, 0u32, 0u32, 0u32, 0u32, 0u32, 0u32],
        }
    }

    /// The inode of an empty root directory, as it stands after formatting:
    /// a directory with mode `rwxr-xr-x`, owned by nobody, whose entries will
    /// stand in data block 0.
    pub open spec fn fresh_root() -> Inode {
        Inode { mode: ROOT_MODE, ..Inode::zero() }
    }

    /// The sixty-four bytes of the inode: its fields in declared order, each
    /// low byte first, with nothing between them.
    pub open spec fn encode(self) -> Seq<u8> {
        u16_le(self.mode) + u16_le(self.nchildren) + u16_le(self.uid) + u16_le(self.gid) + u32_le(
            self.size,
        ) + u32_le(self.atime) + u32_le(self.mtime) + u32_le(self.ctime) + addrs_le(self.blkaddr@)
    }

    /// Where each field stands in the encoding.
    pub proof fn lemma_encode_layout(self)
        ensures
            self.encode().len() == 64,
            self.encode().subrange(0, 2) == u16_le(self.mode),
            self.encode().subrange(2, 4) == u16_le(self.nchildren),
            self.encode().subrange(4, 6) == u16_le(self.uid),
            self.encode().subrange(6, 8) == u16_le(self.gid),
            self.encode().subrange(8, 12) == u32_le(self.size),
            self.encode().subrange(12, 16) == u32_le(self.atime),
            self.encode().subrange(16, 20) == u32_le(self.mtime),
            self.encode().subrange(20, 24) == u32_le(self.ctime),
            forall|k: int|
                0 <= k < 10 ==> #[trigger] self.encode().subrange(24 + 4 * k, 28 + 4 * k) == u32_le(
                    self.blkaddr[k],
                ),
    {
    }

    /// Two inodes with the same bytes are the same inode.
    pub proof fn lemma_encode_injective(a: Inode, b: Inode)
        requires
            a.encode() == b.encode(),
        ensures
            a == b,
    {
        let e = a.encode();
        a.lemma_encode_layout();
        b.lemma_encode_layout();
        lemma_u16_roundtrip(e, 0, a.mode);
        lemma_u16_roundtrip(e, 0, b.mode);
        lemma_u16_roundtrip(e, 2, a.nchildren);
        lemma_u16_roundtrip(e, 2, b.nchildren);
        lemma_u16_roundtrip(e, 4, a.uid);
        lemma_u16_roundtrip(e, 4, b.uid);
        lemma_u16_roundtrip(e, 6, a.gid);
        lemma_u16_roundtrip(e, 6, b.gid);
        lemma_u32_roundtrip(e, 8, a.size);
        lemma_u32_roundtrip(e, 8, b.size);
        lemma_u32_roundtrip(e, 12, a.atime);
        lemma_u32_roundtrip(e, 12, b.atime);
        lemma_u32_roundtrip(e, 16, a.mtime);
        lemma_u32_roundtrip(e, 16, b.mtime);
        lemma_u32_roundtrip(e, 20, a.ctime);
        lemma_u32_roundtrip(e, 20, b.ctime);
        assert forall|k: int| 0 <= k < 10 implies a.blkaddr[k] == b.blkaddr[k] by {
            assert(e.subrange(24 + 4 * k, 28 + 4 * k) == u32_le(a.blkaddr[k]));
            lemma_u32_roundtrip(e, 24 + 4 * k, a.blkaddr[k]);
            lemma_u32_roundtrip(e, 24 + 4 * k, b.blkaddr[k]);
        }
        assert(a.blkaddr =~= b.blkaddr);
    }

    /// Appends the sixty-four bytes of the inode to `out`.
    pub fn write_to(&self, out: &mut Vec<u8>)
        ensures
            final(out)@ == old(out)@ + self.encode(),
    {
        put_u16(out, self.mode);
        put_u16(out, self.nchildren);
        put_u16(out, self.uid);
        put_u16(out, self.gid);
        put_u32(out, self.size);
        put_u32(out, self.atime);
        put_u32(out, self.mtime);
        put_u32(out, self.ctime);
        let ghost head = out@;
        let mut k: usize = 0;
        while k < 10
            invariant
                k <= 10,
                out@ == head + addrs_le(self.blkaddr@.subrange(0, k as int)),
            decreases 10 - k,
        {
            put_u32(out, self.blkaddr[k]);
            k += 1;
        }
    }

    /// The sixty-four bytes of the inode.
    pub fn to_bytes(&self) -> (out: Vec<u8>)
        ensures
            out@ == self.encode(),
    {
        let mut out: Vec<u8> = Vec::new();
        self.write_to(&mut out);
        out
    }

    /// A run of sixty-four bytes that holds each field of `self` at its
    /// place is the encoding of `self`.
    pub proof fn lemma_encode_is(self, w: Seq<u8>)
        requires
            w.len() == 64,
            w.subrange(0, 2) == u16_le(self.mode),
            w.subrange(2, 4) == u16_le(self.nchildren),
            w.subrange(4, 6) == u16_le(self.uid),
            w.subrange(6, 8) == u16_le(self.gid),
            w.subrange(8, 12) == u32_le(self.size),
            w.subrange(12, 16) == u32_le(self.atime),
            w.subrange(16, 20) == u32_le(self.mtime),
            w.subrange(20, 24) == u32_le(self.ctime),
            forall|k: int|
                0 <= k < 10 ==> #[trigger] w.subrange(24 + 4 * k, 28 + 4 * k) == u32_le(
                    self.blkaddr[k],
                ),
        ensures
            self.encode() == w,
    {
        let tail = w.subrange(24, 64);
        let a = addrs_le(self.blkaddr@);
        assert forall|i: int| 0 <= i < 40 implies tail[i] == a[i] by {
            let k = i / 4;
            let r = i % 4;
            assert(w.subrange(24 + 4 * k, 28 + 4 * k)[r] == w[24 + i]);
        }
        assert(w =~= w.subrange(0, 2) + w.subrange(2, 4) + w.subrange(4, 6) + w.subrange(6, 8)
            + w.subrange(8, 12) + w.subrange(12, 16) + w.subrange(16, 20) + w.subrange(20, 24)
            + tail);
    }

    /// Reads the inode stored at `bytes[at .. at + 64]`.
    pub fn from_bytes(bytes: &[u8], at: usize) -> (r: Result<Inode, Error>)
        ensures
            r is Ok <==> at + 64 <= bytes@.len(),
            r is Err ==> r == Err::<Inode, Error>(Error::ShortBuffer),
            r matches Ok(inode) ==> inode.encode() == bytes@.subrange(at as int, at + 64),
    {
        if bytes.len() < 64 || at > bytes.len() - 64 {
            return Err(Error::ShortBuffer);
        }
        let w = slice_subrange(bytes, at, at + 64);
        let mode = get_u16(w, 0);
        let nchildren = get_u16(w, 2);
        let uid = get_u16(w, 4);
        let gid = get_u16(w, 6);
        let size = get_u32(w, 8);
        let atime = get_u32(w, 12);
        let mtime = get_u32(w, 16);
        let ctime = get_u32(w, 20);
        let mut blkaddr = [0u32; 10];
        let mut k: usize = 0;
        while k < 10
            invariant
                k <= 10,
                w@.len() == 64,
                forall|j: int|
                    0 <= j < k ==> u32_le(#[trigger] blkaddr@[j]) == w@.subrange(
                        24 + 4 * j,
                        28 + 4 * j,
                    ),
            decreases 10 - k,
        {
            let a = get_u32(w, 24 + 4 * k);
            proof {
                lemma_u32_le_of_read(w@, 24 + 4 * k);
            }
            blkaddr[k] = a;
            k += 1;
        }
        let inode = Inode { mode, nchildren, uid, gid, size, atime, mtime, ctime, blkaddr };
        proof {
            lemma_u16_le_of_read(w@, 0);
            lemma_u16_le_of_read(w@, 2);
            lemma_u16_le_of_read(w@, 4);
            lemma_u16_le_of_read(w@, 6);
            lemma_u32_le_of_read(w@, 8);
            lemma_u32_le_of_read(w@, 12);
            lemma_u32_le_of_read(w@, 16);
            lemma_u32_le_of_read(w@, 20);
            inode.lemma_encode_is(w@);
        }
        Ok(inode)
    }
}

impl Default for Inode {
    /// The inode of a free slot: every field zero.
    fn default() -> (inode: Self)
        ensures
            inode == Inode::zero(),
    {
        let blkaddr = [0u32; 10];
        assert(blkaddr =~= Inode::zero().blkaddr);
        Self::new(0, 0, 0, 0, 0, 0, 0, 0, blkaddr)
    }
}

/// The inode table: one inode for each index below `ninodes`.
#[derive(Debug, Clone)]
pub struct InodeList {
    pub inodes: Vec<Inode>,
}

impl View for InodeList {
    type V = Seq<Inode>;

    open spec fn view(&self) -> Seq<Inode> {
        self.inodes@
    }
}

impl InodeList {
    /// A table of `ninodes` inodes for a fresh filesystem: slot 1 holds the
    /// empty root directory and every other slot is zero.
    pub fn new(ninodes: usize) -> (list: Self)
        requires
            ninodes >= 2,
        ensures
            list@ == fresh_inodes(ninodes as nat),
    {
        let blkaddr = [0u32; 10];
        assert(blkaddr =~= Inode::zero().blkaddr);
        let root_inode = Inode::new(ROOT_MODE, 0, 0, 0, 0, 0, 0, 0, blkaddr);
        let mut inodes: Vec<Inode> = Vec::new();
        inodes.push(Inode::default());
        inodes.push(root_inode);
        let mut i: usize = 2;
        while i < ninodes
            invariant
                2 <= i <= ninodes,
                inodes@.len() == i,
                inodes@ == fresh_inodes(i as nat),
            decreases ninodes - i,
        {
            inodes.push(Inode::default());
            i += 1;
        }
        Self { inodes }
    }

    /// A copy of inode `index`.
    pub fn get(&self, index: usize) -> (inode: Inode)
        requires
            index < self@.len(),
        ensures
            inode == self@[index as int],
    {
        self.inodes[index]
    }

    /// Overwrites inode `index` with `inode`.
    pub fn set(&mut self, index: usize, inode: Inode)
        requires
            index < old(self)@.len(),
        ensures
            final(self)@ == old(self)@.update(index as int, inode),
    {
        self.inodes.set(index, inode);
    }

    /// Zeroes inode `index`.
    pub fn clear(&mut self, index: usize)
        requires
            index < old(self)@.len(),
        ensures
            final(self)@ == old(self)@.update(index as int, Inode::zero()),
    {
        self.inodes.set(index, Inode::default());
    }

    /// Appends the bytes of the table to `out`, inode after inode.
    pub fn write_to(&self, out: &mut Vec<u8>)
        ensures
            final(out)@ == old(out)@ + encode_inodes(self@),
    {
        let ghost before = out@;
        let n = self.inodes.len();
        let mut k: usize = 0;
        while k < n
            invariant
                k <= n,
                n == self@.len(),
                out@ == before + encode_inodes(self@.subrange(0, k as int)),
            decreases n - k,
        {
            self.inodes[k].write_to(out);
            k += 1;
        }
    }

    /// Reads `count` inodes stored back to back from `bytes[at ..]`.
    pub fn from_bytes(bytes: &[u8], at: usize, count: usize) -> (r: Result<InodeList, Error>)
        ensures
            r is Ok <==> at + 64 * count <= bytes@.len(),
            r is Err ==> r == Err::<InodeList, Error>(Error::ShortBuffer),
            r matches Ok(list) ==> list@.len() == count && encode_inodes(list@) == bytes@.subrange(
                at as int,
                at + 64 * count,
            ),
    {
        if at > bytes.len() || count > (bytes.len() - at) / 64 {
            return Err(Error::ShortBuffer);
        }
        let mut inodes: Vec<Inode> = Vec::new();
        let mut k: usize = 0;
        while k < count
            invariant
                k <= count,
                at + 64 * count <= bytes@.len() <= usize::MAX,
                inodes@.len() == k,
                forall|j: int|
                    0 <= j < k ==> (#[trigger] inodes@[j]).encode() == bytes@.subrange(
                        at + 64 * j,
                        at + 64 * j + 64,
                    ),
            decreases count - k,
        {
            let r = Inode::from_bytes(bytes, at + 64 * k);
            match r {
                Ok(inode) => {
                    inodes.push(inode);
                },
                Err(_) => {
                    return Err(Error::ShortBuffer);
                },
            }
            k += 1;
        }
        let list = InodeList { inodes };
        proof {
            let e = encode_inodes(list@);
            let w = bytes@.subrange(at as int, at + 64 * count);
            assert forall|i: int| 0 <= i < 64 * count implies e[i] == w[i] by {
                let j = i / 64;
                let r = i % 64;
                assert(list@[j].encode() == bytes@.subrange(at + 64 * j, at + 64 * j + 64));
                assert(bytes@.subrange(at + 64 * j, at + 64 * j + 64)[r] == bytes@[at + i]);
            }
            assert(e =~= w);
        }
        Ok(list)
    }
}

impl Default for InodeList {
    /// The smallest table that holds a root directory.
    fn default() -> (list: Self)
        ensures
            list@ == fresh_inodes(2),
    {
        Self::new(2)
    }
}

} // verus!
