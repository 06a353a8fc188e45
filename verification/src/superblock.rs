//! The superblock and the geometry it records.

use crate::codec::{
    get_u32, le_u32, lemma_u32_roundtrip, put_u32, put_zeros, u32_le, zero_bytes,
};
use crate::error::Error;
use crate::inode::INODE_SIZE;
use crate::utils::bits_per_block_spec;
use crate::MAGIC;
use vstd::prelude::*;

verus! {

/// Length in bytes of the fields of the superblock; the rest of its block is
/// padding.
pub const SUPER_BLOCK_HEADER: usize = 28;

/// Data blocks per unit of inode blocks: one block's worth of inodes is
/// reserved for every 4096 data blocks.
pub const BLOCKS_PER_INODE_BLOCK: u64 = 4096;

/// The geometry of a filesystem, as its first block records it.
#[derive(Debug, Clone, Copy, PartialEq, Eq, Structural)]
pub struct SuperBlock {
    pub magic: u32,
    pub blocksize: u32,
    pub bam_blocks: u32,
    pub iam_blocks: u32,
    pub inode_blocks: u32,
    pub nblocks: u32,
    pub ninodes: u32,
}

/// `a / b`, rounded up.
pub open spec fn ceil_div(a: int, b: int) -> int {
    (a + b - 1) / b
}

/// Rounding up leaves no remainder uncovered and adds less than one unit.
pub proof fn lemma_ceil_div(a: int, b: int)
    requires
        0 <= a,
        0 < b,
    ensures
        0 <= ceil_div(a, b) <= a,
        a <= ceil_div(a, b) * b < a + b,
{
    let q = (a + b - 1) / b;
    assert(0 <= q <= a && a <= q * b < a + b) by (nonlinear_arith)
        requires
            0 <= a,
            0 < b,
            q == (a + b - 1) / b,
    ;
}

/// Number of whole blocks on a device of `device_len` bytes.
pub open spec fn nblocks_of(device_len: int, block_size: int) -> int {
    device_len / block_size
}

/// Number of blocks that hold the block allocation map.
pub open spec fn bam_blocks_of(device_len: int, block_size: int) -> int {
    ceil_div(nblocks_of(device_len, block_size), bits_per_block_spec(block_size))
}

/// Number of inodes: one block's worth for every 4096 data blocks.
pub open spec fn ninodes_of(device_len: int, block_size: int) -> int {
    (nblocks_of(device_len, block_size) / 4096) * (block_size / 64)
}

/// Number of blocks that hold the inode allocation map.
pub open spec fn iam_blocks_of(device_len: int, block_size: int) -> int {
    ceil_div(ninodes_of(device_len, block_size), bits_per_block_spec(block_size))
}

/// Number of blocks that hold the inode table.
pub open spec fn inode_blocks_of(device_len: int, block_size: int) -> int {
    ceil_div(ninodes_of(device_len, block_size) * 64, block_size)
}

/// Whether the geometry of such a device can be written down: a block holds
/// the superblock's fields, and every count fits its 32-bit field.
pub open spec fn representable(device_len: int, block_size: int) -> bool {
    &&& 28 <= block_size <= u32::MAX
    &&& 0 <= device_len
    &&& nblocks_of(device_len, block_size) <= u32::MAX
    &&& ninodes_of(device_len, block_size) <= u32::MAX
}

/// The counts derived from a device are consistent: each map has a bit for
/// every resource, and the inode table fits in its blocks.
pub proof fn lemma_geometry(device_len: int, block_size: int)
    requires
        0 <= device_len,
        28 <= block_size,
    ensures
        0 <= nblocks_of(device_len, block_size),
        nblocks_of(device_len, block_size) * block_size <= device_len,
        0 <= ninodes_of(device_len, block_size),
        0 <= bam_blocks_of(device_len, block_size) <= nblocks_of(device_len, block_size),
        0 <= iam_blocks_of(device_len, block_size) <= ninodes_of(device_len, block_size),
        0 <= inode_blocks_of(device_len, block_size) <= ninodes_of(device_len, block_size),
        nblocks_of(device_len, block_size) <= bam_blocks_of(device_len, block_size) * (block_size
            * 8),
        ninodes_of(device_len, block_size) <= iam_blocks_of(device_len, block_size) * (block_size
            * 8),
        ninodes_of(device_len, block_size) * 64 <= inode_blocks_of(device_len, block_size)
            * block_size,
{
    let nb = device_len / block_size;
    assert(0 <= nb && nb * block_size <= device_len) by (nonlinear_arith)
        requires
            0 <= device_len,
            28 <= block_size,
            nb == device_len / block_size,
    ;
    let groups = nb / 4096;
    let per = block_size / 64;
    let ni = groups * per;
    assert(0 <= ni) by (nonlinear_arith)
        requires
            0 <= groups,
            0 <= per,
            ni == groups * per,
    ;
    lemma_ceil_div(nb, block_size * 8);
    lemma_ceil_div(ni, block_size * 8);
    if block_size >= 64 {
        lemma_ceil_div(ni * 64, block_size);
        let q = ceil_div(ni * 64, block_size);
        assert(q <= ni) by (nonlinear_arith)
            requires
                0 <= ni,
                64 <= block_size,
                q == (ni * 64 + block_size - 1) / block_size,
        ;
    } else {
        assert(ni == 0) by (nonlinear_arith)
            requires
                ni == groups * per,
                per == 0,
        ;
        lemma_ceil_div(0, block_size);
    }
}

impl SuperBlock {
    /// A superblock with the given fields.
    pub fn new(
        magic: u32,
        blocksize: u32,
        bam_blocks: u32,
        iam_blocks: u32,
        inode_blocks: u32,
        nblocks: u32,
        ninodes: u32,
    ) -> (sb: Self)
        ensures
            sb == (SuperBlock {
                magic,
                blocksize,
                bam_blocks,
                iam_blocks,
                inode_blocks,
                nblocks,
                ninodes,
            }),
    {
        Self { magic, blocksize, bam_blocks, iam_blocks, inode_blocks, nblocks, ninodes }
    }

    /// A block of this size holds the fields of the superblock.
    pub open spec fn wf(self) -> bool {
        self.blocksize >= 28
    }

    /// The superblock that describes a device of `device_len` bytes cut into
    /// blocks of `block_size` bytes.
    pub open spec fn describes(self, device_len: int, block_size: int) -> bool {
        &&& self.magic == MAGIC
        &&& self.blocksize == block_size
        &&& self.bam_blocks == bam_blocks_of(device_len, block_size)
        &&& self.iam_blocks == iam_blocks_of(device_len, block_size)
        &&& self.inode_blocks == inode_blocks_of(device_len, block_size)
        &&& self.nblocks == nblocks_of(device_len, block_size)
        &&& self.ninodes == ninodes_of(device_len, block_size)
    }

    /// The superblock of a device of `device_len` bytes cut into blocks of
    /// `block_size` bytes, where its geometry is representable.
    pub open spec fn derive(device_len: int, block_size: int) -> SuperBlock {
        SuperBlock {
            magic: MAGIC,
            blocksize: block_size as u32,
            bam_blocks: bam_blocks_of(device_len, block_size) as u32,
            iam_blocks: iam_blocks_of(device_len, block_size) as u32,
            inode_blocks: inode_blocks_of(device_len, block_size) as u32,
            nblocks: nblocks_of(device_len, block_size) as u32,
            ninodes: ninodes_of(device_len, block_size) as u32,
        }
    }

    /// The superblock derived for a representable device describes it.
    pub proof fn lemma_derive(device_len: int, block_size: int)
        requires
            representable(device_len, block_size),
        ensures
            Self::derive(device_len, block_size).describes(device_len, block_size),
            Self::derive(device_len, block_size).wf(),
    {
        lemma_geometry(device_len, block_size);
    }

    /// Derives the geometry of a device of `device_len` bytes cut into blocks
    /// of `block_size` bytes. A trailing partial block is left out. There is
    /// no such superblock where a block cannot hold its fields or a count
    /// does not fit in 32 bits.
    pub fn for_device(device_len: u64, block_size: u64) -> (r: Option<SuperBlock>)
        ensures
            r is Some <==> representable(device_len as int, block_size as int),
            r matches Some(sb) ==> sb == Self::derive(device_len as int, block_size as int)
                && sb.describes(device_len as int, block_size as int),
    {
        if block_size < 28 || block_size > 0xffff_ffff {
            return None;
        }
        proof {
            lemma_geometry(device_len as int, block_size as int);
        }
        let nblocks = device_len / block_size;
        if nblocks > 0xffff_ffff {
            return None;
        }
        let bits = block_size * 8;
        let groups = nblocks / BLOCKS_PER_INODE_BLOCK;
        let per_block = block_size / (INODE_SIZE as u64);
        assert(groups * per_block <= 0xfffff * 0x3ffffff) by (nonlinear_arith)
            requires
                groups <= 0xfffff,
                per_block <= 0x3ffffff,
        ;
        let ninodes = groups * per_block;
        if ninodes > 0xffff_ffff {
            return None;
        }
        let bam_blocks = (nblocks + bits - 1) / bits;
        let iam_blocks = (ninodes + bits - 1) / bits;
        let inode_blocks = (ninodes * (INODE_SIZE as u64) + block_size - 1) / block_size;
        Some(
            SuperBlock::new(
                MAGIC,
                block_size as u32,
                bam_blocks as u32,
                iam_blocks as u32,
                inode_blocks as u32,
                nblocks as u32,
                ninodes as u32,
            ),
        )
    }

    /// The twenty-eight bytes of the fields, in declared order.
    pub open spec fn header(self) -> Seq<u8> {
        u32_le(self.magic) + u32_le(self.blocksize) + u32_le(self.bam_blocks) + u32_le(
            self.iam_blocks,
        ) + u32_le(self.inode_blocks) + u32_le(self.nblocks) + u32_le(self.ninodes)
    }

    /// Number of zero bytes that follow the fields to fill the block.
    pub open spec fn padding_len(self) -> nat {
        if self.blocksize >= 28 {
            (self.blocksize - 28) as nat
        } else {
            0
        }
    }

    /// The superblock on the wire: its fields, then zeros to the end of the
    /// block.
    pub open spec fn encode(self) -> Seq<u8> {
        self.header() + zero_bytes(self.padding_len())
    }

    /// Appends the twenty-eight bytes of the fields to `out`.
    fn write_header(&self, out: &mut Vec<u8>)
        ensures
            final(out)@ == old(out)@ + self.header(),
    {
        put_u32(out, self.magic);
        put_u32(out, self.blocksize);
        put_u32(out, self.bam_blocks);
        put_u32(out, self.iam_blocks);
        put_u32(out, self.inode_blocks);
        put_u32(out, self.nblocks);
        put_u32(out, self.ninodes);
    }

    /// Appends the block of the superblock to `out`.
    pub fn write_to(&self, out: &mut Vec<u8>)
        ensures
            final(out)@ == old(out)@ + self.encode(),
    {
        self.write_header(out);
        if self.blocksize >= 28 {
            put_zeros(out, (self.blocksize - 28) as usize);
        }
    }

    /// The block of the superblock.
    pub fn to_bytes(&self) -> (out: Vec<u8>)
        ensures
            out@ == self.encode(),
    {
        let mut out: Vec<u8> = Vec::new();
        self.write_to(&mut out);
        out
    }

    /// The fields stored at the head of `bytes`, as they stand.
    pub open spec fn fields_of(bytes: Seq<u8>) -> SuperBlock {
        SuperBlock {
            magic: le_u32(bytes, 0),
            blocksize: le_u32(bytes, 4),
            bam_blocks: le_u32(bytes, 8),
            iam_blocks: le_u32(bytes, 12),
            inode_blocks: le_u32(bytes, 16),
            nblocks: le_u32(bytes, 20),
            ninodes: le_u32(bytes, 24),
        }
    }

    /// What reading a superblock from the head of `bytes` gives: the fields,
    /// where the buffer holds them, they start with the magic number, and
    /// the buffer holds the whole block that they announce.
    pub open spec fn decode(bytes: Seq<u8>) -> Result<SuperBlock, Error> {
        if bytes.len() < 28 {
            Err(Error::ShortBuffer)
        } else if le_u32(bytes, 0) != MAGIC {
            Err(Error::BadMagic)
        } else if le_u32(bytes, 4) < 28 || bytes.len() < le_u32(bytes, 4) {
            Err(Error::ShortBuffer)
        } else {
            Ok(Self::fields_of(bytes))
        }
    }

    /// Reads the superblock that stands at the head of `bytes`. It takes up
    /// `blocksize` bytes of the buffer.
    pub fn from_bytes(bytes: &[u8]) -> (r: Result<SuperBlock, Error>)
        ensures
            r == Self::decode(bytes@),
    {
        if bytes.len() < 28 {
            return Err(Error::ShortBuffer);
        }
        let magic = get_u32(bytes, 0);
        if magic != MAGIC {
            return Err(Error::BadMagic);
        }
        let blocksize = get_u32(bytes, 4);
        if blocksize < 28 || bytes.len() < blocksize as usize {
            return Err(Error::ShortBuffer);
        }
        Ok(
            SuperBlock::new(
                magic,
                blocksize,
                get_u32(bytes, 8),
                get_u32(bytes, 12),
                get_u32(bytes, 16),
                get_u32(bytes, 20),
                get_u32(bytes, 24),
            ),
        )
    }

    /// Where each field stands in a buffer that starts with the block of
    /// the superblock.
    proof fn lemma_header_layout(self, rest: Seq<u8>)
        ensures
            self.header().len() == 28,
            (self.encode() + rest).subrange(0, 4) == u32_le(self.magic),
            (self.encode() + rest).subrange(4, 8) == u32_le(self.blocksize),
            (self.encode() + rest).subrange(8, 12) == u32_le(self.bam_blocks),
            (self.encode() + rest).subrange(12, 16) == u32_le(self.iam_blocks),
            (self.encode() + rest).subrange(16, 20) == u32_le(self.inode_blocks),
            (self.encode() + rest).subrange(20, 24) == u32_le(self.nblocks),
            (self.encode() + rest).subrange(24, 28) == u32_le(self.ninodes),
    {
        let bytes = self.encode() + rest;
        let h = self.header();
        assert(bytes.subrange(0, 4) =~= h.subrange(0, 4));
    }

    /// Reading undoes writing: a buffer that starts with the block of a
    /// superblock with the magic number decodes to that superblock.
    pub proof fn lemma_decode_encode(self, rest: Seq<u8>)
        requires
            self.wf(),
            self.magic == MAGIC,
        ensures
            self.encode().len() == self.blocksize,
            Self::decode(self.encode() + rest) == Ok::<SuperBlock, Error>(self),
    {
        let bytes = self.encode() + rest;
        self.lemma_header_layout(rest);
        lemma_u32_roundtrip(bytes, 0, self.magic);
        lemma_u32_roundtrip(bytes, 4, self.blocksize);
        lemma_u32_roundtrip(bytes, 8, self.bam_blocks);
        lemma_u32_roundtrip(bytes, 12, self.iam_blocks);
        lemma_u32_roundtrip(bytes, 16, self.inode_blocks);
        lemma_u32_roundtrip(bytes, 20, self.nblocks);
        lemma_u32_roundtrip(bytes, 24, self.ninodes);
    }
}

} // verus!
