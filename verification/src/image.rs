//! The image: the metadata that stands at the head of the device.
//!
//! An image is the superblock, the two allocation maps and the inode table.
//! On the wire they follow one another with nothing between them; the
//! superblock says how long each of the others is.

use crate::bitmap::{
    bits_of, count_set, first_clear, lemma_count_set_update, lemma_first_clear_is,
    lemma_first_clear_none, lemma_first_clear_spec, lemma_set_bit, set_bit, Bam, Bitmap, Iam,
};
use crate::codec::{copy_range, put_bytes};
use crate::error::Error;
use crate::inode::{encode_inodes, lemma_encode_inodes_injective, Inode, InodeList};
use crate::superblock::SuperBlock;
use vstd::prelude::*;

verus! {

/// The metadata of a filesystem, held in memory.
#[derive(Debug, Clone)]
pub struct Cfs {
    pub super_block: SuperBlock,
    pub bam: Bam,
    pub iam: Iam,
    pub inode_list: InodeList,
}

/// An image as a mathematical value.
pub struct CfsView {
    /// The geometry.
    pub sb: SuperBlock,
    /// The bytes of the block allocation map.
    pub bam: Seq<u8>,
    /// The bytes of the inode allocation map.
    pub iam: Seq<u8>,
    /// The inode table.
    pub inodes: Seq<Inode>,
}

impl View for Cfs {
    type V = CfsView;

    open spec fn view(&self) -> CfsView {
        CfsView {
            sb: self.super_block,
            bam: self.bam.data@,
            iam: self.iam.data@,
            inodes: self.inode_list@,
        }
    }
}

impl CfsView {
    /// Byte offset of the superblock on the device.
    pub open spec fn super_block_offset(self) -> int {
        0
    }

    /// Byte offset of the block allocation map.
    pub open spec fn bam_offset(self) -> int {
        self.sb.blocksize * crate::RESERVED_BLOCKS
    }

    /// Byte offset of the inode allocation map.
    pub open spec fn iam_offset(self) -> int {
        self.bam_offset() + self.sb.bam_blocks * self.sb.blocksize
    }

    /// Byte offset of the inode table.
    pub open spec fn inode_list_offset(self) -> int {
        self.iam_offset() + self.sb.iam_blocks * self.sb.blocksize
    }

    /// Byte offset of data block 0.
    pub open spec fn data_blocks_offset(self) -> int {
        self.inode_list_offset() + self.sb.inode_blocks * self.sb.blocksize
    }

    /// Byte offset of the end of the last data block.
    pub open spec fn data_end(self) -> int {
        self.data_blocks_offset() + self.sb.nblocks * self.sb.blocksize
    }

    /// Whether block `b` is marked as in use.
    pub open spec fn block_used(self, b: int) -> bool {
        bits_of(self.bam)[b]
    }

    /// Whether inode `i` is marked as in use.
    pub open spec fn inode_used(self, i: int) -> bool {
        bits_of(self.iam)[i]
    }

    /// The lengths of the maps and of the table are those that the
    /// superblock announces.
    pub open spec fn sized(self) -> bool {
        &&& self.sb.wf()
        &&& self.bam.len() == self.sb.bam_blocks * self.sb.blocksize
        &&& self.iam.len() == self.sb.iam_blocks * self.sb.blocksize
        &&& self.inodes.len() == self.sb.ninodes
    }

    /// The image is well formed: its parts have the announced lengths, each
    /// map has a bit for every resource, the inode table ends before the
    /// data blocks begin, and every bit and every data block can be
    /// addressed on this machine.
    pub open spec fn wf(self) -> bool {
        &&& self.sized()
        &&& self.sb.nblocks <= 8 * self.bam.len() <= usize::MAX
        &&& self.sb.ninodes <= 8 * self.iam.len() <= usize::MAX
        &&& self.sb.ninodes * 64 <= self.sb.inode_blocks * self.sb.blocksize
        &&& self.data_end() <= usize::MAX
    }

    /// The smallest free inode, if the table has one.
    pub open spec fn free_inode(self) -> Option<int> {
        first_clear(bits_of(self.iam), self.sb.ninodes as int)
    }

    /// The smallest free data block, if there is one.
    pub open spec fn free_block(self) -> Option<int> {
        first_clear(bits_of(self.bam), self.sb.nblocks as int)
    }

    /// The image with inode `i` marked as in use.
    pub open spec fn take_inode(self, i: int) -> CfsView {
        CfsView { iam: set_bit(self.iam, i), ..self }
    }

    /// The image with data block `b` marked as in use.
    pub open spec fn take_block(self, b: int) -> CfsView {
        CfsView { bam: set_bit(self.bam, b), ..self }
    }

    /// The image after up to `count` data blocks are taken, smallest free
    /// block first, with the addresses taken, in the order in which they
    /// were taken. Fewer are taken where the free blocks run out.
    pub open spec fn take_blocks(self, count: nat) -> (CfsView, Seq<u32>)
        decreases count,
    {
        if count == 0 {
            (self, Seq::empty())
        } else {
            match self.free_block() {
                None => (self, Seq::empty()),
                Some(b) => {
                    let (image, rest) = self.take_block(b).take_blocks((count - 1) as nat);
                    (image, seq![b as u32] + rest)
                },
            }
        }
    }

    /// Taking blocks keeps the image well formed. The blocks taken were
    /// free and are distinct data blocks; nothing else changes, and the
    /// number of blocks in use goes up by the number taken.
    pub proof fn lemma_take_blocks(self, count: nat)
        requires
            self.wf(),
        ensures
            self.take_blocks(count).0.wf(),
            self.take_blocks(count).0.sb == self.sb,
            self.take_blocks(count).0.iam == self.iam,
            self.take_blocks(count).0.inodes == self.inodes,
            self.take_blocks(count).1.len() <= count,
            self.take_blocks(count).0.blocks_in_use() == self.blocks_in_use() + self.take_blocks(
                count,
            ).1.len(),
            forall|j: int|
                0 <= j < self.take_blocks(count).1.len() ==> {
                    let b = #[trigger] self.take_blocks(count).1[j];
                    b < self.sb.nblocks && !self.block_used(b as int) && self.take_blocks(
                        count,
                    ).0.block_used(b as int)
                },
            forall|i: int, j: int|
                0 <= i < j < self.take_blocks(count).1.len() ==> self.take_blocks(count).1[i]
                    != self.take_blocks(count).1[j],
            forall|b: int|
                0 <= b < 8 * self.bam.len() && self.block_used(b) ==> self.take_blocks(
                    count,
                ).0.block_used(b),
        decreases count,
    {
        if count > 0 {
            match self.free_block() {
                None => {},
                Some(b) => {
                    self.lemma_take_block(b);
                    let next = self.take_block(b);
                    next.lemma_take_blocks((count - 1) as nat);
                    let (image, rest) = next.take_blocks((count - 1) as nat);
                    let all = seq![b as u32] + rest;
                    assert(self.take_blocks(count) == (image, all));
                    assert forall|j: int| 0 <= j < all.len() implies {
                        let a = #[trigger] all[j];
                        a < self.sb.nblocks && !self.block_used(a as int) && image.block_used(
                            a as int,
                        )
                    } by {
                        if j > 0 {
                            let a = rest[j - 1];
                            assert(all[j] == a);
                            assert(!next.block_used(a as int));
                        }
                    }
                    assert forall|i: int, j: int| 0 <= i < j < all.len() implies all[i]
                        != all[j] by {
                        if i == 0 {
                            let a = rest[j - 1];
                            assert(all[j] == a);
                            assert(!next.block_used(a as int));
                        } else {
                            assert(all[i] == rest[i - 1] && all[j] == rest[j - 1]);
                        }
                    }
                },
            }
        }
    }

    /// Number of inodes marked as in use.
    pub open spec fn inodes_in_use(self) -> nat {
        count_set(bits_of(self.iam))
    }

    /// Number of data blocks marked as in use.
    pub open spec fn blocks_in_use(self) -> nat {
        count_set(bits_of(self.bam))
    }

    /// Taking the free inode keeps the image well formed and raises the
    /// number of inodes in use by one.
    pub proof fn lemma_take_inode(self, i: int)
        requires
            self.wf(),
            self.free_inode() == Some(i),
        ensures
            0 <= i < self.sb.ninodes,
            !self.inode_used(i),
            self.take_inode(i).wf(),
            self.take_inode(i).inode_used(i),
            self.take_inode(i).inodes_in_use() == self.inodes_in_use() + 1,
            forall|j: int|
                0 <= j < 8 * self.iam.len() && j != i ==> self.take_inode(i).inode_used(j)
                    == self.inode_used(j),
    {
        lemma_first_clear_spec(bits_of(self.iam), self.sb.ninodes as int);
        lemma_set_bit(self.iam, i);
        lemma_count_set_update(bits_of(self.iam), i, true);
    }

    /// Taking the free block keeps the image well formed and raises the
    /// number of blocks in use by one.
    pub proof fn lemma_take_block(self, b: int)
        requires
            self.wf(),
            self.free_block() == Some(b),
        ensures
            0 <= b < self.sb.nblocks,
            !self.block_used(b),
            self.take_block(b).wf(),
            self.take_block(b).block_used(b),
            self.take_block(b).blocks_in_use() == self.blocks_in_use() + 1,
            forall|j: int|
                0 <= j < 8 * self.bam.len() && j != b ==> self.take_block(b).block_used(j)
                    == self.block_used(j),
    {
        lemma_first_clear_spec(bits_of(self.bam), self.sb.nblocks as int);
        lemma_set_bit(self.bam, b);
        lemma_count_set_update(bits_of(self.bam), b, true);
    }

    /// The image on the wire: superblock, block map, inode map, inode table.
    pub open spec fn encode(self) -> Seq<u8> {
        self.sb.encode() + self.bam + self.iam + encode_inodes(self.inodes)
    }

    /// Length of the image on the wire that `sb` announces.
    pub open spec fn encoded_len(sb: SuperBlock) -> int {
        sb.blocksize + sb.bam_blocks * sb.blocksize + sb.iam_blocks * sb.blocksize + sb.ninodes
            * 64
    }

    /// How reading an image from the head of `bytes` ends: with the number
    /// of bytes that the image takes up, or with the reason for which there
    /// is none. The superblock is read first and sizes the rest.
    pub open spec fn decode_status(bytes: Seq<u8>) -> Result<int, Error> {
        match SuperBlock::decode(bytes) {
            Err(e) => Err(e),
            Ok(sb) => if bytes.len() < Self::encoded_len(sb) {
                Err(Error::ShortBuffer)
            } else {
                Ok(Self::encoded_len(sb))
            },
        }
    }

    /// `self` is the image that stands at the head of `bytes`: the
    /// superblock read from the first block, each map the bytes at its
    /// offset, and the inodes whose bytes stand where the table is.
    pub open spec fn decoded_from(self, bytes: Seq<u8>) -> bool {
        &&& SuperBlock::decode(bytes) == Ok::<SuperBlock, Error>(self.sb)
        &&& Self::encoded_len(self.sb) <= bytes.len()
        &&& self.bam == bytes.subrange(self.bam_offset(), self.iam_offset())
        &&& self.iam == bytes.subrange(self.iam_offset(), self.inode_list_offset())
        &&& self.inodes.len() == self.sb.ninodes
        &&& encode_inodes(self.inodes) == bytes.subrange(
            self.inode_list_offset(),
            Self::encoded_len(self.sb),
        )
    }

    /// The regions follow one another, and a well-formed image ends before
    /// the data blocks begin.
    pub proof fn lemma_offsets(self)
        ensures
            0 <= self.bam_offset() <= self.iam_offset() <= self.inode_list_offset()
                <= self.data_blocks_offset() <= self.data_end(),
            Self::encoded_len(self.sb) == self.inode_list_offset() + self.sb.ninodes * 64,
            self.sb.ninodes * 64 <= self.sb.inode_blocks * self.sb.blocksize ==> Self::encoded_len(
                self.sb,
            ) <= self.data_blocks_offset(),
    {
        let b = self.sb.blocksize as int;
        assert(0 <= self.sb.bam_blocks * b) by (nonlinear_arith)
            requires
                0 <= self.sb.bam_blocks,
                0 <= b,
        ;
        assert(0 <= self.sb.iam_blocks * b) by (nonlinear_arith)
            requires
                0 <= self.sb.iam_blocks,
                0 <= b,
        ;
        assert(0 <= self.sb.inode_blocks * b) by (nonlinear_arith)
            requires
                0 <= self.sb.inode_blocks,
                0 <= b,
        ;
        assert(0 <= self.sb.nblocks * b) by (nonlinear_arith)
            requires
                0 <= self.sb.nblocks,
                0 <= b,
        ;
    }

    /// An image of the announced lengths takes up the announced length, and
    /// its parts stand at their offsets.
    pub proof fn lemma_encode_layout(self)
        requires
            self.sized(),
        ensures
            self.encode().len() == Self::encoded_len(self.sb),
            self.encode().subrange(0, self.sb.blocksize as int) == self.sb.encode(),
            self.encode().subrange(self.bam_offset(), self.iam_offset()) == self.bam,
            self.encode().subrange(self.iam_offset(), self.inode_list_offset()) == self.iam,
            self.encode().subrange(self.inode_list_offset(), Self::encoded_len(self.sb))
                == encode_inodes(self.inodes),
    {
        self.lemma_offsets();
    }
}

/// A buffer holds at most one image.
pub proof fn lemma_decoded_unique(a: CfsView, b: CfsView, bytes: Seq<u8>)
    requires
        a.decoded_from(bytes),
        b.decoded_from(bytes),
    ensures
        a == b,
{
    lemma_encode_inodes_injective(a.inodes, b.inodes);
}

/// Reading undoes writing: the bytes of an image of the announced lengths
/// that starts with the magic number, followed by anything, are read as that
/// image and as no other.
pub proof fn lemma_decode_encode(image: CfsView, rest: Seq<u8>, parsed: CfsView)
    requires
        image.sized(),
        image.sb.magic == crate::MAGIC,
        parsed.decoded_from(image.encode() + rest),
    ensures
        CfsView::decode_status(image.encode() + rest) == Ok::<int, Error>(
            image.encode().len() as int,
        ),
        parsed == image,
{
    lemma_encode_decodes(image, rest);
    lemma_decoded_unique(parsed, image, image.encode() + rest);
}

/// The bytes of an image of the announced lengths that starts with the
/// magic number can always be read back.
pub proof fn lemma_encode_decodes(image: CfsView, rest: Seq<u8>)
    requires
        image.sized(),
        image.sb.magic == crate::MAGIC,
    ensures
        CfsView::decode_status(image.encode() + rest) == Ok::<int, Error>(
            image.encode().len() as int,
        ),
        image.decoded_from(image.encode() + rest),
{
    let bytes = image.encode() + rest;
    let table = encode_inodes(image.inodes);
    let tail = image.bam + image.iam + table + rest;
    image.lemma_encode_layout();
    image.lemma_offsets();
    image.sb.lemma_decode_encode(tail);
    let at_bam = image.bam_offset();
    let at_iam = image.iam_offset();
    let at_table = image.inode_list_offset();
    let end = CfsView::encoded_len(image.sb);
    assert(bytes.subrange(at_bam, at_iam) =~= image.encode().subrange(at_bam, at_iam));
    assert(bytes.subrange(at_iam, at_table) =~= image.encode().subrange(at_iam, at_table));
    assert(bytes.subrange(at_table, end) =~= image.encode().subrange(at_table, end));
}

impl Cfs {
    /// The image made of the four parts.
    pub fn new(super_block: SuperBlock, bam: Bam, iam: Iam, inode_list: InodeList) -> (cfs: Self)
        ensures
            cfs@ == (CfsView {
                sb: super_block,
                bam: bam.data@,
                iam: iam.data@,
                inodes: inode_list@,
            }),
    {
        Self { super_block, bam, iam, inode_list }
    }

    /// Byte offset of the superblock on the device.
    pub fn super_block_offset(&self) -> (offset: u64)
        ensures
            offset == self@.super_block_offset(),
    {
        0
    }

    /// Byte offset of the block allocation map.
    pub fn bam_offset(&self) -> (offset: u64)
        ensures
            offset == self@.bam_offset(),
    {
        self.super_block.blocksize as u64 * crate::RESERVED_BLOCKS
    }

    /// Byte offset of the inode allocation map.
    pub fn iam_offset(&self) -> (offset: u64)
        requires
            self@.wf(),
        ensures
            offset == self@.iam_offset(),
    {
        proof {
            self@.lemma_offsets();
        }
        self.bam_offset() + self.super_block.bam_blocks as u64 * self.super_block.blocksize as u64
    }

    /// Byte offset of the inode table.
    pub fn inode_list_offset(&self) -> (offset: u64)
        requires
            self@.wf(),
        ensures
            offset == self@.inode_list_offset(),
    {
        proof {
            self@.lemma_offsets();
        }
        self.iam_offset() + self.super_block.iam_blocks as u64 * self.super_block.blocksize as u64
    }

    /// Byte offset of data block 0.
    pub fn data_blocks_offset(&self) -> (offset: u64)
        requires
            self@.wf(),
        ensures
            offset == self@.data_blocks_offset(),
    {
        proof {
            self@.lemma_offsets();
        }
        self.inode_list_offset() + self.super_block.inode_blocks as u64
            * self.super_block.blocksize as u64
    }

    /// Marks the smallest free inode as in use and returns its index.
    /// Returns nothing, and changes nothing, where every inode is in use.
    pub fn alloc_inode(&mut self) -> (r: Option<usize>)
        requires
            old(self)@.wf(),
        ensures
            match old(self)@.free_inode() {
                Some(i) => {
                    &&& 0 <= i < old(self)@.sb.ninodes
                    &&& r == Some(i as usize)
                    &&& final(self)@ == old(self)@.take_inode(i)
                },
                None => r is None && final(self)@ == old(self)@,
            },
            final(self)@.wf(),
    {
        let ghost bits = bits_of(self@.iam);
        let ghost limit = self@.sb.ninodes as int;
        match self.iam.first_free() {
            Some(i) => {
                if i < self.super_block.ninodes as usize {
                    proof {
                        lemma_first_clear_is(bits, limit, i as int);
                        self@.lemma_take_inode(i as int);
                    }
                    self.iam.set(i);
                    Some(i)
                } else {
                    proof {
                        lemma_first_clear_none(bits, limit);
                    }
                    None
                }
            },
            None => {
                proof {
                    lemma_first_clear_none(bits, limit);
                }
                None
            },
        }
    }

    /// Marks the smallest free data block as in use and returns its
    /// address. Returns nothing, and changes nothing, where every data
    /// block is in use.
    pub fn alloc_block(&mut self) -> (r: Option<u32>)
        requires
            old(self)@.wf(),
        ensures
            match old(self)@.free_block() {
                Some(b) => {
                    &&& 0 <= b < old(self)@.sb.nblocks
                    &&& r == Some(b as u32)
                    &&& final(self)@ == old(self)@.take_block(b)
                },
                None => r is None && final(self)@ == old(self)@,
            },
            final(self)@.wf(),
    {
        let ghost bits = bits_of(self@.bam);
        let ghost limit = self@.sb.nblocks as int;
        match self.bam.first_free() {
            Some(b) => {
                if b < self.super_block.nblocks as usize {
                    proof {
                        lemma_first_clear_is(bits, limit, b as int);
                        self@.lemma_take_block(b as int);
                    }
                    self.bam.set(b);
                    Some(b as u32)
                } else {
                    proof {
                        lemma_first_clear_none(bits, limit);
                    }
                    None
                }
            },
            None => {
                proof {
                    lemma_first_clear_none(bits, limit);
                }
                None
            },
        }
    }

    /// Takes up to `count` data blocks, smallest free block first, and
    /// returns their addresses in the order in which they were taken. It
    /// returns fewer where the free blocks run out; those taken stay taken.
    pub fn alloc_blocks(&mut self, count: usize) -> (r: Vec<u32>)
        requires
            old(self)@.wf(),
        ensures
            (final(self)@, r@) == old(self)@.take_blocks(count as nat),
            final(self)@.wf(),
    {
        let ghost start = self@;
        let mut got: Vec<u32> = Vec::new();
        let mut k: usize = 0;
        while k < count
            invariant
                k <= count,
                self@.wf(),
                got@.len() == k,
                start == old(self)@,
                start.take_blocks(count as nat) == (
                    self@.take_blocks((count - k) as nat).0,
                    got@ + self@.take_blocks((count - k) as nat).1,
                ),
            decreases count - k,
        {
            let ghost cur = self@;
            match self.alloc_block() {
                Some(b) => {
                    proof {
                        let (image, rest) = cur.take_block(b as int).take_blocks(
                            (count - k - 1) as nat,
                        );
                    }
                    got.push(b);
                },
                None => {
                    return got;
                },
            }
            k += 1;
        }
        got
    }

    /// Whether the image is well formed.
    pub fn is_wf(&self) -> (b: bool)
        ensures
            b == self@.wf(),
    {
        let sb = &self.super_block;
        let bs = sb.blocksize as u128;
        proof {
            self@.lemma_offsets();
            assert(sb.bam_blocks * sb.blocksize <= 0xffff_ffff * 0xffff_ffff && sb.iam_blocks
                * sb.blocksize <= 0xffff_ffff * 0xffff_ffff && sb.inode_blocks * sb.blocksize
                <= 0xffff_ffff * 0xffff_ffff && sb.nblocks * sb.blocksize <= 0xffff_ffff
                * 0xffff_ffff) by (nonlinear_arith)
                requires
                    0 <= sb.bam_blocks <= 0xffff_ffff,
                    0 <= sb.iam_blocks <= 0xffff_ffff,
                    0 <= sb.inode_blocks <= 0xffff_ffff,
                    0 <= sb.nblocks <= 0xffff_ffff,
                    0 <= sb.blocksize <= 0xffff_ffff,
            ;
        }
        let bam_len = sb.bam_blocks as u128 * bs;
        let iam_len = sb.iam_blocks as u128 * bs;
        let table_len = sb.inode_blocks as u128 * bs;
        let data_len = sb.nblocks as u128 * bs;
        let data_end = bs + bam_len + iam_len + table_len + data_len;
        let max = usize::MAX as u128;
        sb.blocksize >= 28 && self.bam.data.len() as u128 == bam_len && self.iam.data.len() as u128
            == iam_len && self.inode_list.inodes.len() as u128 == sb.ninodes as u128
            && sb.nblocks as u128 <= 8 * bam_len && 8 * bam_len <= max && sb.ninodes as u128 <= 8
            * iam_len && 8 * iam_len <= max && sb.ninodes as u128 * 64 <= table_len && data_end
            <= max
    }

    /// The image on the wire.
    pub fn to_bytes(&self) -> (out: Vec<u8>)
        ensures
            out@ == self@.encode(),
    {
        let mut out: Vec<u8> = Vec::new();
        self.super_block.write_to(&mut out);
        put_bytes(&mut out, self.bam.data.as_slice());
        put_bytes(&mut out, self.iam.data.as_slice());
        self.inode_list.write_to(&mut out);
        out
    }

    /// Reads the image that stands at the head of `bytes`, and says how many
    /// bytes it takes up. The superblock is read first; its fields size the
    /// maps and the inode table. Nothing but the magic number is checked.
    pub fn from_bytes(bytes: &[u8]) -> (r: Result<(Cfs, usize), Error>)
        ensures
            match r {
                Ok((cfs, used)) => CfsView::decode_status(bytes@) == Ok::<int, Error>(used as int)
                    && cfs@.decoded_from(bytes@),
                Err(e) => CfsView::decode_status(bytes@) == Err::<int, Error>(e),
            },
    {
        let sb = match SuperBlock::from_bytes(bytes) {
            Ok(sb) => sb,
            Err(e) => {
                return Err(e);
            },
        };
        let len = bytes.len() as u64;
        let b = sb.blocksize as u64;
        assert(sb.bam_blocks * sb.blocksize <= 0xffff_ffff * 0xffff_ffff && sb.iam_blocks
            * sb.blocksize <= 0xffff_ffff * 0xffff_ffff && 0 <= sb.bam_blocks * sb.blocksize && 0
            <= sb.iam_blocks * sb.blocksize) by (nonlinear_arith)
            requires
                0 <= sb.bam_blocks <= 0xffff_ffff,
                0 <= sb.iam_blocks <= 0xffff_ffff,
                0 <= sb.blocksize <= 0xffff_ffff,
        ;
        let bam_len = sb.bam_blocks as u64 * b;
        if bam_len > len - b {
            return Err(Error::ShortBuffer);
        }
        let iam_at = b + bam_len;
        let iam_len = sb.iam_blocks as u64 * b;
        if iam_len > len - iam_at {
            return Err(Error::ShortBuffer);
        }
        let table_at = iam_at + iam_len;
        let table_len = sb.ninodes as u64 * 64;
        if table_len > len - table_at {
            return Err(Error::ShortBuffer);
        }
        let end = table_at + table_len;
        let bam = Bam { data: copy_range(bytes, b as usize, iam_at as usize) };
        let iam = Iam { data: copy_range(bytes, iam_at as usize, table_at as usize) };
        let count = sb.ninodes as usize;
        let inode_list = match InodeList::from_bytes(bytes, table_at as usize, count) {
            Ok(list) => list,
            Err(e) => {
                return Err(e);
            },
        };
        let cfs = Cfs { super_block: sb, bam, iam, inode_list };
        Ok((cfs, end as usize))
    }
}

} // verus!
