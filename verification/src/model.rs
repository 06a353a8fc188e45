//! What the operations of a partition do, as functions on mathematical
//! values.
//!
//! A partition is the bytes of its device and the image held in memory.
//! Each operation is a function from the partition before it to the
//! partition after it and to its result. The methods of
//! [`crate::partition::CfsPartition`] are proved to compute these.

use crate::bitmap::{
    bits_of, clear_bit, lemma_bits_of_zeros, lemma_count_set_update, lemma_count_set_zero,
    lemma_set_bit, set_bit,
};
use crate::codec::{le_u32, u32_le, zero_bytes};
use crate::device::write_at;
use crate::dir_entry::DirEntry;
use crate::error::Error;
use crate::image::CfsView;
use crate::inode::{fresh_inodes, Inode};
use crate::partition::FileSource;
use crate::superblock::{ceil_div, lemma_geometry, representable, SuperBlock};
use crate::utils::name_field;
use vstd::prelude::*;

verus! {

/// A partition as a mathematical value.
pub struct PartitionView {
    /// The bytes of the device.
    pub dev: Seq<u8>,
    /// The image held in memory.
    pub cfs: CfsView,
}

/// Block `j` of a file with contents `data`, cut into blocks of `b` bytes:
/// the bytes of the file from `j * b` on, padded with zeros to a full block.
pub open spec fn chunk(data: Seq<u8>, j: int, b: int) -> Seq<u8> {
    Seq::new(
        b as nat,
        |i: int|
            if j * b + i < data.len() {
                data[j * b + i]
            } else {
                0u8
            },
    )
}

/// Address `k` of `addrs`, or zero past its end.
pub open spec fn addr_at(addrs: Seq<u32>, k: int) -> u32 {
    if 0 <= k < addrs.len() {
        addrs[k]
    } else {
        0u32
    }
}

/// The ten direct block addresses of an inode that holds `addrs`: those
/// addresses, then zeros.
pub open spec fn addr_array(addrs: Seq<u32>) -> [u32; 10] {
    [
        addr_at(addrs, 0),
        addr_at(addrs, 1),
        addr_at(addrs, 2),
        addr_at(addrs, 3),
        addr_at(addrs, 4),
        addr_at(addrs, 5),
        addr_at(addrs, 6),
        addr_at(addrs, 7),
        addr_at(addrs, 8),
        addr_at(addrs, 9),
    ]
}

/// The inode of a file taken in from `src` whose blocks are `addrs`: the
/// first block is kept in reserve, the contents stand in the others.
pub open spec fn file_inode(src: FileSource, addrs: Seq<u32>) -> Inode {
    Inode {
        mode: src.mode,
        nchildren: 0,
        uid: src.uid,
        gid: src.gid,
        size: src.data@.len() as u32,
        atime: src.atime,
        mtime: src.mtime,
        ctime: src.ctime,
        blkaddr: addr_array(addrs),
    }
}

/// Number of blocks that an inode of `size` bytes holds: one for each
/// block of contents, begun or full, and the first one; ten at most.
pub open spec fn blocks_held(size: int, b: int) -> int {
    if ceil_div(size, b) + 1 > 10 {
        10
    } else {
        ceil_div(size, b) + 1
    }
}

/// The block map after the first `k` of `addrs` are released. An address
/// that names no data block is passed over.
pub open spec fn release_blocks(bam: Seq<u8>, addrs: Seq<u32>, k: int, nblocks: int) -> Seq<u8>
    decreases k,
{
    if k <= 0 {
        bam
    } else {
        let prev = release_blocks(bam, addrs, k - 1, nblocks);
        if addrs[k - 1] < nblocks {
            clear_bit(prev, addrs[k - 1] as int)
        } else {
            prev
        }
    }
}

/// The first `k` entries of a directory block without those that name
/// inode `target`, in their order, one after another.
pub open spec fn kept_entries(block: Seq<u8>, k: int, target: u32) -> Seq<u8>
    decreases k,
{
    if k <= 0 {
        Seq::empty()
    } else {
        kept_entries(block, k - 1, target) + if le_u32(block, 64 * (k - 1) + 60) != target {
            block.subrange(64 * (k - 1), 64 * k)
        } else {
            Seq::empty()
        }
    }
}

/// The sixty-four bytes of the entry that gives the name with UTF-8 bytes
/// `name` to inode `inode`.
pub open spec fn dentry_bytes(name: Seq<u8>, inode: u32) -> Seq<u8> {
    name_field(name) + u32_le(inode)
}

/// The inode of a new, empty directory whose entries will stand in block
/// `blk`: mode `rwxr-xr-x`, no children, no size, every time `now`.
pub open spec fn dir_inode(uid: u16, gid: u16, now: u32, blk: u32) -> Inode {
    Inode {
        mode: 0o755,
        nchildren: 0,
        uid,
        gid,
        size: 0,
        atime: now,
        mtime: now,
        ctime: now,
        blkaddr: [blk, 0u32, 0u32, 0u32, 0u32, 0u32, 0u32, 0u32, 0u32, 0u32],
    }
}

/// The image of a fresh filesystem with geometry `sb`: block 0 is reserved
/// for the entries of the root directory, inodes 0 and 1 are in use, and
/// the inode table holds the empty root directory in slot 1.
pub open spec fn fresh_image(sb: SuperBlock) -> CfsView {
    CfsView {
        sb,
        bam: set_bit(zero_bytes((sb.bam_blocks * sb.blocksize) as nat), 0),
        iam: set_bit(set_bit(zero_bytes((sb.iam_blocks * sb.blocksize) as nat), 0), 1),
        inodes: fresh_inodes(sb.ninodes as nat),
    }
}

/// Whether this machine can address every bit of the maps and every data
/// block of a filesystem with geometry `sb`.
pub open spec fn addressable(sb: SuperBlock) -> bool {
    &&& 8 * (sb.bam_blocks * sb.blocksize) <= usize::MAX
    &&& 8 * (sb.iam_blocks * sb.blocksize) <= usize::MAX
    &&& sb.blocksize + sb.bam_blocks * sb.blocksize + sb.iam_blocks * sb.blocksize
        + sb.inode_blocks * sb.blocksize + sb.nblocks * sb.blocksize <= usize::MAX
}

/// Whether a device of `device_len` bytes can be formatted with blocks of
/// `block_size` bytes: its geometry can be written down, and this machine
/// can address all of it.
pub open spec fn formattable(device_len: int, block_size: int) -> bool {
    representable(device_len, block_size) && addressable(
        SuperBlock::derive(device_len, block_size),
    )
}

/// A fresh image is well formed, with two inodes and one block in use.
pub proof fn lemma_fresh_image(device_len: int, block_size: int)
    requires
        formattable(device_len, block_size),
        SuperBlock::derive(device_len, block_size).nblocks >= 1,
        SuperBlock::derive(device_len, block_size).ninodes >= 2,
    ensures
        fresh_image(SuperBlock::derive(device_len, block_size)).wf(),
        fresh_image(SuperBlock::derive(device_len, block_size)).inodes_in_use() == 2,
        fresh_image(SuperBlock::derive(device_len, block_size)).blocks_in_use() == 1,
        SuperBlock::derive(device_len, block_size).bam_blocks >= 1,
        SuperBlock::derive(device_len, block_size).iam_blocks >= 1,
{
    let sb = SuperBlock::derive(device_len, block_size);
    lemma_geometry(device_len, block_size);
    SuperBlock::lemma_derive(device_len, block_size);
    let b = sb.blocksize as int;
    assert(sb.bam_blocks >= 1 && sb.iam_blocks >= 1) by (nonlinear_arith)
        requires
            sb.nblocks >= 1,
            sb.ninodes >= 2,
            sb.nblocks <= sb.bam_blocks * (b * 8),
            sb.ninodes <= sb.iam_blocks * (b * 8),
            b >= 28,
    ;
    assert(sb.bam_blocks * b >= 28 && sb.iam_blocks * b >= 28) by (nonlinear_arith)
        requires
            sb.bam_blocks >= 1,
            sb.iam_blocks >= 1,
            b >= 28,
    ;
    let bam0 = zero_bytes((sb.bam_blocks * b) as nat);
    let iam0 = zero_bytes((sb.iam_blocks * b) as nat);
    lemma_bits_of_zeros(bam0);
    lemma_bits_of_zeros(iam0);
    lemma_count_set_zero(bits_of(bam0));
    lemma_count_set_zero(bits_of(iam0));
    lemma_set_bit(bam0, 0);
    lemma_count_set_update(bits_of(bam0), 0, true);
    lemma_set_bit(iam0, 0);
    lemma_count_set_update(bits_of(iam0), 0, true);
    let iam1 = set_bit(iam0, 0);
    lemma_set_bit(iam1, 1);
    lemma_count_set_update(bits_of(iam1), 1, true);
    assert(8 * (sb.bam_blocks * b) == sb.bam_blocks * (b * 8)) by (nonlinear_arith);
    assert(8 * (sb.iam_blocks * b) == sb.iam_blocks * (b * 8)) by (nonlinear_arith);
}

impl PartitionView {
    /// The image is well formed.
    pub open spec fn wf(self) -> bool {
        self.cfs.wf()
    }

    /// Size of a block in bytes.
    pub open spec fn block_size(self) -> int {
        self.cfs.sb.blocksize as int
    }

    /// Byte offset on the device of data block `addr`.
    pub open spec fn block_offset(self, addr: int) -> int {
        self.cfs.data_blocks_offset() + addr * self.block_size()
    }

    /// Whether the whole of data block `addr` lies on the device.
    pub open spec fn block_readable(self, addr: int) -> bool {
        self.block_offset(addr) + self.block_size() <= self.dev.len()
    }

    /// The bytes of data block `addr`.
    pub open spec fn block(self, addr: int) -> Seq<u8> {
        self.dev.subrange(self.block_offset(addr), self.block_offset(addr) + self.block_size())
    }

    /// The partition after the image is written at the head of the device.
    pub open spec fn flush(self) -> PartitionView {
        PartitionView { dev: write_at(self.dev, 0, self.cfs.encode()), cfs: self.cfs }
    }

    /// Address of the block that holds the entries of directory `parent`.
    pub open spec fn dir_block(self, parent: int) -> int {
        self.cfs.inodes[parent].blkaddr[0] as int
    }

    /// Whether the block of directory `parent` has room for one more entry.
    pub open spec fn dir_has_room(self, parent: int) -> bool {
        let n = self.cfs.inodes[parent].nchildren;
        n < 0xffff && (n + 1) * 64 <= self.block_size()
    }

    /// The partition with inode `index` replaced by `inode`.
    pub open spec fn with_inode(self, index: int, inode: Inode) -> PartitionView {
        PartitionView {
            dev: self.dev,
            cfs: CfsView { inodes: self.cfs.inodes.update(index, inode), ..self.cfs },
        }
    }

    /// Appending an entry `(name, child)` to directory `parent`: the entry
    /// is written after those that the directory block holds, the count of
    /// the directory goes up by one, and the image is written to the device.
    /// A name of more than sixty bytes is refused, and so is a directory
    /// whose block does not lie on the device; neither changes anything.
    #[verifier::opaque]
    pub open spec fn add_dentry(self, parent: int, name: Seq<u8>, child: u32) -> (
        PartitionView,
        Result<(), Error>,
    ) {
        let inode = self.cfs.inodes[parent];
        let at = self.block_offset(self.dir_block(parent)) + 64 * inode.nchildren;
        if name.len() > 60 {
            (self, Err(Error::NameTooLong))
        } else if !self.block_readable(self.dir_block(parent)) {
            (self, Err(Error::IoError))
        } else {
            let written = PartitionView {
                dev: write_at(self.dev, at, dentry_bytes(name, child)),
                cfs: self.cfs,
            };
            let counted = written.with_inode(
                parent,
                Inode { nchildren: (inode.nchildren + 1) as u16, ..inode },
            );
            (counted.flush(), Ok(()))
        }
    }

    /// Appending an entry keeps the image well formed.
    pub proof fn lemma_add_dentry_wf(self, parent: int, name: Seq<u8>, child: u32)
        requires
            self.wf(),
            0 <= parent < self.cfs.inodes.len(),
        ensures
            self.add_dentry(parent, name, child).0.wf(),
            self.add_dentry(parent, name, child).0.cfs.sb == self.cfs.sb,
            self.add_dentry(parent, name, child).0.cfs.bam == self.cfs.bam,
            self.add_dentry(parent, name, child).0.cfs.iam == self.cfs.iam,
    {
        reveal(PartitionView::add_dentry);
    }

    /// Appending an entry leaves the geometry and both maps as they were.
    pub proof fn lemma_add_dentry_keeps_maps(self, parent: int, name: Seq<u8>, child: u32)
        ensures
            self.add_dentry(parent, name, child).0.cfs.sb == self.cfs.sb,
            self.add_dentry(parent, name, child).0.cfs.bam == self.cfs.bam,
            self.add_dentry(parent, name, child).0.cfs.iam == self.cfs.iam,
    {
        reveal(PartitionView::add_dentry);
    }

    /// Appending an entry changes neither the size nor the direct block
    /// addresses of any inode.
    pub proof fn lemma_add_dentry_keeps_blocks(self, parent: int, name: Seq<u8>, child: u32)
        requires
            0 <= parent < self.cfs.inodes.len(),
        ensures
            self.add_dentry(parent, name, child).0.cfs.inodes.len() == self.cfs.inodes.len(),
            forall|i: int|
                0 <= i < self.cfs.inodes.len() ==> (#[trigger] self.add_dentry(
                    parent,
                    name,
                    child,
                ).0.cfs.inodes[i]).size == self.cfs.inodes[i].size && self.add_dentry(
                    parent,
                    name,
                    child,
                ).0.cfs.inodes[i].blkaddr == self.cfs.inodes[i].blkaddr,
    {
        reveal(PartitionView::add_dentry);
    }

    /// Formatting: the fresh image for geometry `sb`, written at the head
    /// of the device.
    pub open spec fn format(dev: Seq<u8>, sb: SuperBlock) -> PartitionView {
        PartitionView { dev, cfs: fresh_image(sb) }.flush()
    }

    /// Making a directory `name` under `parent`: the smallest free inode
    /// becomes the directory, the smallest free block becomes the block of
    /// its entries, and `parent` gets an entry for it. A name of more than
    /// sixty bytes is refused before anything changes. Nothing is undone
    /// where a later step fails: an inode taken stays taken.
    pub open spec fn add_dir(self, parent: int, name: Seq<u8>, uid: u16, gid: u16, now: u32) -> (
        PartitionView,
        Result<(), Error>,
    ) {
        if name.len() > 60 {
            (self, Err(Error::NameTooLong))
        } else {
            match self.cfs.free_inode() {
                None => (self, Err(Error::NoFreeInodes)),
                Some(child) => {
                    let taken = self.cfs.take_inode(child);
                    match taken.free_block() {
                        None => (
                            PartitionView { dev: self.dev, cfs: taken },
                            Err(Error::NoFreeBlocks),
                        ),
                        Some(blk) => PartitionView {
                            dev: self.dev,
                            cfs: taken.take_block(blk),
                        }.with_inode(child, dir_inode(uid, gid, now, blk as u32)).add_dentry(
                            parent,
                            name,
                            child as u32,
                        ),
                    }
                },
            }
        }
    }

    /// The device after blocks 1 to `k` of a file are written: block `j` of
    /// the contents goes to the data block with address `addrs[j + 1]`.
    pub open spec fn write_chunks(self, addrs: Seq<u32>, data: Seq<u8>, k: int) -> Seq<u8>
        decreases k,
    {
        if k <= 0 {
            self.dev
        } else {
            write_at(
                self.write_chunks(addrs, data, k - 1),
                self.block_offset(addrs[k] as int),
                chunk(data, k - 1, self.block_size()),
            )
        }
    }

    /// Taking in a file `name` under `parent`: the smallest free inode
    /// becomes the file; as many blocks as the contents need, and one
    /// more before them, are taken, smallest free block first; the
    /// contents are written to all but the first of them; and `parent`
    /// gets an entry for the file. A name of more than sixty bytes and
    /// contents of more than nine blocks are refused before anything
    /// changes. Nothing is undone where a later step fails.
    pub open spec fn add_file(self, parent: int, name: Seq<u8>, src: FileSource) -> (
        PartitionView,
        Result<(), Error>,
    ) {
        let size = src.data@.len() as int;
        let n = ceil_div(size, self.block_size());
        if name.len() > 60 {
            (self, Err(Error::NameTooLong))
        } else if n > 9 || size > u32::MAX {
            (self, Err(Error::FileTooLarge))
        } else {
            match self.cfs.free_inode() {
                None => (self, Err(Error::NoFreeInodes)),
                Some(child) => {
                    let (taken, addrs) = self.cfs.take_inode(child).take_blocks((n + 1) as nat);
                    let held = PartitionView { dev: self.dev, cfs: taken };
                    if addrs.len() < n + 1 {
                        (held, Err(Error::NoFreeBlocks))
                    } else {
                        held.store_file(child, addrs, src).add_dentry(parent, name, child as u32)
                    }
                },
            }
        }
    }

    /// The partition after the contents of `src` are written to the data
    /// blocks `addrs[1 ..]` and inode `child` is made the inode of the file.
    pub open spec fn store_file(
        self,
        child: int,
        addrs: Seq<u32>,
        src: FileSource,
    ) -> PartitionView {
        PartitionView {
            dev: self.write_chunks(addrs, src.data@, addrs.len() - 1),
            cfs: self.cfs,
        }.with_inode(child, file_inode(src, addrs))
    }

    /// The first `k` blocks of contents of an inode, as the device holds
    /// them: the data blocks with addresses `blkaddr[1]` to `blkaddr[k]`.
    pub open spec fn file_bytes(self, inode: Inode, k: int) -> Seq<u8>
        decreases k,
    {
        if k <= 0 {
            Seq::empty()
        } else {
            self.file_bytes(inode, k - 1) + self.block(inode.blkaddr[k] as int)
        }
    }

    /// Whether the first `n` blocks of contents of an inode lie on the
    /// device.
    pub open spec fn file_readable(self, inode: Inode, n: int) -> bool {
        forall|k: int| 1 <= k <= n ==> self.block_readable(#[trigger] inode.blkaddr[k] as int)
    }

    /// Reading the contents of inode `index`: its blocks of contents, begun
    /// or full, one after another. An inode with more contents than nine
    /// blocks hold is refused.
    pub open spec fn read_file(self, index: int) -> Result<Seq<u8>, Error> {
        let inode = self.cfs.inodes[index];
        let n = ceil_div(inode.size as int, self.block_size());
        if n > 9 {
            Err(Error::FileTooLarge)
        } else if !self.file_readable(inode, n) {
            Err(Error::IoError)
        } else {
            Ok(self.file_bytes(inode, n))
        }
    }

    /// Removing inode `index`: it is marked free and zeroed, the blocks
    /// that it holds are released, and the image is written to the device.
    pub open spec fn remove_inode(self, index: int) -> PartitionView {
        let inode = self.cfs.inodes[index];
        PartitionView {
            dev: self.dev,
            cfs: CfsView {
                sb: self.cfs.sb,
                bam: release_blocks(
                    self.cfs.bam,
                    inode.blkaddr@,
                    blocks_held(inode.size as int, self.block_size()),
                    self.cfs.sb.nblocks as int,
                ),
                iam: clear_bit(self.cfs.iam, index),
                inodes: self.cfs.inodes.update(index, Inode::zero()),
            },
        }.flush()
    }

    /// Removing `target` from directory `parent`: the entries of `parent`
    /// that name `target` are dropped and the others moved up, the rest of
    /// the block is zeroed, `parent` counts the entries that are left, and
    /// inode `target` is removed. A directory whose block does not lie on
    /// the device is refused, and nothing changes.
    pub open spec fn remove_dir(self, parent: int, target: u32) -> (
        PartitionView,
        Result<(), Error>,
    ) {
        let inode = self.cfs.inodes[parent];
        let addr = self.dir_block(parent);
        if !self.block_readable(addr) {
            (self, Err(Error::IoError))
        } else {
            let kept = kept_entries(self.block(addr), self.listing_len(parent), target);
            let rewritten = kept + zero_bytes((self.block_size() - kept.len()) as nat);
            (
                PartitionView {
                    dev: write_at(self.dev, self.block_offset(addr), rewritten),
                    cfs: self.cfs,
                }.with_inode(
                    parent,
                    Inode { nchildren: (kept.len() / 64) as u16, ..inode },
                ).remove_inode(target as int),
                Ok(()),
            )
        }
    }

    /// Giving the root directory its two first entries, `.` and `..`, both
    /// naming the root itself.
    pub open spec fn setup_root_dir(self) -> (PartitionView, Result<(), Error>) {
        let (first, r) = self.add_dentry(1, seq![46u8], 1);
        if r is Err {
            (first, r)
        } else {
            first.add_dentry(1, seq![46u8, 46u8], 1)
        }
    }

    /// What appending an entry does to the device, where it succeeds: the
    /// entry is written inside the block of the directory, and then the
    /// image, which ends before the data blocks begin.
    pub proof fn lemma_add_dentry_writes(self, parent: int, name: Seq<u8>, child: u32)
        requires
            self.wf(),
            0 <= parent < self.cfs.inodes.len(),
            self.dir_has_room(parent),
            self.add_dentry(parent, name, child).1 is Ok,
        ensures
            ({
                let after = self.add_dentry(parent, name, child).0;
                let base = self.block_offset(self.dir_block(parent));
                let at = base + 64 * self.cfs.inodes[parent].nchildren;
                &&& dentry_bytes(name, child).len() == 64
                &&& 0 <= self.dir_block(parent)
                &&& self.block_readable(self.dir_block(parent))
                &&& self.cfs.data_blocks_offset() <= base
                &&& base <= at
                &&& at + 64 <= base + self.block_size()
                &&& after.cfs.encode().len() <= self.cfs.data_blocks_offset()
                &&& after.dev == write_at(
                    write_at(self.dev, at, dentry_bytes(name, child)),
                    0,
                    after.cfs.encode(),
                )
                &&& after.wf()
                &&& after.cfs.sb == self.cfs.sb
                &&& after.cfs.inodes.len() == self.cfs.inodes.len()
                &&& after.cfs.inodes[parent] == (Inode {
                    nchildren: (self.cfs.inodes[parent].nchildren + 1) as u16,
                    ..self.cfs.inodes[parent]
                })
                &&& forall|i: int|
                    0 <= i < self.cfs.inodes.len() && i != parent ==> after.cfs.inodes[i]
                        == self.cfs.inodes[i]
            }),
    {
        reveal(PartitionView::add_dentry);
        let after = self.add_dentry(parent, name, child).0;
        self.lemma_add_dentry_wf(parent, name, child);
        after.cfs.lemma_offsets();
        after.cfs.lemma_encode_layout();
        assert(0 <= self.dir_block(parent) * self.block_size()) by (nonlinear_arith)
            requires
                0 <= self.dir_block(parent),
                0 <= self.block_size(),
        ;
    }

    /// Number of entries that a listing of directory `parent` gives: those
    /// that the directory counts, as far as one block holds them.
    pub open spec fn listing_len(self, parent: int) -> int {
        let n = self.cfs.inodes[parent].nchildren as int;
        let room = self.block_size() / 64;
        if n <= room {
            n
        } else {
            room
        }
    }

    /// `entries` are the entries of directory `parent`, in the order in
    /// which they stand in its block.
    pub open spec fn is_listing(self, parent: int, entries: Seq<DirEntry>) -> bool {
        &&& entries.len() == self.listing_len(parent)
        &&& forall|k: int|
            0 <= k < entries.len() ==> (#[trigger] entries[k]).encode() == self.dev.subrange(
                self.block_offset(self.dir_block(parent)) + 64 * k,
                self.block_offset(self.dir_block(parent)) + 64 * k + 64,
            )
    }
}

} // verus!
