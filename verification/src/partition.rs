//! The partition: an image bound to the device that it describes.
//!
//! Every method here does what the function of the same name in
//! [`crate::model`] says, and is proved to.

use crate::bitmap::{clear_bit, lemma_clear_bit, Bam, Bitmap, Iam};
use crate::codec::{lemma_u32_roundtrip, put_bytes, put_zeros, u32_le};
use crate::consistency::{
    consistent, lemma_add_dentry_consistent, lemma_add_dir_consistent, lemma_add_file_consistent,
    lemma_fresh_consistent, lemma_remove_dir_consistent, lemma_remove_inode_consistent,
};
use crate::device::{write_at, BlockDevice};
use crate::dir_entry::DirEntry;
use crate::error::Error;
use crate::image::{Cfs, CfsView};
use crate::inode::{Inode, InodeList};
use crate::model::{
    addr_array, chunk, dentry_bytes, dir_inode, file_inode, formattable, fresh_image,
    kept_entries, lemma_fresh_image, release_blocks, PartitionView,
};
use crate::superblock::{ceil_div, lemma_ceil_div, SuperBlock};
use crate::utils::bytes_to_u8_60;
use vstd::prelude::*;
use vstd::string::StringSliceAdditionalSpecFns;

verus! {

/// A filesystem: the device and the image of its metadata.
#[derive(Debug, Clone)]
pub struct CfsPartition {
    pub blk_dev: BlockDevice,
    pub cfs: Cfs,
}

impl View for CfsPartition {
    type V = PartitionView;

    open spec fn view(&self) -> PartitionView {
        PartitionView { dev: self.blk_dev@, cfs: self.cfs@ }
    }
}

/// A file of the host, as the filesystem takes it in: its metadata and its
/// contents.
#[derive(Debug, Clone)]
pub struct FileSource {
    pub mode: u16,
    pub uid: u16,
    pub gid: u16,
    pub atime: u32,
    pub mtime: u32,
    pub ctime: u32,
    pub data: Vec<u8>,
}

/// Block `j` of a file with contents `data`, cut into blocks of `b` bytes.
fn file_chunk(data: &Vec<u8>, j: usize, b: usize) -> (out: Vec<u8>)
    requires
        j * b <= usize::MAX,
    ensures
        out@ == chunk(data@, j as int, b as int),
{
    let start = j * b;
    let mut out: Vec<u8> = Vec::new();
    let mut i: usize = 0;
    while i < b
        invariant
            i <= b,
            start == j * b,
            out@.len() == i,
            forall|t: int|
                0 <= t < i ==> out@[t] == if start + t < data@.len() {
                    data@[start + t]
                } else {
                    0u8
                },
        decreases b - i,
    {
        if start < data.len() && i < data.len() - start {
            out.push(data[start + i]);
        } else {
            out.push(0u8);
        }
        i += 1;
    }
    out
}

impl CfsPartition {
    /// Size of a block in bytes.
    fn block_size(&self) -> (b: usize)
        ensures
            b == self@.block_size(),
    {
        self.cfs.super_block.blocksize as usize
    }

    /// Byte offset on the device of data block `addr`, where it fits in 64
    /// bits.
    fn block_offset(&self, addr: u32) -> (r: Option<u64>)
        requires
            self@.wf(),
        ensures
            r is Some <==> self@.block_offset(addr as int) <= u64::MAX,
            r matches Some(offset) ==> offset == self@.block_offset(addr as int),
    {
        let base = self.cfs.data_blocks_offset();
        let b = self.cfs.super_block.blocksize as u64;
        assert(0 <= addr * b <= 0xffff_ffff * 0xffff_ffff) by (nonlinear_arith)
            requires
                0 <= addr <= 0xffff_ffff,
                0 <= b <= 0xffff_ffff,
        ;
        base.checked_add(addr as u64 * b)
    }

    /// Byte offset of data block `addr`, where the whole block lies on the
    /// device.
    fn block_on_device(&self, addr: u32) -> (r: Option<u64>)
        requires
            self@.wf(),
        ensures
            r is Some <==> self@.block_readable(addr as int),
            r matches Some(offset) ==> offset == self@.block_offset(addr as int) && offset
                + self@.block_size() <= usize::MAX,
    {
        proof {
            self@.cfs.lemma_offsets();
        }
        let len = self.blk_dev.len();
        let b = self.cfs.super_block.blocksize as u64;
        match self.block_offset(addr) {
            Some(offset) => if b <= len && offset <= len - b {
                Some(offset)
            } else {
                None
            },
            None => None,
        }
    }

    /// Reads data block `addr` from the device.
    fn read_block(&self, addr: u32) -> (r: Result<Vec<u8>, Error>)
        requires
            self@.wf(),
        ensures
            r is Ok <==> self@.block_readable(addr as int),
            r is Err ==> r == Err::<Vec<u8>, Error>(Error::IoError),
            r matches Ok(bytes) ==> bytes@ == self@.block(addr as int),
    {
        match self.block_on_device(addr) {
            Some(offset) => self.blk_dev.read_exact_at(offset, self.block_size()),
            None => Err(Error::IoError),
        }
    }

    /// Whether a device of `device_len` bytes can be formatted with blocks
    /// of `block_size` bytes.
    pub fn can_format(device_len: u64, block_size: u64) -> (b: bool)
        ensures
            b == formattable(device_len as int, block_size as int),
    {
        match SuperBlock::for_device(device_len, block_size) {
            None => false,
            Some(sb) => {
                let bs = sb.blocksize as u128;
                proof {
                    assert(sb.bam_blocks * sb.blocksize <= 0xffff_ffff * 0xffff_ffff
                        && sb.iam_blocks * sb.blocksize <= 0xffff_ffff * 0xffff_ffff
                        && sb.inode_blocks * sb.blocksize <= 0xffff_ffff * 0xffff_ffff
                        && sb.nblocks * sb.blocksize <= 0xffff_ffff * 0xffff_ffff && 0
                        <= sb.bam_blocks * sb.blocksize && 0 <= sb.iam_blocks * sb.blocksize && 0
                        <= sb.inode_blocks * sb.blocksize && 0 <= sb.nblocks * sb.blocksize)
                        by (nonlinear_arith)
                        requires
                            0 <= sb.bam_blocks <= 0xffff_ffff,
                            0 <= sb.iam_blocks <= 0xffff_ffff,
                            0 <= sb.inode_blocks <= 0xffff_ffff,
                            0 <= sb.nblocks <= 0xffff_ffff,
                            0 <= sb.blocksize <= 0xffff_ffff,
                    ;
                }
                let bam_len = sb.bam_blocks as u128 * bs;
                let iam_len = sb.iam_blocks as u128 * bs;
                let table_len = sb.inode_blocks as u128 * bs;
                let data_len = sb.nblocks as u128 * bs;
                let max = usize::MAX as u128;
                8 * bam_len <= max && 8 * iam_len <= max && bs + bam_len + iam_len + table_len
                    + data_len <= max
            },
        }
    }

    /// Formats the device with blocks of `block_size` bytes: derives the
    /// geometry from the length of the device, reserves block 0 for the
    /// entries of the root directory and inodes 0 and 1, and writes the
    /// image at the head of the device. A device with no block for the root
    /// directory has no free block, and one with fewer than two inodes has
    /// no free inode.
    pub fn new(blk_dev: BlockDevice, block_size: u64) -> (r: Result<Self, Error>)
        requires
            formattable(blk_dev@.len() as int, block_size as int),
        ensures
            match r {
                Ok(p) => {
                    let sb = SuperBlock::derive(blk_dev@.len() as int, block_size as int);
                    &&& sb.nblocks >= 1
                    &&& sb.ninodes >= 2
                    &&& p@ == PartitionView::format(blk_dev@, sb)
                    &&& p@.wf()
                    &&& consistent(p@.cfs)
                    &&& p@.dev.subrange(0, p@.cfs.encode().len() as int) == p@.cfs.encode()
                    &&& p@.cfs.encode().len() <= p@.cfs.data_blocks_offset()
                    &&& sb.nblocks * block_size <= blk_dev@.len()
                    &&& p@.cfs.inodes_in_use() == 2
                    &&& p@.cfs.blocks_in_use() == 1
                },
                Err(e) => {
                    let sb = SuperBlock::derive(blk_dev@.len() as int, block_size as int);
                    if sb.nblocks == 0 {
                        e == Error::NoFreeBlocks
                    } else {
                        sb.ninodes < 2 && e == Error::NoFreeInodes
                    }
                },
            },
    {
        let size = blk_dev.len();
        let super_block = SuperBlock::for_device(size, block_size).unwrap();
        if super_block.nblocks == 0 {
            return Err(Error::NoFreeBlocks);
        }
        if super_block.ninodes < 2 {
            return Err(Error::NoFreeInodes);
        }
        proof {
            lemma_fresh_image(size as int, block_size as int);
            lemma_fresh_consistent(size as int, block_size as int);
            crate::theorems::lemma_format_layout(blk_dev@, block_size as int);
            assert(0 <= super_block.bam_blocks * super_block.blocksize && 0
                <= super_block.iam_blocks * super_block.blocksize) by (nonlinear_arith);
        }
        let block_size = super_block.blocksize as usize;
        let mut bam = Bam::new(super_block.bam_blocks as usize * block_size);
        bam.set(0);
        let mut iam = Iam::new(super_block.iam_blocks as usize * block_size);
        iam.set(0);
        iam.set(1);
        let inode_list = InodeList::new(super_block.ninodes as usize);
        let cfs = Cfs::new(super_block, bam, iam, inode_list);
        let mut partition = Self { blk_dev, cfs };
        let _ = partition.write_cfs();
        Ok(partition)
    }

    /// Opens the filesystem that the device holds: reads the image at its
    /// head. Fails where the device is too short for the image that its
    /// superblock announces, or does not start with the magic number.
    pub fn try_from(blk_dev: BlockDevice) -> (r: Result<Self, Error>)
        ensures
            match r {
                Ok(p) => p@.dev == blk_dev@ && p@.cfs.decoded_from(blk_dev@)
                    && CfsView::decode_status(blk_dev@) is Ok,
                Err(e) => CfsView::decode_status(blk_dev@) == Err::<int, Error>(e),
            },
    {
        match Cfs::from_bytes(blk_dev.data.as_slice()) {
            Ok((cfs, _)) => Ok(CfsPartition { blk_dev, cfs }),
            Err(e) => Err(e),
        }
    }

    /// Whether the image is well formed.
    pub fn is_wf(&self) -> (b: bool)
        ensures
            b == self@.wf(),
    {
        self.cfs.is_wf()
    }

    /// Whether the block of directory `parent_inode_idx` has room for one
    /// more entry.
    pub fn dir_has_room(&self, parent_inode_idx: usize) -> (b: bool)
        requires
            parent_inode_idx < self@.cfs.inodes.len(),
        ensures
            b == self@.dir_has_room(parent_inode_idx as int),
    {
        let n = self.cfs.inode_list.get(parent_inode_idx).nchildren;
        n < 0xffff && (n as u64 + 1) * 64 <= self.cfs.super_block.blocksize as u64
    }

    /// The four region offsets, in decimal: block map, inode map, inode
    /// table, data blocks.
    pub fn info(&self) -> (r: (String, String, String, String))
        requires
            self@.wf(),
        ensures
            vstd::string::to_string_from_display_ensures::<u64>(
                &(self@.cfs.bam_offset() as u64),
                r.0,
            ),
            vstd::string::to_string_from_display_ensures::<u64>(
                &(self@.cfs.iam_offset() as u64),
                r.1,
            ),
            vstd::string::to_string_from_display_ensures::<u64>(
                &(self@.cfs.inode_list_offset() as u64),
                r.2,
            ),
            vstd::string::to_string_from_display_ensures::<u64>(
                &(self@.cfs.data_blocks_offset() as u64),
                r.3,
            ),
    {
        (
            self.cfs.bam_offset().to_string(),
            self.cfs.iam_offset().to_string(),
            self.cfs.inode_list_offset().to_string(),
            self.cfs.data_blocks_offset().to_string(),
        )
    }

    /// Writes the image at the head of the device.
    pub fn write_cfs(&mut self) -> (r: Result<(), Error>)
        requires
            old(self)@.wf(),
        ensures
            r == Ok::<(), Error>(()),
            final(self)@ == old(self)@.flush(),
            final(self)@.wf(),
            final(self)@.cfs.sb == old(self)@.cfs.sb,
    {
        let buffer = self.cfs.to_bytes();
        proof {
            self@.cfs.lemma_encode_layout();
            self@.cfs.lemma_offsets();
        }
        self.blk_dev.write_all_at(0, buffer.as_slice());
        Ok(())
    }

    /// Appends the entry `(dentry_name, inode_idx)` to directory
    /// `parent_inode_idx`, and writes the image to the device.
    pub fn add_dentry_to_inode(
        &mut self,
        parent_inode_idx: usize,
        dentry_name: &str,
        inode_idx: usize,
    ) -> (r: Result<(), Error>)
        requires
            old(self)@.wf(),
            parent_inode_idx < old(self)@.cfs.inodes.len(),
            old(self)@.dir_has_room(parent_inode_idx as int),
            inode_idx <= u32::MAX,
        ensures
            (final(self)@, r) == old(self)@.add_dentry(
                parent_inode_idx as int,
                dentry_name.spec_bytes(),
                inode_idx as u32,
            ),
            final(self)@.wf(),
            final(self)@.cfs.sb == old(self)@.cfs.sb,
            consistent(old(self)@.cfs) ==> consistent(final(self)@.cfs),
    {
        self.add_dentry_bytes(parent_inode_idx, dentry_name.as_bytes(), inode_idx)
    }

    /// Appends the entry that gives the name with bytes `name` to
    /// `inode_idx` to directory `parent_inode_idx`.
    pub fn add_dentry_bytes(
        &mut self,
        parent_inode_idx: usize,
        name: &[u8],
        inode_idx: usize,
    ) -> (r: Result<(), Error>)
        requires
            old(self)@.wf(),
            parent_inode_idx < old(self)@.cfs.inodes.len(),
            old(self)@.dir_has_room(parent_inode_idx as int),
            inode_idx <= u32::MAX,
        ensures
            (final(self)@, r) == old(self)@.add_dentry(
                parent_inode_idx as int,
                name@,
                inode_idx as u32,
            ),
            final(self)@.wf(),
            final(self)@.cfs.sb == old(self)@.cfs.sb,
            consistent(old(self)@.cfs) ==> consistent(final(self)@.cfs),
    {
        proof {
            reveal(PartitionView::add_dentry);
            if consistent(self@.cfs) {
                lemma_add_dentry_consistent(
                    self@,
                    parent_inode_idx as int,
                    name@,
                    inode_idx as u32,
                );
            }
        }
        if name.len() > 60 {
            return Err(Error::NameTooLong);
        }
        let dentry = DirEntry::new(bytes_to_u8_60(name), inode_idx as u32);
        let mut inode = self.cfs.inode_list.get(parent_inode_idx);
        let offset = match self.block_on_device(inode.blkaddr[0]) {
            Some(offset) => offset,
            None => {
                return Err(Error::IoError);
            },
        };
        let dentry_offset = inode.nchildren as u64 * 64;
        let dentry_data = dentry.to_bytes();
        let ghost before = self@;
        self.blk_dev.write_all_at(offset + dentry_offset, dentry_data.as_slice());
        inode.nchildren += 1;
        self.cfs.inode_list.set(parent_inode_idx, inode);
        proof {
            let written = PartitionView {
                dev: write_at(
                    before.dev,
                    offset + dentry_offset,
                    dentry_bytes(name@, inode_idx as u32),
                ),
                cfs: before.cfs,
            };
            let counted = written.with_inode(parent_inode_idx as int, inode);
            before.lemma_add_dentry_wf(parent_inode_idx as int, name@, inode_idx as u32);
            assert(before.add_dentry(parent_inode_idx as int, name@, inode_idx as u32).0
                == counted.flush());
        }
        self.write_cfs()
    }

    /// Makes a directory `name` under `parent_inode_idx`, owned by `uid`
    /// and `gid`, with every time set to `now`.
    pub fn add_dir_to_inode(
        &mut self,
        parent_inode_idx: usize,
        name: &str,
        uid: u16,
        gid: u16,
        now: u32,
    ) -> (r: Result<(), Error>)
        requires
            old(self)@.wf(),
            parent_inode_idx < old(self)@.cfs.inodes.len(),
            old(self)@.dir_has_room(parent_inode_idx as int),
        ensures
            (final(self)@, r) == old(self)@.add_dir(
                parent_inode_idx as int,
                name.spec_bytes(),
                uid,
                gid,
                now,
            ),
            final(self)@.wf(),
            final(self)@.cfs.sb == old(self)@.cfs.sb,
            consistent(old(self)@.cfs) && r is Ok ==> consistent(final(self)@.cfs),
    {
        let name_bytes = name.as_bytes();
        if name_bytes.len() > 60 {
            return Err(Error::NameTooLong);
        }
        let ghost before = self@;
        let inode_idx = match self.cfs.alloc_inode() {
            Some(inode_idx) => inode_idx,
            None => {
                return Err(Error::NoFreeInodes);
            },
        };
        let ghost child = before.cfs.free_inode()->Some_0;
        let ghost taken = before.cfs.take_inode(child);
        let mut blkaddr = [0u32; 10];
        match self.cfs.alloc_block() {
            Some(block_idx) => {
                blkaddr[0] = block_idx;
            },
            None => {
                return Err(Error::NoFreeBlocks);
            },
        }
        let ghost blk = taken.free_block()->Some_0;
        let inode = Inode::new(0o755, 0, uid, gid, 0, now, now, now, blkaddr);
        self.cfs.inode_list.set(inode_idx, inode);
        proof {
            assert(inode.blkaddr =~= dir_inode(uid, gid, now, blk as u32).blkaddr);
            if consistent(before.cfs) && before.add_dir(
                parent_inode_idx as int,
                name.spec_bytes(),
                uid,
                gid,
                now,
            ).1 is Ok {
                lemma_add_dir_consistent(
                    before,
                    parent_inode_idx as int,
                    name.spec_bytes(),
                    uid,
                    gid,
                    now,
                );
            }
        }
        self.add_dentry_bytes(parent_inode_idx, name_bytes, inode_idx)
    }

    /// Number of blocks that contents of `size` bytes need.
    fn blocks_for(&self, size: u64) -> (n: u64)
        requires
            self@.wf(),
            size <= u32::MAX,
        ensures
            n == ceil_div(size as int, self@.block_size()),
    {
        let b = self.cfs.super_block.blocksize as u64;
        (size + b - 1) / b
    }

    /// Takes in the file `file` as `name` under `parent_inode_idx`.
    pub fn add_file_to_inode(
        &mut self,
        parent_inode_idx: usize,
        name: &str,
        file: &FileSource,
    ) -> (r: Result<(), Error>)
        requires
            old(self)@.wf(),
            parent_inode_idx < old(self)@.cfs.inodes.len(),
            old(self)@.dir_has_room(parent_inode_idx as int),
        ensures
            (final(self)@, r) == old(self)@.add_file(
                parent_inode_idx as int,
                name.spec_bytes(),
                *file,
            ),
            final(self)@.wf(),
            final(self)@.cfs.sb == old(self)@.cfs.sb,
            consistent(old(self)@.cfs) && r is Ok ==> consistent(final(self)@.cfs),
    {
        let name_bytes = name.as_bytes();
        if name_bytes.len() > 60 {
            return Err(Error::NameTooLong);
        }
        let size = file.data.len();
        let block_size = self.block_size();
        proof {
            lemma_ceil_div(size as int, block_size as int);
            assert(ceil_div(size as int, block_size as int) > 9 <==> size > 9 * block_size)
                by (nonlinear_arith)
                requires
                    block_size > 0,
                    size <= ceil_div(size as int, block_size as int) * block_size,
                    ceil_div(size as int, block_size as int) * block_size < size + block_size,
            ;
        }
        if size as u64 > 9 * (block_size as u64) || size as u64 > 0xffff_ffff {
            return Err(Error::FileTooLarge);
        }
        let nblocks = self.blocks_for(size as u64) as usize;
        let ghost before = self@;
        let inode_idx = match self.cfs.alloc_inode() {
            Some(inode_idx) => inode_idx,
            None => {
                return Err(Error::NoFreeInodes);
            },
        };
        let ghost child = before.cfs.free_inode()->Some_0;
        let addrs = self.cfs.alloc_blocks(nblocks + 1);
        let ghost taken = before.cfs.take_inode(child).take_blocks((nblocks + 1) as nat).0;
        proof {
            before.cfs.lemma_take_inode(child);
            before.cfs.take_inode(child).lemma_take_blocks((nblocks + 1) as nat);
        }
        if addrs.len() < nblocks + 1 {
            return Err(Error::NoFreeBlocks);
        }
        let ghost held = PartitionView { dev: before.dev, cfs: taken };
        proof {
            assert(nblocks >= 1 ==> (nblocks - 1) * block_size <= size) by (nonlinear_arith)
                requires
                    nblocks * block_size < size + block_size,
            ;
        }
        let mut k: usize = 1;
        while k <= nblocks
            invariant
                1 <= k <= nblocks + 1,
                nblocks <= 9,
                addrs@.len() == nblocks + 1,
                forall|j: int| 0 <= j < addrs@.len() ==> addrs@[j] < taken.sb.nblocks,
                self@.cfs == taken,
                taken.wf(),
                held == (PartitionView { dev: before.dev, cfs: taken }),
                block_size == taken.sb.blocksize,
                nblocks >= 1 ==> (nblocks - 1) * block_size <= usize::MAX,
                self@.dev == held.write_chunks(addrs@, file.data@, k - 1),
            decreases nblocks + 1 - k,
        {
            proof {
                assert((k - 1) * block_size <= (nblocks - 1) * block_size) by (nonlinear_arith)
                    requires
                        0 <= k - 1 <= nblocks - 1,
                        0 <= block_size,
                ;
            }
            let buffer = file_chunk(&file.data, k - 1, block_size);
            let addr = addrs[k];
            proof {
                taken.lemma_offsets();
                assert(held.block_offset(addr as int) + block_size <= taken.data_end())
                    by (nonlinear_arith)
                    requires
                        0 <= addr < taken.sb.nblocks,
                        block_size == taken.sb.blocksize,
                        held.block_offset(addr as int) == taken.data_blocks_offset() + addr
                            * taken.sb.blocksize,
                        taken.data_end() == taken.data_blocks_offset() + taken.sb.nblocks
                            * taken.sb.blocksize,
                ;
            }
            let offset = self.cfs.data_blocks_offset() + addr as u64 * block_size as u64;
            self.blk_dev.write_all_at(offset, buffer.as_slice());
            k += 1;
        }
        let mut blkaddr = [0u32; 10];
        let mut i: usize = 0;
        while i < addrs.len()
            invariant
                i <= addrs@.len() <= 10,
                forall|j: int| 0 <= j < 10 ==> blkaddr@[j] == if j < i {
                    addrs@[j]
                } else {
                    0u32
                },
            decreases addrs@.len() - i,
        {
            blkaddr[i] = addrs[i];
            i += 1;
        }
        let inode = Inode::new(
            file.mode,
            0,
            file.uid,
            file.gid,
            size as u32,
            file.atime,
            file.mtime,
            file.ctime,
            blkaddr,
        );
        self.cfs.inode_list.set(inode_idx, inode);
        proof {
            assert(inode.blkaddr =~= addr_array(addrs@));
            if consistent(before.cfs) && before.add_file(
                parent_inode_idx as int,
                name.spec_bytes(),
                *file,
            ).1 is Ok {
                lemma_add_file_consistent(
                    before,
                    parent_inode_idx as int,
                    name.spec_bytes(),
                    *file,
                );
            }
        }
        self.add_dentry_bytes(parent_inode_idx, name_bytes, inode_idx)
    }

    /// The contents of inode `inode_idx`, in whole blocks.
    pub fn get_data_from_inode(&self, inode_idx: usize) -> (r: Result<Vec<u8>, Error>)
        requires
            self@.wf(),
            inode_idx < self@.cfs.inodes.len(),
        ensures
            match r {
                Ok(bytes) => self@.read_file(inode_idx as int) == Ok::<Seq<u8>, Error>(bytes@),
                Err(e) => self@.read_file(inode_idx as int) == Err::<Seq<u8>, Error>(e),
            },
    {
        let inode = self.cfs.inode_list.get(inode_idx);
        let size = self.blocks_for(inode.size as u64);
        if size > 9 {
            return Err(Error::FileTooLarge);
        }
        let mut ret: Vec<u8> = Vec::new();
        let mut i: usize = 1;
        while i <= size as usize
            invariant
                1 <= i <= size + 1,
                size <= 9,
                self@.wf(),
                inode_idx < self@.cfs.inodes.len(),
                inode == self@.cfs.inodes[inode_idx as int],
                size == ceil_div(inode.size as int, self@.block_size()),
                ret@ == self@.file_bytes(inode, i - 1),
                self@.file_readable(inode, i - 1),
            decreases size + 1 - i,
        {
            match self.read_block(inode.blkaddr[i]) {
                Ok(buffer) => {
                    put_bytes(&mut ret, buffer.as_slice());
                },
                Err(e) => {
                    return Err(e);
                },
            }
            i += 1;
        }
        Ok(ret)
    }

    /// Removes inode `inode_idx`: marks it free, zeroes it, releases the
    /// blocks that it holds, and writes the image to the device.
    pub fn remove_inode(&mut self, inode_idx: usize) -> (r: Result<(), Error>)
        requires
            old(self)@.wf(),
            inode_idx < old(self)@.cfs.inodes.len(),
        ensures
            r == Ok::<(), Error>(()),
            final(self)@ == old(self)@.remove_inode(inode_idx as int),
            final(self)@.wf(),
            final(self)@.cfs.sb == old(self)@.cfs.sb,
            consistent(old(self)@.cfs) && inode_idx >= 1 && old(self)@.cfs.inode_used(
                inode_idx as int,
            ) ==> consistent(final(self)@.cfs),
    {
        let inode = self.cfs.inode_list.get(inode_idx);
        let ghost before = self@;
        self.cfs.iam.clear(inode_idx);
        self.cfs.inode_list.clear(inode_idx);
        let held = self.blocks_for(inode.size as u64) + 1;
        let count: usize = if held > 10 {
            10
        } else {
            held as usize
        };
        let nblocks = self.cfs.super_block.nblocks;
        let mut i: usize = 0;
        while i < count
            invariant
                i <= count <= 10,
                nblocks == before.cfs.sb.nblocks,
                before.wf(),
                self@.dev == before.dev,
                self@.cfs.sb == before.cfs.sb,
                self@.cfs.iam == clear_bit(before.cfs.iam, inode_idx as int),
                self@.cfs.inodes == before.cfs.inodes.update(inode_idx as int, Inode::zero()),
                self@.cfs.bam == release_blocks(
                    before.cfs.bam,
                    inode.blkaddr@,
                    i as int,
                    nblocks as int,
                ),
                self@.cfs.bam.len() == before.cfs.bam.len(),
            decreases count - i,
        {
            let addr = inode.blkaddr[i];
            if addr < nblocks {
                proof {
                    lemma_clear_bit(self@.cfs.bam, addr as int);
                }
                self.cfs.bam.clear(addr as usize);
            }
            i += 1;
        }
        proof {
            lemma_clear_bit(before.cfs.iam, inode_idx as int);
            if consistent(before.cfs) && inode_idx >= 1 && before.cfs.inode_used(inode_idx as int) {
                lemma_remove_inode_consistent(before, inode_idx as int);
            }
        }
        self.write_cfs()
    }

    /// Removes `inode_idx` from directory `parent_inode_idx`: drops the
    /// entries that name it, and removes the inode.
    pub fn remove_dir_from_inode(&mut self, parent_inode_idx: usize, inode_idx: u32) -> (r: Result<
        (),
        Error,
    >)
        requires
            old(self)@.wf(),
            parent_inode_idx < old(self)@.cfs.inodes.len(),
            inode_idx < old(self)@.cfs.inodes.len(),
        ensures
            (final(self)@, r) == old(self)@.remove_dir(parent_inode_idx as int, inode_idx),
            final(self)@.wf(),
            final(self)@.cfs.sb == old(self)@.cfs.sb,
            consistent(old(self)@.cfs) && inode_idx >= 1 && old(self)@.cfs.inode_used(
                inode_idx as int,
            ) ==> consistent(final(self)@.cfs),
    {
        let ghost before = self@;
        let ghost addr = before.dir_block(parent_inode_idx as int);
        let ghost base = before.block_offset(addr);
        let ghost block = before.block(addr);
        proof {
            if consistent(before.cfs) && inode_idx >= 1 && before.cfs.inode_used(inode_idx as int)
                && before.remove_dir(parent_inode_idx as int, inode_idx).1 is Ok {
                lemma_remove_dir_consistent(before, parent_inode_idx as int, inode_idx);
            }
        }
        let dentries = match self.list_dentries_from_inode(parent_inode_idx) {
            Ok(dentries) => dentries,
            Err(e) => {
                return Err(e);
            },
        };
        let block_size = self.block_size();
        let mut buffer: Vec<u8> = Vec::new();
        let mut kept: u16 = 0;
        let mut k: usize = 0;
        while k < dentries.len()
            invariant
                k <= dentries@.len(),
                dentries@.len() <= 0xffff,
                64 * dentries@.len() <= block.len(),
                block == before.dev.subrange(base, base + block.len()),
                0 <= base,
                base + block.len() <= before.dev.len(),
                forall|j: int|
                    0 <= j < dentries@.len() ==> (#[trigger] dentries@[j]).encode()
                        == before.dev.subrange(base + 64 * j, base + 64 * j + 64),
                buffer@ == kept_entries(block, k as int, inode_idx),
                buffer@.len() == 64 * kept,
                kept <= k,
            decreases dentries@.len() - k,
        {
            let entry = &dentries[k];
            proof {
                let e = entry.encode();
                assert(e.subrange(60, 64) =~= u32_le(entry.inode));
                assert(block.subrange(64 * k + 60, 64 * k + 64) =~= e.subrange(60, 64));
                lemma_u32_roundtrip(block, 64 * k + 60, entry.inode);
            }
            if entry.inode != inode_idx {
                let bytes = entry.to_bytes();
                put_bytes(&mut buffer, bytes.as_slice());
                kept += 1;
            }
            k += 1;
        }
        let pad = block_size - buffer.len();
        put_zeros(&mut buffer, pad);
        let mut inode = self.cfs.inode_list.get(parent_inode_idx);
        proof {
            before.cfs.lemma_offsets();
        }
        let offset = match self.block_on_device(inode.blkaddr[0]) {
            Some(offset) => offset,
            None => {
                return Err(Error::IoError);
            },
        };
        self.blk_dev.write_all_at(offset, buffer.as_slice());
        inode.nchildren = kept;
        self.cfs.inode_list.set(parent_inode_idx, inode);
        self.remove_inode(inode_idx as usize)
    }

    /// Gives the root directory its two first entries, `.` and `..`.
    pub fn setup_root_dir(&mut self) -> (r: Result<(), Error>)
        requires
            old(self)@.wf(),
            old(self)@.cfs.inodes.len() >= 2,
            old(self)@.cfs.inodes[1].nchildren < 0xfffe,
            (old(self)@.cfs.inodes[1].nchildren + 2) * 64 <= old(self)@.block_size(),
        ensures
            (final(self)@, r) == old(self)@.setup_root_dir(),
            final(self)@.wf(),
            final(self)@.cfs.sb == old(self)@.cfs.sb,
            consistent(old(self)@.cfs) ==> consistent(final(self)@.cfs),
    {
        let dot: [u8; 1] = [46u8];
        let dot_dot: [u8; 2] = [46u8, 46u8];
        assert(dot@ =~= seq![46u8]);
        let ghost before = self@;
        match self.add_dentry_bytes(1, dot.as_slice(), 1) {
            Ok(()) => {},
            Err(e) => {
                return Err(e);
            },
        }
        proof {
            before.lemma_add_dentry_writes(1, seq![46u8], 1);
        }
        self.add_dentry_bytes(1, dot_dot.as_slice(), 1)
    }

    /// The entries of directory `parent_inode_idx`, in the order in which
    /// they were added.
    pub fn list_dentries_from_inode(&self, parent_inode_idx: usize) -> (r: Result<
        Vec<DirEntry>,
        Error,
    >)
        requires
            self@.wf(),
            parent_inode_idx < self@.cfs.inodes.len(),
        ensures
            r is Ok <==> self@.block_readable(self@.dir_block(parent_inode_idx as int)),
            r is Err ==> r == Err::<Vec<DirEntry>, Error>(Error::IoError),
            r matches Ok(entries) ==> self@.is_listing(parent_inode_idx as int, entries@),
    {
        let inode = self.cfs.inode_list.get(parent_inode_idx);
        let buf = match self.read_block(inode.blkaddr[0]) {
            Ok(buf) => buf,
            Err(e) => {
                return Err(e);
            },
        };
        let room = buf.len() / 64;
        let nchildren = inode.nchildren as usize;
        let count = if nchildren <= room {
            nchildren
        } else {
            room
        };
        let ghost base = self@.block_offset(self@.dir_block(parent_inode_idx as int));
        let mut entries: Vec<DirEntry> = Vec::new();
        let mut k: usize = 0;
        while k < count
            invariant
                k <= count,
                64 * count <= buf@.len() <= usize::MAX,
                buf@ == self@.dev.subrange(base, base + buf@.len()),
                0 <= base,
                base + buf@.len() <= self@.dev.len(),
                entries@.len() == k,
                forall|j: int|
                    0 <= j < k ==> (#[trigger] entries@[j]).encode() == self@.dev.subrange(
                        base + 64 * j,
                        base + 64 * j + 64,
                    ),
            decreases count - k,
        {
            match DirEntry::from_bytes(buf.as_slice(), 64 * k) {
                Ok(entry) => {
                    entries.push(entry);
                },
                Err(_) => {
                    return Err(Error::IoError);
                },
            }
            k += 1;
        }
        Ok(entries)
    }
}

} // verus!
