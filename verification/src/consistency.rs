//! The invariant that couples the block map to the inode table.
//!
//! Every block that an inode in use holds is a data block marked as in use,
//! and no block is held twice. Inode 0 is set apart: it is reserved and holds
//! nothing. Formatting establishes the invariant, and every operation that
//! succeeds keeps it.

use crate::bitmap::{bits_of, clear_bit, lemma_clear_bit, lemma_set_bit};
use crate::error::Error;
use crate::image::CfsView;
use crate::inode::Inode;
use crate::model::{
    addr_at, blocks_held, dir_inode, file_inode, formattable, fresh_image, lemma_fresh_image,
    release_blocks, PartitionView,
};
use crate::partition::FileSource;
use crate::superblock::{ceil_div, lemma_ceil_div, SuperBlock};
use vstd::prelude::*;

verus! {

/// Direct block address `k` of inode `i`.
pub open spec fn slot(c: CfsView, i: int, k: int) -> u32 {
    c.inodes[i].blkaddr[k]
}

/// Number of direct blocks that inode `i` holds.
pub open spec fn held(c: CfsView, i: int) -> int {
    blocks_held(c.inodes[i].size as int, c.sb.blocksize as int)
}

/// Whether inode `i` is an inode in use, other than the reserved one, that
/// holds its direct block address `k`.
pub open spec fn holds(c: CfsView, i: int, k: int) -> bool {
    1 <= i < c.inodes.len() && c.inode_used(i) && 0 <= k < held(c, i)
}

/// The image is well formed, every block held is a data block marked as in
/// use, and no block is held twice.
pub open spec fn consistent(c: CfsView) -> bool {
    &&& c.wf()
    &&& forall|i: int, k: int| #[trigger]
        holds(c, i, k) ==> slot(c, i, k) < c.sb.nblocks && c.block_used(slot(c, i, k) as int)
    &&& forall|i: int, k: int, j: int, l: int|
        #[trigger] holds(c, i, k) && #[trigger] holds(c, j, l) && (i != j || k != l) ==> slot(
            c,
            i,
            k,
        ) != slot(c, j, l)
}

/// An inode holds between one and ten blocks.
pub proof fn lemma_held(c: CfsView, i: int)
    requires
        c.wf(),
    ensures
        1 <= held(c, i) <= 10,
{
    lemma_ceil_div(c.inodes[i].size as int, c.sb.blocksize as int);
}

/// A fresh image is consistent: the root directory holds block 0, and
/// nothing else holds anything.
pub proof fn lemma_fresh_consistent(device_len: int, block_size: int)
    requires
        formattable(device_len, block_size),
        SuperBlock::derive(device_len, block_size).nblocks >= 1,
        SuperBlock::derive(device_len, block_size).ninodes >= 2,
    ensures
        consistent(fresh_image(SuperBlock::derive(device_len, block_size))),
{
    let sb = SuperBlock::derive(device_len, block_size);
    lemma_fresh_image(device_len, block_size);
    let b = sb.blocksize as int;
    let bam0 = crate::codec::zero_bytes((sb.bam_blocks * b) as nat);
    let iam0 = crate::codec::zero_bytes((sb.iam_blocks * b) as nat);
    crate::bitmap::lemma_bits_of_zeros(bam0);
    crate::bitmap::lemma_bits_of_zeros(iam0);
    lemma_set_bit(bam0, 0);
    lemma_set_bit(iam0, 0);
    lemma_set_bit(crate::bitmap::set_bit(iam0, 0), 1);
    lemma_ceil_div(0, b);
}

/// The invariant survives growth: where one free inode is put to use and
/// given blocks that were free, and nothing else that it speaks of
/// changes, the image stays consistent.
pub proof fn lemma_grow(c: CfsView, d: CfsView, child: int, addrs: Seq<u32>)
    requires
        consistent(c),
        d.wf(),
        d.sb == c.sb,
        d.inodes.len() == c.inodes.len(),
        0 <= child < c.inodes.len(),
        !c.inode_used(child),
        forall|i: int|
            0 <= i < 8 * c.iam.len() && i != child ==> d.inode_used(i) == c.inode_used(i),
        forall|b: int| 0 <= b < 8 * c.bam.len() && c.block_used(b) ==> d.block_used(b),
        forall|i: int|
            0 <= i < c.inodes.len() && i != child ==> d.inodes[i].size == c.inodes[i].size
                && d.inodes[i].blkaddr == c.inodes[i].blkaddr,
        held(d, child) == addrs.len(),
        forall|k: int| 0 <= k < addrs.len() ==> slot(d, child, k) == addrs[k],
        forall|k: int|
            0 <= k < addrs.len() ==> addrs[k] < c.sb.nblocks && !c.block_used(addrs[k] as int)
                && d.block_used(addrs[k] as int),
        forall|x: int, y: int| 0 <= x < y < addrs.len() ==> addrs[x] != addrs[y],
    ensures
        consistent(d),
{
    assert forall|i: int, k: int| #[trigger] holds(d, i, k) implies slot(d, i, k) < d.sb.nblocks
        && d.block_used(slot(d, i, k) as int) by {
        if i != child {
            assert(holds(c, i, k));
        } else {
            assert(slot(d, i, k) == addrs[k]);
        }
    }
    assert forall|i: int, k: int, j: int, l: int|
        #[trigger] holds(d, i, k) && #[trigger] holds(d, j, l) && (i != j || k != l) implies slot(
        d,
        i,
        k,
    ) != slot(d, j, l) by {
        if i != child {
            assert(holds(c, i, k));
        } else {
            assert(slot(d, i, k) == addrs[k]);
        }
        if j != child {
            assert(holds(c, j, l));
        } else {
            assert(slot(d, j, l) == addrs[l]);
        }
    }
}

/// Whether block `b` is one of the data blocks among the first `k` of
/// `addrs`.
pub open spec fn released(addrs: Seq<u32>, k: int, nblocks: int, b: int) -> bool
    decreases k,
{
    k > 0 && (released(addrs, k - 1, nblocks, b) || (addrs[k - 1] == b && addrs[k - 1] < nblocks))
}

/// A block that is none of the first `k` of `addrs` is not released.
pub proof fn lemma_not_released(addrs: Seq<u32>, k: int, nblocks: int, b: int)
    requires
        0 <= k <= addrs.len(),
        forall|j: int| 0 <= j < k ==> addrs[j] != b,
    ensures
        !released(addrs, k, nblocks, b),
    decreases k,
{
    if k > 0 {
        lemma_not_released(addrs, k - 1, nblocks, b);
    }
}

/// The bits of the block map after blocks are released: a block is in use
/// afterwards where it was in use before and was not released.
pub proof fn lemma_release_blocks(bam: Seq<u8>, addrs: Seq<u32>, k: int, nblocks: int)
    requires
        0 <= k <= addrs.len(),
        0 <= nblocks <= 8 * bam.len(),
    ensures
        release_blocks(bam, addrs, k, nblocks).len() == bam.len(),
        forall|b: int|
            0 <= b < 8 * bam.len() ==> #[trigger] bits_of(release_blocks(bam, addrs, k, nblocks))[b]
                == (bits_of(bam)[b] && !released(addrs, k, nblocks, b)),
    decreases k,
{
    if k > 0 {
        lemma_release_blocks(bam, addrs, k - 1, nblocks);
        let prev = release_blocks(bam, addrs, k - 1, nblocks);
        let a = addrs[k - 1];
        if a < nblocks {
            lemma_clear_bit(prev, a as int);
        }
    }
}

/// The invariant does not look at what an inode is besides its size and its
/// direct block addresses: an image with the same geometry, the same maps
/// and the same sizes and addresses as a consistent one is consistent.
pub proof fn lemma_same_holdings(c: CfsView, d: CfsView)
    requires
        consistent(c),
        d.sb == c.sb,
        d.bam == c.bam,
        d.iam == c.iam,
        d.inodes.len() == c.inodes.len(),
        forall|i: int|
            0 <= i < c.inodes.len() ==> (#[trigger] d.inodes[i]).size == c.inodes[i].size
                && d.inodes[i].blkaddr == c.inodes[i].blkaddr,
    ensures
        consistent(d),
{
    assert forall|i: int, k: int| #[trigger] holds(d, i, k) implies slot(d, i, k) < d.sb.nblocks
        && d.block_used(slot(d, i, k) as int) by {
        assert(holds(c, i, k));
    }
    assert forall|i: int, k: int, j: int, l: int|
        #[trigger] holds(d, i, k) && #[trigger] holds(d, j, l) && (i != j || k != l) implies slot(
        d,
        i,
        k,
    ) != slot(d, j, l) by {
        assert(holds(c, i, k) && holds(c, j, l));
    }
}

/// Appending an entry keeps the image consistent, whether it succeeds or
/// not.
pub proof fn lemma_add_dentry_consistent(s: PartitionView, parent: int, name: Seq<u8>, child: u32)
    requires
        consistent(s.cfs),
        0 <= parent < s.cfs.inodes.len(),
    ensures
        consistent(s.add_dentry(parent, name, child).0.cfs),
{
    s.lemma_add_dentry_keeps_maps(parent, name, child);
    s.lemma_add_dentry_keeps_blocks(parent, name, child);
    lemma_same_holdings(s.cfs, s.add_dentry(parent, name, child).0.cfs);
}

/// Making a directory that succeeds keeps the image consistent.
pub proof fn lemma_add_dir_consistent(
    s: PartitionView,
    parent: int,
    name: Seq<u8>,
    uid: u16,
    gid: u16,
    now: u32,
)
    requires
        consistent(s.cfs),
        0 <= parent < s.cfs.inodes.len(),
        s.add_dir(parent, name, uid, gid, now).1 is Ok,
    ensures
        consistent(s.add_dir(parent, name, uid, gid, now).0.cfs),
{
    let c = s.cfs;
    let child = c.free_inode()->Some_0;
    c.lemma_take_inode(child);
    let taken = c.take_inode(child);
    let blk = taken.free_block()->Some_0;
    taken.lemma_take_block(blk);
    let inode = dir_inode(uid, gid, now, blk as u32);
    let installed = PartitionView { dev: s.dev, cfs: taken.take_block(blk) }.with_inode(
        child,
        inode,
    );
    lemma_ceil_div(0, c.sb.blocksize as int);
    let d = installed.cfs;
    assert forall|b: int| 0 <= b < 8 * c.bam.len() && c.block_used(b) implies d.block_used(b) by {
        assert(taken.block_used(b));
    }
    lemma_grow(c, d, child, seq![blk as u32]);
    lemma_add_dentry_consistent(installed, parent, name, child as u32);
}

/// Taking in a file that succeeds keeps the image consistent.
pub proof fn lemma_add_file_consistent(
    s: PartitionView,
    parent: int,
    name: Seq<u8>,
    src: FileSource,
)
    requires
        consistent(s.cfs),
        0 <= parent < s.cfs.inodes.len(),
        s.add_file(parent, name, src).1 is Ok,
    ensures
        consistent(s.add_file(parent, name, src).0.cfs),
{
    let c = s.cfs;
    let size = src.data@.len() as int;
    let n = ceil_div(size, c.sb.blocksize as int);
    lemma_ceil_div(size, c.sb.blocksize as int);
    let child = c.free_inode()->Some_0;
    c.lemma_take_inode(child);
    let marked = c.take_inode(child);
    marked.lemma_take_blocks((n + 1) as nat);
    let (taken, addrs) = marked.take_blocks((n + 1) as nat);
    let held_state = PartitionView { dev: s.dev, cfs: taken };
    let installed = held_state.store_file(child, addrs, src);
    let inode = file_inode(src, addrs);
    let d = installed.cfs;
    assert forall|b: int| 0 <= b < 8 * c.bam.len() && c.block_used(b) implies d.block_used(b) by {
        assert(marked.block_used(b));
    }
    lemma_grow(c, d, child, addrs);
    lemma_add_dentry_consistent(installed, parent, name, child as u32);
}

/// Removing an inode in use, other than the reserved one, keeps the image
/// consistent: the blocks released are held by no other inode.
pub proof fn lemma_remove_inode_consistent(s: PartitionView, index: int)
    requires
        consistent(s.cfs),
        1 <= index < s.cfs.inodes.len(),
        s.cfs.inode_used(index),
    ensures
        consistent(s.remove_inode(index).cfs),
{
    let c = s.cfs;
    let d = s.remove_inode(index).cfs;
    let inode = c.inodes[index];
    let n = held(c, index);
    lemma_held(c, index);
    lemma_clear_bit(c.iam, index);
    lemma_release_blocks(c.bam, inode.blkaddr@, n, c.sb.nblocks as int);
    assert forall|i: int, k: int| #[trigger] holds(d, i, k) implies holds(c, i, k) && i != index
        && slot(d, i, k) == slot(c, i, k) by {}
    assert forall|i: int, k: int| #[trigger] holds(d, i, k) implies slot(d, i, k) < d.sb.nblocks
        && d.block_used(slot(d, i, k) as int) by {
        let b = slot(c, i, k) as int;
        assert forall|j: int| 0 <= j < n implies inode.blkaddr@[j] != b by {
            assert(holds(c, index, j));
        }
        lemma_not_released(inode.blkaddr@, n, c.sb.nblocks as int, b);
    }
}

/// Removing an inode in use from a directory keeps the image consistent.
pub proof fn lemma_remove_dir_consistent(s: PartitionView, parent: int, target: u32)
    requires
        consistent(s.cfs),
        0 <= parent < s.cfs.inodes.len(),
        1 <= target < s.cfs.inodes.len(),
        s.cfs.inode_used(target as int),
        s.remove_dir(parent, target).1 is Ok,
    ensures
        consistent(s.remove_dir(parent, target).0.cfs),
{
    let c = s.cfs;
    let inode = c.inodes[parent];
    let addr = s.dir_block(parent);
    let kept = crate::model::kept_entries(s.block(addr), s.listing_len(parent), target);
    let rewritten = kept + crate::codec::zero_bytes((s.block_size() - kept.len()) as nat);
    let counted = PartitionView {
        dev: crate::device::write_at(s.dev, s.block_offset(addr), rewritten),
        cfs: s.cfs,
    }.with_inode(parent, Inode { nchildren: (kept.len() / 64) as u16, ..inode });
    lemma_same_holdings(c, counted.cfs);
    lemma_remove_inode_consistent(counted, target as int);
}

} // verus!
