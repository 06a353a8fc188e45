//! What holds of the filesystem as a whole.
//!
//! Each statement here relates several operations. They are stated over
//! the mathematical values that the contracts of the operations speak of.

use crate::bitmap::{bits_of, clear_bit, lemma_clear_bit, lemma_set_bit, set_bit};
use crate::consistency::{
    consistent, holds, lemma_add_dir_consistent, lemma_add_file_consistent, lemma_held, slot,
};
use crate::device::{lemma_write_elsewhere, lemma_write_then_read, write_at};
use crate::dir_entry::DirEntry;
use crate::error::Error;
use crate::inode::Inode;
use crate::model::{
    addr_at, chunk, dentry_bytes, dir_inode, file_inode, formattable, lemma_fresh_image,
    PartitionView,
};
use crate::partition::FileSource;
use crate::superblock::{ceil_div, SuperBlock};
use vstd::prelude::*;

verus! {

/// A bit that is set and then cleared reads as clear, a bit that is set
/// reads as set, and neither step touches any other bit.
pub proof fn lemma_set_then_clear(data: Seq<u8>, i: int)
    requires
        0 <= i < 8 * data.len(),
    ensures
        bits_of(set_bit(data, i))[i],
        !bits_of(clear_bit(set_bit(data, i), i))[i],
        forall|j: int|
            0 <= j < 8 * data.len() && j != i ==> bits_of(set_bit(data, i))[j] == bits_of(data)[j],
        forall|j: int|
            0 <= j < 8 * data.len() && j != i ==> bits_of(clear_bit(set_bit(data, i), i))[j]
                == bits_of(data)[j],
{
    lemma_set_bit(data, i);
    lemma_clear_bit(set_bit(data, i), i);
}

/// After formatting, the device starts with the image, the image ends
/// before the data blocks begin, and the whole blocks counted lie on the
/// device as it was.
pub proof fn lemma_format_layout(dev: Seq<u8>, block_size: int)
    requires
        formattable(dev.len() as int, block_size),
        SuperBlock::derive(dev.len() as int, block_size).nblocks >= 1,
        SuperBlock::derive(dev.len() as int, block_size).ninodes >= 2,
    ensures
        ({
            let sb = SuperBlock::derive(dev.len() as int, block_size);
            let p = PartitionView::format(dev, sb);
            &&& p.wf()
            &&& p.dev.subrange(0, p.cfs.encode().len() as int) == p.cfs.encode()
            &&& p.cfs.encode().len() <= p.cfs.data_blocks_offset()
            &&& sb.nblocks * block_size <= dev.len()
            &&& p.cfs.inodes_in_use() == 2
            &&& p.cfs.blocks_in_use() == 1
        }),
{
    let sb = SuperBlock::derive(dev.len() as int, block_size);
    let p = PartitionView::format(dev, sb);
    lemma_fresh_image(dev.len() as int, block_size);
    p.cfs.lemma_encode_layout();
    p.cfs.lemma_offsets();
    lemma_write_then_read(dev, 0, p.cfs.encode());
    crate::superblock::lemma_geometry(dev.len() as int, block_size);
    SuperBlock::lemma_derive(dev.len() as int, block_size);
}

/// Writing the image leaves the device starting with the image, and
/// leaves every data block as it was.
pub proof fn lemma_flush(s: PartitionView, addr: int)
    requires
        s.wf(),
        0 <= addr,
        s.block_readable(addr),
    ensures
        s.flush().dev.subrange(0, s.cfs.encode().len() as int) == s.cfs.encode(),
        s.flush().block_readable(addr),
        s.flush().block(addr) == s.block(addr),
{
    s.cfs.lemma_encode_layout();
    s.cfs.lemma_offsets();
    lemma_write_then_read(s.dev, 0, s.cfs.encode());
    assert(0 <= addr * s.block_size()) by (nonlinear_arith)
        requires
            0 <= addr,
            0 <= s.block_size(),
    ;
    lemma_write_elsewhere(
        s.dev,
        0,
        s.cfs.encode(),
        s.block_offset(addr),
        s.block_offset(addr) + s.block_size(),
    );
}

/// A directory has one listing: listing it twice gives the same entries in
/// the same order.
pub proof fn lemma_listing_unique(s: PartitionView, parent: int, a: Seq<DirEntry>, b: Seq<DirEntry>)
    requires
        s.is_listing(parent, a),
        s.is_listing(parent, b),
    ensures
        a == b,
{
    assert forall|k: int| 0 <= k < a.len() implies a[k] == b[k] by {
        DirEntry::lemma_encode_injective(a[k], b[k]);
    }
}

/// A listing grows by the entry added, at its end: after an entry is
/// added to a directory, the directory lists what it listed before,
/// in the same order, and then the new entry.
pub proof fn lemma_listing_after_add(
    s: PartitionView,
    parent: int,
    name: Seq<u8>,
    child: u32,
    listed: Seq<DirEntry>,
    entry: DirEntry,
)
    requires
        s.wf(),
        0 <= parent < s.cfs.inodes.len(),
        s.dir_has_room(parent),
        s.is_listing(parent, listed),
        entry.encode() == dentry_bytes(name, child),
        s.add_dentry(parent, name, child).1 is Ok,
    ensures
        listed.len() == s.cfs.inodes[parent].nchildren,
        s.add_dentry(parent, name, child).0.cfs.inodes[parent].nchildren == listed.len() + 1,
        s.add_dentry(parent, name, child).0.is_listing(parent, listed.push(entry)),
{
    let after = s.add_dentry(parent, name, child).0;
    let n = s.cfs.inodes[parent].nchildren as int;
    let base = s.block_offset(s.dir_block(parent));
    let record = dentry_bytes(name, child);
    let written = write_at(s.dev, base + 64 * n, record);
    let image = after.cfs.encode();
    s.lemma_add_dentry_writes(parent, name, child);
    lemma_write_then_read(s.dev, base + 64 * n, record);
    let all = listed.push(entry);
    assert forall|k: int| 0 <= k < all.len() implies (#[trigger] all[k]).encode()
        == after.dev.subrange(base + 64 * k, base + 64 * k + 64) by {
        let from = base + 64 * k;
        lemma_write_elsewhere(written, 0, image, from, from + 64);
        if k < n {
            lemma_write_elsewhere(s.dev, base + 64 * n, record, from, from + 64);
        }
    }
}

/// Making a directory that succeeds takes one inode and one block.
pub proof fn lemma_add_dir_counts(
    s: PartitionView,
    parent: int,
    name: Seq<u8>,
    uid: u16,
    gid: u16,
    now: u32,
)
    requires
        s.wf(),
        s.add_dir(parent, name, uid, gid, now).1 is Ok,
    ensures
        s.add_dir(parent, name, uid, gid, now).0.cfs.inodes_in_use() == s.cfs.inodes_in_use() + 1,
        s.add_dir(parent, name, uid, gid, now).0.cfs.blocks_in_use() == s.cfs.blocks_in_use() + 1,
{
    let child = s.cfs.free_inode()->Some_0;
    s.cfs.lemma_take_inode(child);
    let taken = s.cfs.take_inode(child);
    let blk = taken.free_block()->Some_0;
    taken.lemma_take_block(blk);
    PartitionView { dev: s.dev, cfs: taken.take_block(blk) }.with_inode(
        child,
        dir_inode(uid, gid, now, blk as u32),
    ).lemma_add_dentry_keeps_maps(parent, name, child as u32);
}

/// Taking in a file that succeeds takes one inode, and one block more than
/// its contents need.
pub proof fn lemma_add_file_counts(s: PartitionView, parent: int, name: Seq<u8>, src: FileSource)
    requires
        s.wf(),
        s.add_file(parent, name, src).1 is Ok,
    ensures
        s.add_file(parent, name, src).0.cfs.inodes_in_use() == s.cfs.inodes_in_use() + 1,
        s.add_file(parent, name, src).0.cfs.blocks_in_use() == s.cfs.blocks_in_use() + ceil_div(
            src.data@.len() as int,
            s.block_size(),
        ) + 1,
{
    let n = ceil_div(src.data@.len() as int, s.block_size());
    crate::superblock::lemma_ceil_div(src.data@.len() as int, s.block_size());
    let child = s.cfs.free_inode()->Some_0;
    s.cfs.lemma_take_inode(child);
    s.cfs.take_inode(child).lemma_take_blocks((n + 1) as nat);
    let (taken, addrs) = s.cfs.take_inode(child).take_blocks((n + 1) as nat);
    PartitionView { dev: s.dev, cfs: taken }.store_file(
        child,
        addrs,
        src,
    ).lemma_add_dentry_keeps_maps(parent, name, child as u32);
}

/// One step of filling a filesystem: making a directory or taking in a
/// file.
pub enum Addition {
    /// Making a directory `name` under `parent`.
    Dir { parent: int, name: Seq<u8>, uid: u16, gid: u16, now: u32 },
    /// Taking in the file `src` as `name` under `parent`.
    File { parent: int, name: Seq<u8>, src: FileSource },
}

impl Addition {
    /// The directory that gets the new entry.
    pub open spec fn parent(self) -> int {
        match self {
            Addition::Dir { parent, .. } => parent,
            Addition::File { parent, .. } => parent,
        }
    }

    /// Whether the step may be taken in state `s`: the directory exists
    /// and has room for one more entry.
    pub open spec fn allowed(self, s: PartitionView) -> bool {
        0 <= self.parent() < s.cfs.inodes.len() && s.dir_has_room(self.parent())
    }

    /// What the step does to state `s`.
    pub open spec fn apply(self, s: PartitionView) -> (PartitionView, Result<(), Error>) {
        match self {
            Addition::Dir { parent, name, uid, gid, now } => s.add_dir(parent, name, uid, gid, now),
            Addition::File { parent, name, src } => s.add_file(parent, name, src),
        }
    }

    /// Number of direct blocks that the new inode uses: one for a
    /// directory; for a file, one for each block of contents and one more.
    pub open spec fn blocks(self, block_size: int) -> int {
        match self {
            Addition::Dir { .. } => 1,
            Addition::File { src, .. } => ceil_div(src.data@.len() as int, block_size) + 1,
        }
    }
}

/// The state after every step of `steps` was taken from `s` in turn and
/// succeeded; nothing where one of them was not allowed or failed.
pub open spec fn run(s: PartitionView, steps: Seq<Addition>) -> Option<PartitionView>
    decreases steps.len(),
{
    if steps.len() == 0 {
        Some(s)
    } else {
        match run(s, steps.drop_last()) {
            None => None,
            Some(mid) => if steps.last().allowed(mid) && steps.last().apply(mid).1 is Ok {
                Some(steps.last().apply(mid).0)
            } else {
                None
            },
        }
    }
}

/// Number of direct blocks that the inodes made by `steps` use.
pub open spec fn blocks_of(steps: Seq<Addition>, block_size: int) -> int
    decreases steps.len(),
{
    if steps.len() == 0 {
        0
    } else {
        blocks_of(steps.drop_last(), block_size) + steps.last().blocks(block_size)
    }
}

/// A step keeps the image well formed and its geometry as it was.
pub proof fn lemma_addition_wf(s: PartitionView, step: Addition)
    requires
        s.wf(),
        step.allowed(s),
    ensures
        step.apply(s).0.wf(),
        step.apply(s).0.cfs.sb == s.cfs.sb,
{
    match step {
        Addition::Dir { parent, name, uid, gid, now } => {
            if name.len() <= 60 && s.cfs.free_inode() is Some {
                let child = s.cfs.free_inode()->Some_0;
                s.cfs.lemma_take_inode(child);
                let taken = s.cfs.take_inode(child);
                if taken.free_block() is Some {
                    let blk = taken.free_block()->Some_0;
                    taken.lemma_take_block(blk);
                    let installed = PartitionView {
                        dev: s.dev,
                        cfs: taken.take_block(blk),
                    }.with_inode(child, dir_inode(uid, gid, now, blk as u32));
                    installed.lemma_add_dentry_wf(parent, name, child as u32);
                }
            }
        },
        Addition::File { parent, name, src } => {
            let n = ceil_div(src.data@.len() as int, s.block_size());
            crate::superblock::lemma_ceil_div(src.data@.len() as int, s.block_size());
            if name.len() <= 60 && n <= 9 && src.data@.len() <= u32::MAX && s.cfs.free_inode()
                is Some {
                let child = s.cfs.free_inode()->Some_0;
                s.cfs.lemma_take_inode(child);
                s.cfs.take_inode(child).lemma_take_blocks((n + 1) as nat);
                let (taken, addrs) = s.cfs.take_inode(child).take_blocks((n + 1) as nat);
                if addrs.len() >= n + 1 {
                    let held = PartitionView { dev: s.dev, cfs: taken };
                    held.store_file(child, addrs, src).lemma_add_dentry_wf(
                        parent,
                        name,
                        child as u32,
                    );
                }
            }
        },
    }
}

/// Allocation is conserved: after any run of additions that succeed, the
/// number of inodes in use has grown by the number of additions, and the
/// number of blocks in use by the number of direct blocks that the new
/// inodes use. From a fresh filesystem that is two inodes and one block,
/// and those.
pub proof fn lemma_allocation_conserved(s: PartitionView, steps: Seq<Addition>)
    requires
        s.wf(),
        run(s, steps) is Some,
    ensures
        run(s, steps)->Some_0.wf(),
        run(s, steps)->Some_0.cfs.sb == s.cfs.sb,
        run(s, steps)->Some_0.cfs.inodes_in_use() == s.cfs.inodes_in_use() + steps.len(),
        run(s, steps)->Some_0.cfs.blocks_in_use() == s.cfs.blocks_in_use() + blocks_of(
            steps,
            s.block_size(),
        ),
    decreases steps.len(),
{
    if steps.len() > 0 {
        lemma_allocation_conserved(s, steps.drop_last());
        let mid = run(s, steps.drop_last())->Some_0;
        let step = steps.last();
        lemma_addition_wf(mid, step);
        match step {
            Addition::Dir { parent, name, uid, gid, now } => {
                lemma_add_dir_counts(mid, parent, name, uid, gid, now);
            },
            Addition::File { parent, name, src } => {
                lemma_add_file_counts(mid, parent, name, src);
            },
        }
    }
}

/// Distinct data blocks do not overlap, and no data block overlaps the
/// image at the head of the device.
pub proof fn lemma_blocks_apart(s: PartitionView, a: int, b: int)
    requires
        s.wf(),
        0 <= a,
        0 <= b,
        a != b,
    ensures
        s.cfs.encode().len() <= s.block_offset(a),
        s.block_offset(a) + s.block_size() <= s.block_offset(b) || s.block_offset(b)
            + s.block_size() <= s.block_offset(a),
{
    s.cfs.lemma_encode_layout();
    s.cfs.lemma_offsets();
    let size = s.block_size();
    assert(0 <= a * size && (a * size + size <= b * size || b * size + size <= a * size))
        by (nonlinear_arith)
        requires
            0 <= a,
            0 <= b,
            a != b,
            0 < size,
    ;
}

/// After the blocks of a file are written to distinct data blocks, each
/// of those blocks holds its block of the contents.
pub proof fn lemma_write_chunks(
    held: PartitionView,
    addrs: Seq<u32>,
    data: Seq<u8>,
    k: int,
    j: int,
)
    requires
        held.wf(),
        0 <= k < addrs.len(),
        1 <= j <= k,
        forall|x: int, y: int| 0 <= x < y < addrs.len() ==> addrs[x] != addrs[y],
    ensures
        held.write_chunks(addrs, data, k).len() >= held.block_offset(addrs[j] as int)
            + held.block_size(),
        held.write_chunks(addrs, data, k).subrange(
            held.block_offset(addrs[j] as int),
            held.block_offset(addrs[j] as int) + held.block_size(),
        ) == chunk(data, j - 1, held.block_size()),
    decreases k,
{
    let b = held.block_size();
    let prev = held.write_chunks(addrs, data, k - 1);
    let at = held.block_offset(addrs[k] as int);
    lemma_blocks_apart(held, addrs[k] as int, addrs[0] as int);
    lemma_write_then_read(prev, at, chunk(data, k - 1, b));
    if j < k {
        lemma_write_chunks(held, addrs, data, k - 1, j);
        lemma_blocks_apart(held, addrs[j] as int, addrs[k] as int);
        lemma_write_elsewhere(
            prev,
            at,
            chunk(data, k - 1, b),
            held.block_offset(addrs[j] as int),
            held.block_offset(addrs[j] as int) + b,
        );
    }
}

/// The first `k` blocks of contents of an inode are `k` blocks long, and
/// byte `i` of them is byte `i % b` of block `i / b`.
pub proof fn lemma_file_bytes(s: PartitionView, inode: Inode, k: int, i: int)
    requires
        s.wf(),
        0 <= k <= 9,
        s.file_readable(inode, k),
        0 <= i < k * s.block_size(),
    ensures
        s.file_bytes(inode, k).len() == k * s.block_size(),
        0 <= i / s.block_size() < k,
        s.file_bytes(inode, k)[i] == s.block(inode.blkaddr[i / s.block_size() + 1] as int)[i
            % s.block_size()],
    decreases k,
{
    let b = s.block_size();
    s.cfs.lemma_offsets();
    lemma_file_bytes_len(s, inode, k);
    lemma_file_bytes_len(s, inode, k - 1);
    if i < (k - 1) * b {
        lemma_file_bytes(s, inode, k - 1, i);
    } else {
        let r = i - (k - 1) * b;
        assert(i / b == k - 1 && i % b == r) by (nonlinear_arith)
            requires
                0 <= r < b,
                i == (k - 1) * b + r,
                0 <= k - 1,
        ;
    }
}

/// The first `k` blocks of contents of an inode are `k` blocks long.
pub proof fn lemma_file_bytes_len(s: PartitionView, inode: Inode, k: int)
    requires
        s.wf(),
        0 <= k <= 9,
        s.file_readable(inode, k),
    ensures
        s.file_bytes(inode, k).len() == k * s.block_size(),
    decreases k,
{
    let b = s.block_size();
    s.cfs.lemma_offsets();
    if k > 0 {
        lemma_file_bytes_len(s, inode, k - 1);
        let addr = inode.blkaddr[k] as int;
        assert(0 <= addr * b) by (nonlinear_arith)
            requires
                0 <= addr,
                0 <= b,
        ;
        assert((k - 1) * b + b == k * b) by (nonlinear_arith);
    } else {
        assert(k * b == 0) by (nonlinear_arith)
            requires
                k == 0,
        ;
    }
}

/// Where the blocks of contents of an inode hold the blocks of `data`, and
/// the inode has the size of `data`, reading the inode gives whole blocks
/// that start with `data`.
pub proof fn lemma_read_back(s: PartitionView, index: int, data: Seq<u8>)
    requires
        s.wf(),
        s.cfs.inodes[index].size == data.len(),
        ceil_div(data.len() as int, s.block_size()) <= 9,
        forall|k: int|
            1 <= k <= ceil_div(data.len() as int, s.block_size()) ==> s.block_readable(
                #[trigger] s.cfs.inodes[index].blkaddr[k] as int,
            ) && s.block(s.cfs.inodes[index].blkaddr[k] as int) == chunk(
                data,
                k - 1,
                s.block_size(),
            ),
    ensures
        s.read_file(index) is Ok,
        s.read_file(index)->Ok_0.len() >= data.len(),
        s.read_file(index)->Ok_0.subrange(0, data.len() as int) == data,
{
    let inode = s.cfs.inodes[index];
    let size = data.len() as int;
    let b = s.block_size();
    let n = ceil_div(size, b);
    crate::superblock::lemma_ceil_div(size, b);
    lemma_file_bytes_len(s, inode, n);
    let read = s.file_bytes(inode, n);
    assert forall|i: int| 0 <= i < size implies read[i] == data[i] by {
        lemma_file_bytes(s, inode, n, i);
        let q = i / b;
        let r = i % b;
        assert(q * b + r == i) by (nonlinear_arith)
            requires
                q == i / b,
                r == i % b,
                0 < b,
        ;
    }
}

/// The blocks of a file survive the entry of the file in its directory
/// and the writing of the image: an entry written into another data
/// block, and an image that ends before the data blocks begin, leave
/// each block of the contents as it was written.
pub proof fn lemma_chunks_survive(
    held: PartitionView,
    addrs: Seq<u32>,
    data: Seq<u8>,
    n: int,
    pb: int,
    at: int,
    record: Seq<u8>,
    image: Seq<u8>,
    k: int,
)
    requires
        held.wf(),
        0 <= n < addrs.len(),
        1 <= k <= n,
        forall|x: int, y: int| 0 <= x < y < addrs.len() ==> addrs[x] != addrs[y],
        forall|j: int| 0 <= j < addrs.len() ==> addrs[j] != pb,
        0 <= pb,
        held.block_offset(pb) <= at,
        at + record.len() <= held.block_offset(pb) + held.block_size(),
        image.len() <= held.cfs.data_blocks_offset(),
    ensures
        ({
            let written = held.write_chunks(addrs, data, n);
            let after = write_at(write_at(written, at, record), 0, image);
            let from = held.block_offset(addrs[k] as int);
            &&& 0 <= from
            &&& from + held.block_size() <= after.len()
            &&& after.subrange(from, from + held.block_size()) == chunk(
                data,
                k - 1,
                held.block_size(),
            )
        }),
{
    let b = held.block_size();
    let written = held.write_chunks(addrs, data, n);
    let entered = write_at(written, at, record);
    let a = addrs[k] as int;
    let from = held.block_offset(a);
    held.cfs.lemma_offsets();
    lemma_write_chunks(held, addrs, data, n, k);
    lemma_blocks_apart(held, a, pb);
    lemma_write_elsewhere(written, at, record, from, from + b);
    lemma_write_elsewhere(entered, 0, image, from, from + b);
}

/// The steps of taking in a file that succeeds: an inode and the blocks
/// are taken, the contents are stored, and the entry is added.
pub proof fn lemma_add_file_steps(s: PartitionView, parent: int, name: Seq<u8>, src: FileSource)
    requires
        s.wf(),
        s.add_file(parent, name, src).1 is Ok,
    ensures
        ({
            let n = ceil_div(src.data@.len() as int, s.block_size());
            let child = s.cfs.free_inode()->Some_0;
            let (taken, addrs) = s.cfs.take_inode(child).take_blocks((n + 1) as nat);
            let held = PartitionView { dev: s.dev, cfs: taken };
            &&& 0 <= n <= 9
            &&& src.data@.len() <= u32::MAX
            &&& s.cfs.free_inode() is Some
            &&& addrs.len() == n + 1
            &&& s.add_file(parent, name, src) == held.store_file(child, addrs, src).add_dentry(
                parent,
                name,
                child as u32,
            )
        }),
{
    let n = ceil_div(src.data@.len() as int, s.block_size());
    crate::superblock::lemma_ceil_div(src.data@.len() as int, s.block_size());
    let child = s.cfs.free_inode()->Some_0;
    s.cfs.lemma_take_inode(child);
    s.cfs.take_inode(child).lemma_take_blocks((n + 1) as nat);
}

/// The entry of a file in its directory leaves the inode of the file as
/// it was stored.
pub proof fn lemma_entry_keeps_inode(
    held: PartitionView,
    child: int,
    addrs: Seq<u32>,
    src: FileSource,
    parent: int,
    name: Seq<u8>,
)
    requires
        held.wf(),
        0 <= child < held.cfs.inodes.len(),
        0 <= parent < held.cfs.inodes.len(),
        child != parent,
        held.dir_has_room(parent),
        held.store_file(child, addrs, src).add_dentry(parent, name, child as u32).1 is Ok,
    ensures
        ({
            let after = held.store_file(child, addrs, src).add_dentry(
                parent,
                name,
                child as u32,
            ).0;
            &&& after.wf()
            &&& after.block_size() == held.block_size()
            &&& after.cfs.inodes[child] == file_inode(src, addrs)
        }),
{
    held.store_file(child, addrs, src).lemma_add_dentry_writes(parent, name, child as u32);
}

/// The entry of a file in its directory leaves the blocks of its
/// contents as they were stored.
pub proof fn lemma_entry_keeps_file(
    held: PartitionView,
    child: int,
    addrs: Seq<u32>,
    src: FileSource,
    parent: int,
    name: Seq<u8>,
    k: int,
)
    requires
        held.wf(),
        0 <= child < held.cfs.inodes.len(),
        0 <= parent < held.cfs.inodes.len(),
        child != parent,
        held.dir_has_room(parent),
        1 <= k < addrs.len() <= 10,
        forall|x: int, y: int| 0 <= x < y < addrs.len() ==> addrs[x] != addrs[y],
        forall|j: int| 0 <= j < addrs.len() ==> addrs[j] != held.dir_block(parent),
        held.store_file(child, addrs, src).add_dentry(parent, name, child as u32).1 is Ok,
    ensures
        ({
            let after = held.store_file(child, addrs, src).add_dentry(
                parent,
                name,
                child as u32,
            ).0;
            &&& after.cfs.inodes[child].blkaddr[k] == addrs[k]
            &&& after.block_readable(addrs[k] as int)
            &&& after.block(addrs[k] as int) == chunk(src.data@, k - 1, held.block_size())
        }),
{
    let installed = held.store_file(child, addrs, src);
    let after = installed.add_dentry(parent, name, child as u32).0;
    lemma_entry_keeps_inode(held, child, addrs, src, parent, name);
    installed.lemma_add_dentry_writes(parent, name, child as u32);
    let pb = held.dir_block(parent);
    let at = held.block_offset(pb) + 64 * held.cfs.inodes[parent].nchildren;
    lemma_chunks_survive(
        held,
        addrs,
        src.data@,
        addrs.len() - 1,
        pb,
        at,
        dentry_bytes(name, child as u32),
        after.cfs.encode(),
        k,
    );
}

/// After a file is taken in under a directory that is in use and whose
/// entries stand in a data block that is in use, reading the new inode
/// gives whole blocks that start with the contents of the file.
pub proof fn lemma_file_reads_back_beside(
    s: PartitionView,
    parent: int,
    name: Seq<u8>,
    src: FileSource,
)
    requires
        s.wf(),
        0 <= parent < s.cfs.inodes.len(),
        s.dir_has_room(parent),
        s.cfs.inode_used(parent),
        s.dir_block(parent) < s.cfs.sb.nblocks,
        s.cfs.block_used(s.dir_block(parent)),
        s.add_file(parent, name, src).1 is Ok,
    ensures
        ({
            let child = s.cfs.free_inode()->Some_0;
            let read = s.add_file(parent, name, src).0.read_file(child);
            &&& s.cfs.free_inode() is Some
            &&& read is Ok
            &&& read->Ok_0.len() >= src.data@.len()
            &&& read->Ok_0.subrange(0, src.data@.len() as int) == src.data@
        }),
{
    let data = src.data@;
    let b = s.block_size();
    let n = ceil_div(data.len() as int, b);
    lemma_add_file_steps(s, parent, name, src);
    let child = s.cfs.free_inode()->Some_0;
    s.cfs.lemma_take_inode(child);
    let marked = s.cfs.take_inode(child);
    marked.lemma_take_blocks((n + 1) as nat);
    let (taken, addrs) = marked.take_blocks((n + 1) as nat);
    let held = PartitionView { dev: s.dev, cfs: taken };
    let after = held.store_file(child, addrs, src).add_dentry(parent, name, child as u32).0;
    assert forall|k: int| 1 <= k <= n implies after.block_readable(
        #[trigger] after.cfs.inodes[child].blkaddr[k] as int,
    ) && after.block(after.cfs.inodes[child].blkaddr[k] as int) == chunk(data, k - 1, b) by {
        lemma_entry_keeps_file(held, child, addrs, src, parent, name, k);
    }
    lemma_entry_keeps_inode(held, child, addrs, src, parent, name);
    lemma_read_back(after, child, data);
}

/// A file reads back: in a consistent filesystem, after a file is taken
/// in under a directory in use, reading the new inode gives whole blocks
/// that start with the contents of the file.
pub proof fn lemma_file_reads_back(s: PartitionView, parent: int, name: Seq<u8>, src: FileSource)
    requires
        consistent(s.cfs),
        1 <= parent < s.cfs.inodes.len(),
        s.cfs.inode_used(parent),
        s.dir_has_room(parent),
        s.add_file(parent, name, src).1 is Ok,
    ensures
        ({
            let child = s.cfs.free_inode()->Some_0;
            let read = s.add_file(parent, name, src).0.read_file(child);
            &&& s.cfs.free_inode() is Some
            &&& read is Ok
            &&& read->Ok_0.len() >= src.data@.len()
            &&& read->Ok_0.subrange(0, src.data@.len() as int) == src.data@
        }),
{
    lemma_held(s.cfs, parent);
    assert(holds(s.cfs, parent, 0));
    lemma_file_reads_back_beside(s, parent, name, src);
}

/// Additions keep a consistent filesystem consistent.
pub proof fn lemma_run_consistent(s: PartitionView, steps: Seq<Addition>)
    requires
        consistent(s.cfs),
        run(s, steps) is Some,
    ensures
        consistent(run(s, steps)->Some_0.cfs),
    decreases steps.len(),
{
    if steps.len() > 0 {
        lemma_run_consistent(s, steps.drop_last());
        let mid = run(s, steps.drop_last())->Some_0;
        match steps.last() {
            Addition::Dir { parent, name, uid, gid, now } => {
                lemma_add_dir_consistent(mid, parent, name, uid, gid, now);
            },
            Addition::File { parent, name, src } => {
                lemma_add_file_consistent(mid, parent, name, src);
            },
        }
    }
}

} // verus!
