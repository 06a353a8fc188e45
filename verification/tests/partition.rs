use cfs::bitmap::Bitmap;
use cfs::device::BlockDevice;
use cfs::dir_entry::DirEntry;
use cfs::error::Error;
use cfs::image::Cfs;
use cfs::inode::Inode;
use cfs::partition::{CfsPartition, FileSource};
use cfs::utils::str_to_u8_60;

const MIB: usize = 1024 * 1024;
const B: usize = 4096;

fn fresh() -> CfsPartition {
    CfsPartition::new(BlockDevice::new(vec![0u8; 16 * MIB]), B as u64).unwrap()
}

fn ready() -> CfsPartition {
    let mut p = fresh();
    p.setup_root_dir().unwrap();
    p
}

fn file(data: Vec<u8>) -> FileSource {
    FileSource { mode: 0o100644, uid: 1000, gid: 100, atime: 11, mtime: 22, ctime: 33, data }
}

fn pattern(len: usize) -> Vec<u8> {
    (0..len).map(|i| (i * 31 % 251) as u8 + 1).collect()
}

fn popcount(bytes: &[u8]) -> u32 {
    bytes.iter().map(|b| b.count_ones()).sum()
}

fn listed(p: &CfsPartition, dir: usize) -> Vec<(String, u32)> {
    p.list_dentries_from_inode(dir)
        .unwrap()
        .iter()
        .map(|e| {
            let end = e.name.iter().position(|b| *b == 0).unwrap_or(60);
            (String::from_utf8(e.name[..end].to_vec()).unwrap(), e.inode)
        })
        .collect()
}

fn pair(name: &str, inode: u32) -> (String, u32) {
    (name.to_string(), inode)
}

#[test]
fn format_reserves_block_zero_and_two_inodes() {
    let mut p = fresh();
    assert!(p.is_wf());
    assert!(p.cfs.bam.get(0));
    assert!(!p.cfs.bam.get(1));
    assert!(p.cfs.iam.get(0));
    assert!(p.cfs.iam.get(1));
    assert!(!p.cfs.iam.get(2));
    assert_eq!(popcount(&p.cfs.bam.data), 1);
    assert_eq!(popcount(&p.cfs.iam.data), 2);
    assert_eq!(p.cfs.bam.data.len(), B);
    assert_eq!(p.cfs.iam.data.len(), B);
    assert_eq!(p.cfs.inode_list.inodes.len(), 64);
    assert_eq!(p.cfs.inode_list.get(0), Inode::default());
    assert_eq!(p.cfs.inode_list.get(1).mode, 0o040755);
    assert_eq!(p.cfs.inode_list.get(1).blkaddr[0], 0);
}

#[test]
fn format_writes_the_image_at_the_head_of_the_device() {
    let p = fresh();
    let image = p.cfs.to_bytes();
    assert_eq!(image.len(), 3 * B + 64 * 64);
    assert!(image.len() as u64 <= p.cfs.data_blocks_offset());
    assert_eq!(&p.blk_dev.data[..image.len()], &image[..]);
    assert_eq!(p.blk_dev.data.len(), 16 * MIB);
    assert!(p.cfs.super_block.nblocks as usize * B <= 16 * MIB);
    assert_eq!(&p.blk_dev.data[0..4], &[0x0C, 0xB1, 0xF5, 0x0C]);
}

#[test]
fn format_keeps_what_the_device_held_past_the_image() {
    let mut bytes = vec![0x5a; 16 * MIB];
    bytes[16 * MIB - 1] = 0x77;
    let p = CfsPartition::new(BlockDevice::new(bytes), B as u64).unwrap();
    let end = p.cfs.to_bytes().len();
    assert!(p.blk_dev.data[end..16 * MIB - 1].iter().all(|b| *b == 0x5a));
    assert_eq!(p.blk_dev.data[16 * MIB - 1], 0x77);
}

#[test]
fn format_of_a_device_without_a_block_has_no_free_block() {
    let r = CfsPartition::new(BlockDevice::new(vec![0u8; 4095]), B as u64);
    assert_eq!(r.err(), Some(Error::NoFreeBlocks));
    let r = CfsPartition::new(BlockDevice::new(Vec::new()), B as u64);
    assert_eq!(r.err(), Some(Error::NoFreeBlocks));
}

#[test]
fn format_of_a_device_without_two_inodes_has_no_free_inode() {
    let r = CfsPartition::new(BlockDevice::new(vec![0u8; 4 * MIB]), B as u64);
    assert_eq!(r.err(), Some(Error::NoFreeInodes));
    let r = CfsPartition::new(BlockDevice::new(vec![0u8; 4096 * 100]), 100);
    assert_eq!(r.err(), Some(Error::NoFreeInodes));
}

#[test]
fn format_with_small_blocks() {
    let mut p = CfsPartition::new(BlockDevice::new(vec![0u8; 4096 * 128]), 128).unwrap();
    assert_eq!(p.cfs.super_block.nblocks, 4096);
    assert_eq!(p.cfs.super_block.ninodes, 2);
    assert_eq!(p.cfs.super_block.bam_blocks, 4);
    assert_eq!(p.cfs.data_blocks_offset(), 128 * (1 + 4 + 1 + 1));
    p.setup_root_dir().unwrap();
    assert_eq!(listed(&p, 1), vec![pair(".", 1), pair("..", 1)]);
    assert!(!p.dir_has_room(1));
    assert_eq!(p.add_dir_to_inode(0, "x", 0, 0, 0), Err(Error::NoFreeInodes));
}

#[test]
fn info_gives_the_offsets_in_decimal() {
    let p = fresh();
    assert_eq!(
        p.info(),
        ("4096".to_string(), "8192".to_string(), "12288".to_string(), "16384".to_string())
    );
}

#[test]
fn write_cfs_rewrites_the_image() {
    let mut p = fresh();
    p.cfs.iam.set(5);
    let mut inode = p.cfs.inode_list.get(5);
    inode.size = 99;
    p.cfs.inode_list.set(5, inode);
    p.blk_dev.data[20000] = 0xab;
    assert_eq!(p.write_cfs(), Ok(()));
    let image = p.cfs.to_bytes();
    assert_eq!(&p.blk_dev.data[..image.len()], &image[..]);
    assert_eq!(p.blk_dev.data[20000], 0xab);
    assert_eq!(p.blk_dev.data[2 * B], 0b0010_0011);
}

#[test]
fn setup_root_dir_writes_two_entries_in_block_zero() {
    let p = ready();
    assert_eq!(p.cfs.inode_list.get(1).nchildren, 2);
    let at = p.cfs.data_blocks_offset() as usize;
    assert_eq!(&p.blk_dev.data[at..at + 64], &DirEntry::new(str_to_u8_60("."), 1).to_bytes()[..]);
    assert_eq!(
        &p.blk_dev.data[at + 64..at + 128],
        &DirEntry::new(str_to_u8_60(".."), 1).to_bytes()[..]
    );
    assert!(p.blk_dev.data[at + 128..at + B].iter().all(|b| *b == 0));
}

#[test]
fn listing_is_empty_before_setup() {
    let p = fresh();
    assert_eq!(listed(&p, 1), vec![]);
    assert_eq!(listed(&p, 0), vec![]);
}

#[test]
fn listing_keeps_the_order_of_addition() {
    let mut p = ready();
    for (i, name) in ["usr", "bin", "etc", "var", "tmp"].iter().enumerate() {
        p.add_dentry_to_inode(1, name, 10 + i).unwrap();
    }
    assert_eq!(
        listed(&p, 1),
        vec![
            pair(".", 1),
            pair("..", 1),
            pair("usr", 10),
            pair("bin", 11),
            pair("etc", 12),
            pair("var", 13),
            pair("tmp", 14)
        ]
    );
    assert_eq!(p.cfs.inode_list.get(1).nchildren, 7);
    assert_eq!(p.list_dentries_from_inode(1).unwrap().len(), 7);
}

#[test]
fn listing_allows_the_same_name_twice() {
    let mut p = ready();
    p.add_dentry_to_inode(1, "twin", 5).unwrap();
    p.add_dentry_to_inode(1, "twin", 6).unwrap();
    p.add_dentry_to_inode(1, "twin", 5).unwrap();
    assert_eq!(
        listed(&p, 1),
        vec![pair(".", 1), pair("..", 1), pair("twin", 5), pair("twin", 6), pair("twin", 5)]
    );
}

#[test]
fn listing_is_the_same_every_time() {
    let mut p = ready();
    p.add_dir_to_inode(1, "etc", 0, 0, 0).unwrap();
    let first = p.list_dentries_from_inode(1).unwrap();
    let second = p.list_dentries_from_inode(1).unwrap();
    assert_eq!(first, second);
    assert_eq!(first.len(), p.cfs.inode_list.get(1).nchildren as usize);
}

#[test]
fn add_dentry_writes_the_image_too() {
    let mut p = ready();
    p.add_dentry_to_inode(1, "x", 9).unwrap();
    let image = p.cfs.to_bytes();
    assert_eq!(&p.blk_dev.data[..image.len()], &image[..]);
    let (reread, _) = Cfs::from_bytes(&p.blk_dev.data).unwrap();
    assert_eq!(reread.inode_list.get(1).nchildren, 3);
}

#[test]
fn a_name_of_sixty_bytes_is_accepted() {
    let mut p = ready();
    let name = "n".repeat(60);
    assert_eq!(p.add_dentry_to_inode(1, &name, 4), Ok(()));
    assert_eq!(listed(&p, 1)[2], pair(&name, 4));
}

#[test]
fn a_name_of_sixty_one_bytes_is_too_long() {
    let mut p = ready();
    let before = p.clone();
    let name = "n".repeat(61);
    assert_eq!(p.add_dentry_to_inode(1, &name, 4), Err(Error::NameTooLong));
    assert_eq!(p.add_dir_to_inode(1, &name, 0, 0, 0), Err(Error::NameTooLong));
    assert_eq!(p.add_file_to_inode(1, &name, &file(vec![1, 2, 3])), Err(Error::NameTooLong));
    assert_eq!(p.blk_dev.data, before.blk_dev.data);
    assert_eq!(p.cfs.iam.data, before.cfs.iam.data);
    assert_eq!(p.cfs.bam.data, before.cfs.bam.data);
    assert_eq!(p.cfs.inode_list.inodes, before.cfs.inode_list.inodes);
}

#[test]
fn a_directory_block_holds_sixty_four_entries() {
    let mut p = fresh();
    for i in 0..64 {
        assert!(p.dir_has_room(1));
        p.add_dentry_to_inode(1, "e", i).unwrap();
    }
    assert!(!p.dir_has_room(1));
    let entries = p.list_dentries_from_inode(1).unwrap();
    assert_eq!(entries.len(), 64);
    assert_eq!(entries[63].inode, 63);
}

#[test]
fn listing_stops_at_the_end_of_the_block() {
    let mut p = ready();
    let mut root = p.cfs.inode_list.get(1);
    root.nchildren = 1000;
    p.cfs.inode_list.set(1, root);
    assert_eq!(p.list_dentries_from_inode(1).unwrap().len(), 64);
}

#[test]
fn mkdir_builds_the_inode_of_a_directory() {
    let mut p = ready();
    p.add_dir_to_inode(1, "etc", 1234, 56, 1_700_000_000).unwrap();
    let inode = p.cfs.inode_list.get(2);
    assert_eq!(inode.mode, 0o755);
    assert_eq!(inode.nchildren, 0);
    assert_eq!(inode.uid, 1234);
    assert_eq!(inode.gid, 56);
    assert_eq!(inode.size, 0);
    let now = 1_700_000_000;
    assert_eq!((inode.atime, inode.mtime, inode.ctime), (now, now, now));
    assert_eq!(inode.blkaddr, [1, 0, 0, 0, 0, 0, 0, 0, 0, 0]);
    assert!(p.cfs.bam.get(1));
    assert!(!p.cfs.bam.get(2));
    assert_eq!(listed(&p, 1), vec![pair(".", 1), pair("..", 1), pair("etc", 2)]);
    assert_eq!(listed(&p, 2), vec![]);
}

#[test]
fn directories_nest() {
    let mut p = ready();
    p.add_dir_to_inode(1, "usr", 0, 0, 0).unwrap();
    p.add_dir_to_inode(2, "lib", 0, 0, 0).unwrap();
    p.add_dir_to_inode(3, "rust", 0, 0, 0).unwrap();
    p.add_dir_to_inode(1, "var", 0, 0, 0).unwrap();
    assert_eq!(listed(&p, 1), vec![pair(".", 1), pair("..", 1), pair("usr", 2), pair("var", 5)]);
    assert_eq!(listed(&p, 2), vec![pair("lib", 3)]);
    assert_eq!(listed(&p, 3), vec![pair("rust", 4)]);
    assert_eq!(listed(&p, 4), vec![]);
}

#[test]
fn additions_take_one_inode_each_and_the_blocks_they_use() {
    let mut p = ready();
    assert_eq!(popcount(&p.cfs.iam.data), 2);
    assert_eq!(popcount(&p.cfs.bam.data), 1);
    p.add_dir_to_inode(1, "a", 0, 0, 0).unwrap();
    assert_eq!(popcount(&p.cfs.iam.data), 3);
    assert_eq!(popcount(&p.cfs.bam.data), 2);
    p.add_file_to_inode(1, "empty", &file(Vec::new())).unwrap();
    assert_eq!(popcount(&p.cfs.iam.data), 4);
    assert_eq!(popcount(&p.cfs.bam.data), 3);
    p.add_file_to_inode(2, "small", &file(pattern(13))).unwrap();
    assert_eq!(popcount(&p.cfs.iam.data), 5);
    assert_eq!(popcount(&p.cfs.bam.data), 5);
    p.add_file_to_inode(2, "exact", &file(pattern(2 * B))).unwrap();
    assert_eq!(popcount(&p.cfs.iam.data), 6);
    assert_eq!(popcount(&p.cfs.bam.data), 8);
    p.add_file_to_inode(1, "ragged", &file(pattern(2 * B + 1))).unwrap();
    assert_eq!(popcount(&p.cfs.iam.data), 7);
    assert_eq!(popcount(&p.cfs.bam.data), 12);
    p.add_dir_to_inode(2, "b", 0, 0, 0).unwrap();
    assert_eq!(popcount(&p.cfs.iam.data), 2 + 6);
    assert_eq!(popcount(&p.cfs.bam.data), 1 + 1 + 1 + 2 + 3 + 4 + 1);
}

#[test]
fn add_file_builds_the_inode_of_a_file() {
    let mut p = ready();
    let src = FileSource {
        mode: 0o100600,
        uid: 7,
        gid: 8,
        atime: 100,
        mtime: 200,
        ctime: 300,
        data: pattern(B + 5),
    };
    p.add_file_to_inode(1, "notes", &src).unwrap();
    let inode = p.cfs.inode_list.get(2);
    assert_eq!(inode.mode, 0o100600);
    assert_eq!(inode.nchildren, 0);
    assert_eq!((inode.uid, inode.gid), (7, 8));
    assert_eq!(inode.size, (B + 5) as u32);
    assert_eq!((inode.atime, inode.mtime, inode.ctime), (100, 200, 300));
    assert_eq!(inode.blkaddr, [1, 2, 3, 0, 0, 0, 0, 0, 0, 0]);
    assert_eq!(listed(&p, 1), vec![pair(".", 1), pair("..", 1), pair("notes", 2)]);
}

#[test]
fn add_file_writes_the_contents_after_the_first_block() {
    let mut p = ready();
    let data = pattern(B + 5);
    p.add_file_to_inode(1, "notes", &file(data.clone())).unwrap();
    let base = p.cfs.data_blocks_offset() as usize;
    assert_eq!(&p.blk_dev.data[base + 2 * B..base + 3 * B], &data[..B]);
    assert_eq!(&p.blk_dev.data[base + 3 * B..base + 3 * B + 5], &data[B..]);
    assert!(p.blk_dev.data[base + 3 * B + 5..base + 4 * B].iter().all(|b| *b == 0));
    assert!(p.blk_dev.data[base + B..base + 2 * B].iter().all(|b| *b == 0));
}

#[test]
fn files_of_every_size_up_to_nine_blocks_read_back() {
    for len in [0, 1, 13, B - 1, B, B + 1, 3 * B, 5 * B + 77, 9 * B - 1, 9 * B] {
        let mut p = ready();
        p.add_dir_to_inode(1, "d", 0, 0, 0).unwrap();
        let data = pattern(len);
        p.add_file_to_inode(2, "f", &file(data.clone())).unwrap();
        let read = p.get_data_from_inode(3).unwrap();
        assert_eq!(read.len(), (len + B - 1) / B * B);
        assert_eq!(&read[..len], &data[..]);
        assert!(read[len..].iter().all(|b| *b == 0));
    }
}

#[test]
fn several_files_keep_their_own_contents() {
    let mut p = ready();
    let one = pattern(B + 1);
    let two: Vec<u8> = pattern(3 * B).iter().map(|b| b ^ 0xff).collect();
    let three = vec![0x42; 10];
    p.add_file_to_inode(1, "one", &file(one.clone())).unwrap();
    p.add_file_to_inode(1, "two", &file(two.clone())).unwrap();
    p.add_dir_to_inode(1, "dir", 0, 0, 0).unwrap();
    p.add_file_to_inode(4, "three", &file(three.clone())).unwrap();
    assert_eq!(&p.get_data_from_inode(2).unwrap()[..one.len()], &one[..]);
    assert_eq!(&p.get_data_from_inode(3).unwrap()[..two.len()], &two[..]);
    assert_eq!(&p.get_data_from_inode(5).unwrap()[..three.len()], &three[..]);
    assert_eq!(p.get_data_from_inode(4).unwrap(), Vec::<u8>::new());
}

#[test]
fn a_file_of_more_than_nine_blocks_is_too_large() {
    let mut p = ready();
    let before = p.clone();
    assert_eq!(
        p.add_file_to_inode(1, "big", &file(vec![1u8; 9 * B + 1])),
        Err(Error::FileTooLarge)
    );
    assert_eq!(p.blk_dev.data, before.blk_dev.data);
    assert_eq!(p.cfs.iam.data, before.cfs.iam.data);
    assert_eq!(p.cfs.bam.data, before.cfs.bam.data);
}

#[test]
fn reading_an_inode_that_claims_more_than_nine_blocks_fails() {
    let mut p = ready();
    let mut inode = p.cfs.inode_list.get(2);
    inode.size = (9 * B + 1) as u32;
    p.cfs.inode_list.set(2, inode);
    assert_eq!(p.get_data_from_inode(2), Err(Error::FileTooLarge));
    inode.size = u32::MAX;
    p.cfs.inode_list.set(2, inode);
    assert_eq!(p.get_data_from_inode(2), Err(Error::FileTooLarge));
}

#[test]
fn mkdir_without_a_free_block_keeps_the_inode_it_took() {
    let mut p = ready();
    let nblocks = p.cfs.super_block.nblocks as usize;
    for b in 0..nblocks {
        p.cfs.bam.set(b);
    }
    let bam = p.cfs.bam.data.clone();
    assert_eq!(p.add_dir_to_inode(1, "etc", 0, 0, 0), Err(Error::NoFreeBlocks));
    assert!(p.cfs.iam.get(2));
    assert_eq!(p.cfs.bam.data, bam);
    assert_eq!(listed(&p, 1), vec![pair(".", 1), pair("..", 1)]);
}

#[test]
fn add_file_without_enough_free_blocks_keeps_what_it_took() {
    let mut p = ready();
    let nblocks = p.cfs.super_block.nblocks as usize;
    for b in 0..nblocks - 2 {
        p.cfs.bam.set(b);
    }
    assert_eq!(
        p.add_file_to_inode(1, "f", &file(pattern(2 * B))),
        Err(Error::NoFreeBlocks)
    );
    assert!(p.cfs.iam.get(2));
    assert!(p.cfs.bam.get(nblocks - 2));
    assert!(p.cfs.bam.get(nblocks - 1));
    assert_eq!(p.cfs.inode_list.get(2), Inode::default());
    assert_eq!(listed(&p, 1), vec![pair(".", 1), pair("..", 1)]);
}

#[test]
fn blocks_past_the_last_data_block_are_never_taken() {
    let mut p = ready();
    let nblocks = p.cfs.super_block.nblocks as usize;
    assert!(p.cfs.bam.data.len() * 8 > nblocks);
    for b in 0..nblocks {
        p.cfs.bam.set(b);
    }
    assert_eq!(p.cfs.alloc_block(), None);
    p.cfs.bam.clear(nblocks - 1);
    assert_eq!(p.cfs.alloc_block(), Some(nblocks as u32 - 1));
    assert_eq!(p.cfs.alloc_blocks(3), Vec::<u32>::new());
}

#[test]
fn inodes_past_the_end_of_the_table_are_never_taken() {
    let mut p = ready();
    let ninodes = p.cfs.super_block.ninodes as usize;
    assert!(p.cfs.iam.data.len() * 8 > ninodes);
    for i in 0..ninodes - 1 {
        p.cfs.iam.set(i);
    }
    assert_eq!(p.cfs.alloc_inode(), Some(ninodes - 1));
    assert_eq!(p.cfs.alloc_inode(), None);
    assert_eq!(p.add_file_to_inode(1, "f", &file(vec![1])), Err(Error::NoFreeInodes));
}

#[test]
fn allocation_takes_the_smallest_free_index() {
    let mut p = ready();
    assert_eq!(p.cfs.alloc_blocks(4), vec![1, 2, 3, 4]);
    p.cfs.bam.clear(2);
    assert_eq!(p.cfs.alloc_block(), Some(2));
    assert_eq!(p.cfs.alloc_blocks(0), Vec::<u32>::new());
    assert_eq!(p.cfs.alloc_inode(), Some(2));
    p.cfs.iam.clear(0);
    assert_eq!(p.cfs.alloc_inode(), Some(0));
    assert_eq!(p.cfs.alloc_inode(), Some(3));
}

#[test]
fn a_directory_whose_block_lies_past_the_device_cannot_be_read() {
    let mut p = ready();
    for b in 0..4092 {
        p.cfs.bam.set(b);
    }
    p.add_dir_to_inode(1, "far", 0, 0, 0).unwrap();
    assert_eq!(p.cfs.inode_list.get(2).blkaddr[0], 4092);
    assert_eq!(p.list_dentries_from_inode(2).err(), Some(Error::IoError));
    let before = p.clone();
    assert_eq!(p.add_dentry_to_inode(2, "x", 3), Err(Error::IoError));
    assert_eq!(p.remove_dir_from_inode(2, 3), Err(Error::IoError));
    assert_eq!(p.blk_dev.data, before.blk_dev.data);
    assert_eq!(p.cfs.inode_list.inodes, before.cfs.inode_list.inodes);
    assert_eq!(p.add_dir_to_inode(2, "y", 0, 0, 0), Err(Error::IoError));
    assert!(p.cfs.iam.get(3));
}

#[test]
fn a_file_written_past_the_end_makes_the_device_longer() {
    let mut p = ready();
    for b in 0..4091 {
        p.cfs.bam.set(b);
    }
    let data = pattern(2 * B);
    p.add_file_to_inode(1, "far", &file(data.clone())).unwrap();
    assert_eq!(p.cfs.inode_list.get(2).blkaddr[..3], [4091, 4092, 4093]);
    assert_eq!(p.blk_dev.data.len(), 16384 + 4094 * B);
    assert_eq!(&p.get_data_from_inode(2).unwrap()[..], &data[..]);
}

#[test]
fn a_file_whose_block_lies_past_the_device_cannot_be_read() {
    let mut p = ready();
    let mut inode = p.cfs.inode_list.get(2);
    inode.size = 10;
    inode.blkaddr[1] = 4092;
    p.cfs.inode_list.set(2, inode);
    assert_eq!(p.get_data_from_inode(2), Err(Error::IoError));
    inode.blkaddr[1] = u32::MAX;
    p.cfs.inode_list.set(2, inode);
    assert_eq!(p.get_data_from_inode(2), Err(Error::IoError));
    inode.blkaddr[1] = 4091;
    p.cfs.inode_list.set(2, inode);
    assert_eq!(p.get_data_from_inode(2).unwrap().len(), B);
}

#[test]
fn remove_inode_frees_the_inode_and_every_block_it_holds() {
    let mut p = ready();
    p.add_file_to_inode(1, "f", &file(pattern(2 * B + 1))).unwrap();
    assert_eq!(popcount(&p.cfs.bam.data), 5);
    assert_eq!(p.remove_inode(2), Ok(()));
    assert!(!p.cfs.iam.get(2));
    assert_eq!(p.cfs.inode_list.get(2), Inode::default());
    assert_eq!(popcount(&p.cfs.bam.data), 1);
    assert_eq!(popcount(&p.cfs.iam.data), 2);
    assert!(p.cfs.bam.get(0));
    let image = p.cfs.to_bytes();
    assert_eq!(&p.blk_dev.data[..image.len()], &image[..]);
}

#[test]
fn remove_inode_passes_over_addresses_that_name_no_block() {
    let mut p = ready();
    let mut inode = Inode::default();
    inode.size = u32::MAX;
    inode.blkaddr = [5, u32::MAX, 4096, 6, 0, 0, 0, 0, 0, 7];
    p.cfs.inode_list.set(3, inode);
    for b in [5, 6, 7] {
        p.cfs.bam.set(b);
    }
    p.cfs.iam.set(3);
    assert_eq!(p.remove_inode(3), Ok(()));
    assert_eq!(popcount(&p.cfs.bam.data), 0);
    assert!(!p.cfs.iam.get(3));
}

#[test]
fn rmdir_drops_the_entry_and_moves_the_others_up() {
    let mut p = ready();
    p.add_dir_to_inode(1, "a", 0, 0, 0).unwrap();
    p.add_dir_to_inode(1, "b", 0, 0, 0).unwrap();
    p.add_dir_to_inode(1, "c", 0, 0, 0).unwrap();
    assert_eq!(p.remove_dir_from_inode(1, 3), Ok(()));
    assert_eq!(listed(&p, 1), vec![pair(".", 1), pair("..", 1), pair("a", 2), pair("c", 4)]);
    assert_eq!(p.cfs.inode_list.get(1).nchildren, 4);
    assert!(p.cfs.iam.get(2));
    assert!(!p.cfs.iam.get(3));
    assert!(p.cfs.iam.get(4));
    assert!(!p.cfs.bam.get(2));
    let at = p.cfs.data_blocks_offset() as usize;
    assert!(p.blk_dev.data[at + 4 * 64..at + B].iter().all(|b| *b == 0));
}

#[test]
fn rmdir_then_mkdir_takes_the_freed_inode_and_block() {
    let mut p = ready();
    p.add_dir_to_inode(1, "a", 0, 0, 0).unwrap();
    p.add_dir_to_inode(1, "b", 0, 0, 0).unwrap();
    p.remove_dir_from_inode(1, 2).unwrap();
    p.add_dir_to_inode(1, "c", 0, 0, 0).unwrap();
    assert_eq!(listed(&p, 1), vec![pair(".", 1), pair("..", 1), pair("b", 3), pair("c", 2)]);
    assert_eq!(p.cfs.inode_list.get(2).blkaddr[0], 1);
}

#[test]
fn rmdir_of_an_inode_that_is_not_listed_only_removes_the_inode() {
    let mut p = ready();
    p.add_dir_to_inode(1, "a", 0, 0, 0).unwrap();
    p.add_dir_to_inode(2, "inner", 0, 0, 0).unwrap();
    assert_eq!(p.remove_dir_from_inode(1, 3), Ok(()));
    assert_eq!(listed(&p, 1), vec![pair(".", 1), pair("..", 1), pair("a", 2)]);
    assert!(!p.cfs.iam.get(3));
    assert_eq!(listed(&p, 2), vec![pair("inner", 3)]);
}

#[test]
fn rmdir_drops_every_entry_that_names_the_inode() {
    let mut p = ready();
    p.add_dir_to_inode(1, "a", 0, 0, 0).unwrap();
    p.add_dentry_to_inode(1, "alias", 2).unwrap();
    p.add_dir_to_inode(1, "b", 0, 0, 0).unwrap();
    p.remove_dir_from_inode(1, 2).unwrap();
    assert_eq!(listed(&p, 1), vec![pair(".", 1), pair("..", 1), pair("b", 3)]);
    assert_eq!(p.cfs.inode_list.get(1).nchildren, 3);
}

#[test]
fn an_image_opens_again_from_the_device() {
    let mut p = ready();
    p.add_dir_to_inode(1, "etc", 3, 4, 5).unwrap();
    p.add_file_to_inode(2, "hosts", &file(pattern(100))).unwrap();
    let bytes = p.blk_dev.clone().into_bytes();
    let q = CfsPartition::try_from(BlockDevice::new(bytes)).unwrap();
    assert!(q.is_wf());
    assert_eq!(q.cfs.super_block, p.cfs.super_block);
    assert_eq!(q.cfs.bam.data, p.cfs.bam.data);
    assert_eq!(q.cfs.iam.data, p.cfs.iam.data);
    assert_eq!(q.cfs.inode_list.inodes, p.cfs.inode_list.inodes);
    assert_eq!(q.blk_dev.data, p.blk_dev.data);
    assert_eq!(listed(&q, 1), vec![pair(".", 1), pair("..", 1), pair("etc", 2)]);
    assert_eq!(listed(&q, 2), vec![pair("hosts", 3)]);
    assert_eq!(&q.get_data_from_inode(3).unwrap()[..100], &pattern(100)[..]);
}

#[test]
fn opening_fails_without_the_magic_number() {
    let r = CfsPartition::try_from(BlockDevice::new(vec![0u8; 16 * MIB]));
    assert_eq!(r.err(), Some(Error::BadMagic));
    let mut p = fresh();
    p.blk_dev.data[1] ^= 0x10;
    let r = CfsPartition::try_from(p.blk_dev.clone());
    assert_eq!(r.err(), Some(Error::BadMagic));
}

#[test]
fn opening_fails_on_a_device_shorter_than_its_image() {
    let p = fresh();
    let image_len = p.cfs.to_bytes().len();
    let mut bytes = p.blk_dev.data.clone();
    bytes.truncate(image_len - 1);
    assert_eq!(CfsPartition::try_from(BlockDevice::new(bytes)).err(), Some(Error::ShortBuffer));
    assert_eq!(
        CfsPartition::try_from(BlockDevice::new(vec![0x0C, 0xB1, 0xF5])).err(),
        Some(Error::ShortBuffer)
    );
    let mut exact = p.blk_dev.data.clone();
    exact.truncate(image_len);
    assert!(CfsPartition::try_from(BlockDevice::new(exact)).is_ok());
}

#[test]
fn device_reads_fail_past_the_end() {
    let dev = BlockDevice::new(vec![1, 2, 3, 4, 5]);
    assert_eq!(dev.len(), 5);
    assert_eq!(dev.read_exact_at(1, 3), Ok(vec![2, 3, 4]));
    assert_eq!(dev.read_exact_at(0, 5), Ok(vec![1, 2, 3, 4, 5]));
    assert_eq!(dev.read_exact_at(5, 0), Ok(vec![]));
    assert_eq!(dev.read_exact_at(3, 3), Err(Error::IoError));
    assert_eq!(dev.read_exact_at(6, 0), Err(Error::IoError));
    assert_eq!(dev.read_exact_at(u64::MAX, 1), Err(Error::IoError));
}

#[test]
fn device_writes_fill_gaps_with_zeros() {
    let mut dev = BlockDevice::new(vec![1, 2, 3]);
    dev.write_all_at(1, &[9, 9]);
    assert_eq!(dev.data, vec![1, 9, 9]);
    dev.write_all_at(2, &[7, 7, 7]);
    assert_eq!(dev.data, vec![1, 9, 7, 7, 7]);
    dev.write_all_at(7, &[5]);
    assert_eq!(dev.data, vec![1, 9, 7, 7, 7, 0, 0, 5]);
    dev.write_all_at(20, &[]);
    assert_eq!(dev.data.len(), 8);
    dev.write_all_at(3, &[]);
    assert_eq!(dev.into_bytes(), vec![1, 9, 7, 7, 7, 0, 0, 5]);
}
