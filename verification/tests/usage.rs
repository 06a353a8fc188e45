use cfs::bitmap::Bitmap;
use cfs::device::BlockDevice;
use cfs::error::Error;
use cfs::partition::{CfsPartition, FileSource};
use cfs::superblock::SuperBlock;
use cfs::utils::str_to_u8_60;
use cfs::MAGIC;

const MIB: usize = 1024 * 1024;

fn formatted(len: usize, block_size: u64) -> CfsPartition {
    assert!(CfsPartition::can_format(len as u64, block_size));
    CfsPartition::new(BlockDevice::new(vec![0u8; len]), block_size).unwrap()
}

fn names(p: &CfsPartition, dir: usize) -> Vec<([u8; 60], u32)> {
    p.list_dentries_from_inode(dir)
        .unwrap()
        .iter()
        .map(|e| (e.name, e.inode))
        .collect()
}

#[test]
fn superblock_of_a_four_mebibyte_device() {
    let sb = SuperBlock::for_device(4 * MIB as u64, 4096).unwrap();
    assert_eq!(sb.magic, 0x0CF5B10C);
    assert_eq!(sb.magic, MAGIC);
    assert_eq!(sb.blocksize, 4096);
    assert_eq!(sb.nblocks, 1024);
}

#[test]
fn root_lists_dot_and_dot_dot_after_setup() {
    let mut p = formatted(16 * MIB, 4096);
    p.setup_root_dir().unwrap();
    assert_eq!(
        names(&p, 1),
        vec![(str_to_u8_60("."), 1), (str_to_u8_60(".."), 1)]
    );
}

#[test]
fn mkdir_takes_the_next_inode() {
    let mut p = formatted(16 * MIB, 4096);
    p.add_dir_to_inode(1, "etc", 7, 7, 1_700_000_000).unwrap();
    assert!(names(&p, 1).contains(&(str_to_u8_60("etc"), 2)));
    assert!(p.cfs.iam.get(0));
    assert!(p.cfs.iam.get(1));
    assert!(p.cfs.iam.get(2));
    assert!(!p.cfs.iam.get(3));
}

#[test]
fn file_contents_read_back() {
    let mut p = formatted(16 * MIB, 4096);
    p.add_dir_to_inode(1, "etc", 0, 0, 0).unwrap();
    let contents = b"127.0.0.1 a\n".to_vec();
    let src = FileSource {
        mode: 0o644,
        uid: 1,
        gid: 2,
        atime: 3,
        mtime: 4,
        ctime: 5,
        data: contents.clone(),
    };
    p.add_file_to_inode(2, "hosts", &src).unwrap();
    let read = p.get_data_from_inode(3).unwrap();
    assert_eq!(&read[..contents.len()], &contents[..]);
    assert_eq!(&read[..13], b"127.0.0.1 a\n\0");
    assert_eq!(read.len(), 4096);
}

#[test]
fn rmdir_frees_the_inode_and_its_block() {
    let mut p = formatted(16 * MIB, 4096);
    p.add_dir_to_inode(1, "etc", 0, 0, 0).unwrap();
    let block = p.cfs.inode_list.get(2).blkaddr[0] as usize;
    assert!(p.cfs.bam.get(block));
    p.remove_dir_from_inode(1, 2).unwrap();
    assert!(!names(&p, 1).contains(&(str_to_u8_60("etc"), 2)));
    assert!(!p.cfs.iam.get(2));
    assert!(!p.cfs.bam.get(block));
}

#[test]
fn mkdir_fails_when_every_inode_is_taken() {
    let mut p = formatted(16 * MIB, 4096);
    let ninodes = p.cfs.super_block.ninodes as usize;
    for i in 0..ninodes {
        p.cfs.iam.set(i);
    }
    let iam = p.cfs.iam.data.clone();
    let bam = p.cfs.bam.data.clone();
    assert_eq!(
        p.add_dir_to_inode(1, "etc", 0, 0, 0),
        Err(Error::NoFreeInodes)
    );
    assert_eq!(p.cfs.iam.data, iam);
    assert_eq!(p.cfs.bam.data, bam);
}
