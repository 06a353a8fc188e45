use cfs::bitmap::{Bam, Iam};
use cfs::image::Cfs;
use cfs::inode::{Inode, InodeList, BAD_INODE, INODE_SIZE, ROOT_INODE};
use cfs::partition::CfsPartition;
use cfs::superblock::SuperBlock;
use cfs::utils::{bits_per_block, bytes_to_u8_60, str_to_u8_60};
use cfs::{DEFAULT_BLOCK_SIZE, MAGIC, RESERVED_BLOCKS};

const MIB: u64 = 1024 * 1024;

fn image_for(device_len: u64, block_size: u64) -> Cfs {
    let sb = SuperBlock::for_device(device_len, block_size).unwrap();
    let b = sb.blocksize as usize;
    Cfs::new(
        sb,
        Bam::new(sb.bam_blocks as usize * b),
        Iam::new(sb.iam_blocks as usize * b),
        InodeList::new(sb.ninodes.max(2) as usize),
    )
}

#[test]
fn constants() {
    assert_eq!(MAGIC, 0x0CF5B10C);
    assert_eq!(DEFAULT_BLOCK_SIZE, 4096);
    assert_eq!(RESERVED_BLOCKS, 1);
    assert_eq!(BAD_INODE, 0);
    assert_eq!(ROOT_INODE, 1);
    assert_eq!(INODE_SIZE, 64);
}

#[test]
fn bits_per_block_is_eight_per_byte() {
    assert_eq!(bits_per_block(4096), 32768);
    assert_eq!(bits_per_block(1), 8);
    assert_eq!(bits_per_block(0), 0);
    assert_eq!(cfs::bits_per_block(512), 4096);
}

#[test]
fn inodes_per_block_divides_by_the_inode_size() {
    let inode = Inode::default();
    assert_eq!(inode.inodes_per_block(4096), 64);
    assert_eq!(inode.inodes_per_block(64), 1);
    assert_eq!(inode.inodes_per_block(63), 0);
    assert_eq!(inode.inodes_per_block(200), 3);
}

#[test]
fn name_field_pads_with_zeros() {
    let field = str_to_u8_60("etc");
    assert_eq!(&field[..3], b"etc");
    assert!(field[3..].iter().all(|b| *b == 0));
    assert_eq!(str_to_u8_60(""), [0u8; 60]);
    assert_eq!(cfs::str_to_u8_60("."), str_to_u8_60("."));
}

#[test]
fn name_field_keeps_sixty_bytes() {
    let exact = "x".repeat(60);
    assert_eq!(str_to_u8_60(&exact), [b'x'; 60]);
    let long = "y".repeat(75);
    assert_eq!(str_to_u8_60(&long), [b'y'; 60]);
}

#[test]
fn name_field_from_bytes() {
    assert_eq!(bytes_to_u8_60(b"etc"), str_to_u8_60("etc"));
    assert_eq!(bytes_to_u8_60(&[]), [0u8; 60]);
    assert_eq!(bytes_to_u8_60(&[0xff; 61]), [0xff; 60]);
    let mut expected = [0u8; 60];
    expected[..4].copy_from_slice(&[1, 0, 2, 0]);
    assert_eq!(bytes_to_u8_60(&[1, 0, 2, 0]), expected);
}

#[test]
fn name_field_holds_utf8_bytes() {
    let field = str_to_u8_60("é");
    assert_eq!(&field[..2], &[0xc3, 0xa9]);
    assert_eq!(field[2], 0);
}

#[test]
fn geometry_of_sixteen_mebibytes() {
    let sb = SuperBlock::for_device(16 * MIB, 4096).unwrap();
    assert_eq!(sb.magic, MAGIC);
    assert_eq!(sb.blocksize, 4096);
    assert_eq!(sb.nblocks, 4096);
    assert_eq!(sb.bam_blocks, 1);
    assert_eq!(sb.ninodes, 64);
    assert_eq!(sb.iam_blocks, 1);
    assert_eq!(sb.inode_blocks, 1);
}

#[test]
fn geometry_of_a_gibibyte() {
    let sb = SuperBlock::for_device(1024 * MIB, 4096).unwrap();
    assert_eq!(sb.nblocks, 262144);
    assert_eq!(sb.bam_blocks, 8);
    assert_eq!(sb.ninodes, 64 * 64);
    assert_eq!(sb.iam_blocks, 1);
    assert_eq!(sb.inode_blocks, 64);
}

#[test]
fn geometry_rounds_block_counts_up() {
    let sb = SuperBlock::for_device(4097 * 512 * 9, 512).unwrap();
    assert_eq!(sb.nblocks, 4097 * 9);
    assert_eq!(sb.bam_blocks, 10);
    assert_eq!(sb.ninodes, 9 * 8);
    assert_eq!(sb.iam_blocks, 1);
    assert_eq!(sb.inode_blocks, 9);
    let odd = SuperBlock::for_device(4096 * 100, 100).unwrap();
    assert_eq!(odd.nblocks, 4096);
    assert_eq!(odd.bam_blocks, 6);
    assert_eq!(odd.ninodes, 1);
    assert_eq!(odd.iam_blocks, 1);
    assert_eq!(odd.inode_blocks, 1);
}

#[test]
fn geometry_ignores_a_trailing_partial_block() {
    let whole = SuperBlock::for_device(16 * MIB, 4096).unwrap();
    let ragged = SuperBlock::for_device(16 * MIB + 4095, 4096).unwrap();
    assert_eq!(whole, ragged);
    let next = SuperBlock::for_device(16 * MIB + 4096, 4096).unwrap();
    assert_eq!(next.nblocks, 4097);
}

#[test]
fn geometry_of_a_small_device_has_no_inodes() {
    let sb = SuperBlock::for_device(4 * MIB, 4096).unwrap();
    assert_eq!(sb.nblocks, 1024);
    assert_eq!(sb.bam_blocks, 1);
    assert_eq!(sb.ninodes, 0);
    assert_eq!(sb.iam_blocks, 0);
    assert_eq!(sb.inode_blocks, 0);
    let empty = SuperBlock::for_device(0, 4096).unwrap();
    assert_eq!(empty.nblocks, 0);
    assert_eq!(empty.bam_blocks, 0);
}

#[test]
fn geometry_needs_a_block_that_holds_the_superblock() {
    assert_eq!(SuperBlock::for_device(16 * MIB, 0), None);
    assert_eq!(SuperBlock::for_device(16 * MIB, 27), None);
    assert!(SuperBlock::for_device(16 * MIB, 28).is_some());
    assert_eq!(SuperBlock::for_device(16 * MIB, 1 << 32), None);
    assert!(SuperBlock::for_device(16 * MIB, (1 << 32) - 1).is_some());
}

#[test]
fn geometry_needs_counts_that_fit_in_thirty_two_bits() {
    assert_eq!(SuperBlock::for_device(u64::MAX, 4096), None);
    assert_eq!(SuperBlock::for_device((1u64 << 32) * 64, 64), None);
    assert!(SuperBlock::for_device(((1u64 << 32) - 1) * 64, 64).is_some());
}

#[test]
fn region_offsets_follow_one_another() {
    let image = image_for(16 * MIB, 4096);
    assert_eq!(image.super_block_offset(), 0);
    assert_eq!(image.bam_offset(), 4096);
    assert_eq!(image.iam_offset(), 8192);
    assert_eq!(image.inode_list_offset(), 12288);
    assert_eq!(image.data_blocks_offset(), 16384);
    let large = image_for(1024 * MIB, 4096);
    assert_eq!(large.bam_offset(), 4096);
    assert_eq!(large.iam_offset(), 4096 * 9);
    assert_eq!(large.inode_list_offset(), 4096 * 10);
    assert_eq!(large.data_blocks_offset(), 4096 * 74);
}

#[test]
fn formattable_devices() {
    assert!(CfsPartition::can_format(16 * MIB, 4096));
    assert!(CfsPartition::can_format(4 * MIB, 4096));
    assert!(CfsPartition::can_format(0, 4096));
    assert!(!CfsPartition::can_format(16 * MIB, 27));
    assert!(!CfsPartition::can_format(16 * MIB, 0));
    assert!(!CfsPartition::can_format(u64::MAX, 4096));
}

#[test]
fn well_formed_images() {
    let image = image_for(16 * MIB, 4096);
    assert!(image.is_wf());
    let mut short_map = image_for(16 * MIB, 4096);
    short_map.bam.data.pop();
    assert!(!short_map.is_wf());
    let mut short_table = image_for(16 * MIB, 4096);
    short_table.inode_list.inodes.pop();
    assert!(!short_table.is_wf());
    let mut cramped = image_for(16 * MIB, 4096);
    cramped.super_block.inode_blocks = 0;
    assert!(!cramped.is_wf());
    let mut uncovered = image_for(16 * MIB, 4096);
    uncovered.super_block.nblocks = 4096 * 8 + 1;
    assert!(!uncovered.is_wf());
    let mut tiny_block = image_for(16 * MIB, 4096);
    tiny_block.super_block.blocksize = 27;
    assert!(!tiny_block.is_wf());
}
