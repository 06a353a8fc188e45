use cfs::bitmap::{Bam, Iam};
use cfs::codec::{copy_range, get_u16, get_u32, put_bytes, put_u16, put_u32, put_zeros};
use cfs::dir_entry::DirEntry;
use cfs::error::Error;
use cfs::image::Cfs;
use cfs::inode::{Inode, InodeList};
use cfs::superblock::SuperBlock;
use cfs::utils::str_to_u8_60;
use cfs::MAGIC;

fn sample_inode() -> Inode {
    Inode::new(
        0x8123,
        0x0102,
        0x0304,
        0x0506,
        0x0708090a,
        0x0b0c0d0e,
        0x0f101112,
        0x13141516,
        [1, 2, 3, 4, 5, 6, 7, 8, 9, 0xdeadbeef],
    )
}

fn sample_image() -> Cfs {
    let sb = SuperBlock::new(MAGIC, 64, 1, 2, 3, 40, 3);
    let mut bam = Bam::new(64);
    bam.data[0] = 0xa5;
    bam.data[63] = 0x5a;
    let mut iam = Iam::new(128);
    iam.data[7] = 0xff;
    let mut inode_list = InodeList::new(3);
    inode_list.set(2, sample_inode());
    Cfs::new(sb, bam, iam, inode_list)
}

#[test]
fn scalars_are_little_endian() {
    let mut out = Vec::new();
    put_u32(&mut out, 0x0CF5B10C);
    put_u16(&mut out, 0xBEEF);
    assert_eq!(out, vec![0x0C, 0xB1, 0xF5, 0x0C, 0xEF, 0xBE]);
    assert_eq!(get_u32(&out, 0), 0x0CF5B10C);
    assert_eq!(get_u16(&out, 4), 0xBEEF);
    assert_eq!(get_u16(&out, 1), 0xF5B1);
}

#[test]
fn scalars_round_trip_at_the_limits() {
    for x in [0u32, 1, 255, 256, 65535, 65536, 0x00ff_ffff, 0x0100_0000, u32::MAX] {
        let mut out = vec![9u8];
        put_u32(&mut out, x);
        assert_eq!(out.len(), 5);
        assert_eq!(get_u32(&out, 1), x);
    }
    for x in [0u16, 1, 255, 256, u16::MAX] {
        let mut out = Vec::new();
        put_u16(&mut out, x);
        assert_eq!(out.len(), 2);
        assert_eq!(get_u16(&out, 0), x);
    }
}

#[test]
fn byte_helpers_append_and_copy() {
    let mut out = vec![1u8, 2];
    put_bytes(&mut out, &[3, 4, 5]);
    put_zeros(&mut out, 2);
    assert_eq!(out, vec![1, 2, 3, 4, 5, 0, 0]);
    assert_eq!(copy_range(&out, 1, 4), vec![2, 3, 4]);
    assert_eq!(copy_range(&out, 3, 3), Vec::<u8>::new());
}

#[test]
fn superblock_fills_exactly_one_block() {
    let sb = SuperBlock::new(MAGIC, 4096, 1, 2, 3, 4, 5);
    let bytes = sb.to_bytes();
    assert_eq!(bytes.len(), 4096);
    assert_eq!(&bytes[0..4], &[0x0C, 0xB1, 0xF5, 0x0C]);
    assert_eq!(&bytes[4..8], &[0x00, 0x10, 0x00, 0x00]);
    assert_eq!(&bytes[8..12], &[1, 0, 0, 0]);
    assert_eq!(&bytes[12..16], &[2, 0, 0, 0]);
    assert_eq!(&bytes[16..20], &[3, 0, 0, 0]);
    assert_eq!(&bytes[20..24], &[4, 0, 0, 0]);
    assert_eq!(&bytes[24..28], &[5, 0, 0, 0]);
    assert!(bytes[28..].iter().all(|b| *b == 0));
}

#[test]
fn superblock_round_trips() {
    let sb = SuperBlock::new(MAGIC, 512, 7, 8, 9, 10, 11);
    let mut bytes = sb.to_bytes();
    assert_eq!(SuperBlock::from_bytes(&bytes), Ok(sb));
    bytes.extend_from_slice(&[0xee; 100]);
    assert_eq!(SuperBlock::from_bytes(&bytes), Ok(sb));
}

#[test]
fn superblock_ignores_what_the_padding_holds() {
    let sb = SuperBlock::new(MAGIC, 64, 1, 1, 1, 1, 1);
    let mut bytes = sb.to_bytes();
    bytes[40] = 0x77;
    assert_eq!(SuperBlock::from_bytes(&bytes), Ok(sb));
}

#[test]
fn superblock_of_the_smallest_block_has_no_padding() {
    let sb = SuperBlock::new(MAGIC, 28, 0, 0, 0, 0, 0);
    let bytes = sb.to_bytes();
    assert_eq!(bytes.len(), 28);
    assert_eq!(SuperBlock::from_bytes(&bytes), Ok(sb));
}

#[test]
fn superblock_rejects_a_short_buffer() {
    let bytes = SuperBlock::new(MAGIC, 64, 0, 0, 0, 0, 0).to_bytes();
    assert_eq!(SuperBlock::from_bytes(&bytes[..27]), Err(Error::ShortBuffer));
    assert_eq!(SuperBlock::from_bytes(&bytes[..63]), Err(Error::ShortBuffer));
    assert_eq!(SuperBlock::from_bytes(&[]), Err(Error::ShortBuffer));
    assert!(SuperBlock::from_bytes(&bytes[..64]).is_ok());
}

#[test]
fn superblock_rejects_a_wrong_magic() {
    let mut bytes = SuperBlock::new(MAGIC, 64, 0, 0, 0, 0, 0).to_bytes();
    bytes[0] ^= 1;
    assert_eq!(SuperBlock::from_bytes(&bytes), Err(Error::BadMagic));
    let other = SuperBlock::new(0x12345678, 64, 0, 0, 0, 0, 0).to_bytes();
    assert_eq!(SuperBlock::from_bytes(&other), Err(Error::BadMagic));
}

#[test]
fn superblock_rejects_a_block_smaller_than_its_fields() {
    let bytes = SuperBlock::new(MAGIC, 27, 0, 0, 0, 0, 0).to_bytes();
    assert_eq!(bytes.len(), 28);
    assert_eq!(SuperBlock::from_bytes(&bytes), Err(Error::ShortBuffer));
}

#[test]
fn inode_is_sixty_four_packed_bytes() {
    let bytes = sample_inode().to_bytes();
    assert_eq!(bytes.len(), 64);
    assert_eq!(&bytes[0..2], &[0x23, 0x81]);
    assert_eq!(&bytes[2..4], &[0x02, 0x01]);
    assert_eq!(&bytes[4..6], &[0x04, 0x03]);
    assert_eq!(&bytes[6..8], &[0x06, 0x05]);
    assert_eq!(&bytes[8..12], &[0x0a, 0x09, 0x08, 0x07]);
    assert_eq!(&bytes[12..16], &[0x0e, 0x0d, 0x0c, 0x0b]);
    assert_eq!(&bytes[16..20], &[0x12, 0x11, 0x10, 0x0f]);
    assert_eq!(&bytes[20..24], &[0x16, 0x15, 0x14, 0x13]);
    assert_eq!(&bytes[24..28], &[1, 0, 0, 0]);
    assert_eq!(&bytes[56..60], &[9, 0, 0, 0]);
    assert_eq!(&bytes[60..64], &[0xef, 0xbe, 0xad, 0xde]);
}

#[test]
fn inode_round_trips() {
    let inode = sample_inode();
    let mut bytes = vec![0xaa; 5];
    inode.write_to(&mut bytes);
    bytes.push(0xbb);
    assert_eq!(Inode::from_bytes(&bytes, 5), Ok(inode));
    assert_eq!(Inode::from_bytes(&bytes, 6), Ok(Inode::from_bytes(&bytes, 6).unwrap()));
    assert_eq!(Inode::from_bytes(&bytes, 7), Err(Error::ShortBuffer));
    assert_eq!(Inode::from_bytes(&bytes[..60], 0), Err(Error::ShortBuffer));
    assert_eq!(Inode::from_bytes(&bytes, usize::MAX), Err(Error::ShortBuffer));
}

#[test]
fn default_inode_is_all_zero() {
    let inode = Inode::default();
    assert_eq!(inode.to_bytes(), vec![0u8; 64]);
    assert_eq!(inode, Inode::new(0, 0, 0, 0, 0, 0, 0, 0, [0; 10]));
}

#[test]
fn inode_list_round_trips() {
    let mut list = InodeList::new(4);
    list.set(3, sample_inode());
    let mut bytes = vec![1u8, 2, 3];
    list.write_to(&mut bytes);
    assert_eq!(bytes.len(), 3 + 4 * 64);
    let back = InodeList::from_bytes(&bytes, 3, 4).unwrap();
    assert_eq!(back.inodes, list.inodes);
    assert_eq!(InodeList::from_bytes(&bytes, 3, 5).err(), Some(Error::ShortBuffer));
    assert_eq!(InodeList::from_bytes(&bytes, 4, 4).err(), Some(Error::ShortBuffer));
    assert_eq!(InodeList::from_bytes(&bytes, 3, 0).unwrap().inodes.len(), 0);
}

#[test]
fn fresh_inode_list_holds_the_root_in_slot_one() {
    let list = InodeList::new(5);
    assert_eq!(list.inodes.len(), 5);
    assert_eq!(list.get(0), Inode::default());
    let root = list.get(1);
    assert_eq!(root.mode, 0o040755);
    assert_eq!(root.nchildren, 0);
    assert_eq!(root.size, 0);
    assert_eq!((root.atime, root.mtime, root.ctime), (0, 0, 0));
    assert_eq!(root.blkaddr, [0; 10]);
    for i in 2..5 {
        assert_eq!(list.get(i), Inode::default());
    }
    assert_eq!(InodeList::default().inodes.len(), 2);
}

#[test]
fn inode_list_set_get_and_clear() {
    let mut list = InodeList::new(3);
    list.set(2, sample_inode());
    assert_eq!(list.get(2), sample_inode());
    assert_eq!(list.get(0), Inode::default());
    list.clear(2);
    assert_eq!(list.get(2), Inode::default());
    assert_eq!(list.get(1).mode, 0o040755);
}

#[test]
fn dir_entry_is_name_then_inode() {
    let entry = DirEntry::new(str_to_u8_60("etc"), 0x01020304);
    let bytes = entry.to_bytes();
    assert_eq!(bytes.len(), 64);
    assert_eq!(&bytes[0..3], b"etc");
    assert!(bytes[3..60].iter().all(|b| *b == 0));
    assert_eq!(&bytes[60..64], &[4, 3, 2, 1]);
}

#[test]
fn dir_entry_round_trips() {
    let entry = DirEntry::new(str_to_u8_60("a rather long name, but not too long"), 77);
    let mut bytes = vec![0u8; 10];
    bytes.extend_from_slice(&entry.to_bytes());
    assert_eq!(DirEntry::from_bytes(&bytes, 10), Ok(entry));
    assert_eq!(DirEntry::from_bytes(&bytes, 11), Err(Error::ShortBuffer));
    assert_eq!(DirEntry::from_bytes(&bytes[..63], 0), Err(Error::ShortBuffer));
}

#[test]
fn image_round_trips() {
    let image = sample_image();
    let bytes = image.to_bytes();
    assert_eq!(bytes.len(), 64 + 64 + 128 + 3 * 64);
    let (back, used) = Cfs::from_bytes(&bytes).unwrap();
    assert_eq!(used, bytes.len());
    assert_eq!(back.super_block, image.super_block);
    assert_eq!(back.bam.data, image.bam.data);
    assert_eq!(back.iam.data, image.iam.data);
    assert_eq!(back.inode_list.inodes, image.inode_list.inodes);
    assert_eq!(back.to_bytes(), bytes);
}

#[test]
fn image_is_its_parts_one_after_another() {
    let image = sample_image();
    let bytes = image.to_bytes();
    assert_eq!(&bytes[..64], &image.super_block.to_bytes()[..]);
    assert_eq!(&bytes[64..128], &image.bam.data[..]);
    assert_eq!(&bytes[128..256], &image.iam.data[..]);
    assert_eq!(&bytes[256 + 128..], &sample_inode().to_bytes()[..]);
}

#[test]
fn image_decode_leaves_the_rest_of_the_buffer() {
    let image = sample_image();
    let mut bytes = image.to_bytes();
    let len = bytes.len();
    bytes.extend_from_slice(&[0x11; 500]);
    let (back, used) = Cfs::from_bytes(&bytes).unwrap();
    assert_eq!(used, len);
    assert_eq!(back.to_bytes(), &bytes[..len]);
}

#[test]
fn image_decode_fails_on_a_truncated_buffer() {
    let bytes = sample_image().to_bytes();
    for cut in [0, 27, 63, 64, 127, 255, 256, bytes.len() - 1] {
        assert_eq!(Cfs::from_bytes(&bytes[..cut]).err(), Some(Error::ShortBuffer));
    }
    assert!(Cfs::from_bytes(&bytes).is_ok());
}

#[test]
fn image_decode_fails_on_a_wrong_magic() {
    let mut bytes = sample_image().to_bytes();
    bytes[3] = 0;
    assert_eq!(Cfs::from_bytes(&bytes).err(), Some(Error::BadMagic));
}

#[test]
fn image_sizes_its_parts_by_the_superblock() {
    let sb = SuperBlock::new(MAGIC, 32, 2, 1, 0, 0, 1);
    let mut bytes = sb.to_bytes();
    bytes.extend_from_slice(&[0xb0; 64]);
    bytes.extend_from_slice(&[0x1a; 32]);
    bytes.extend_from_slice(&sample_inode().to_bytes());
    let (image, used) = Cfs::from_bytes(&bytes).unwrap();
    assert_eq!(used, 32 + 64 + 32 + 64);
    assert_eq!(image.bam.data, vec![0xb0; 64]);
    assert_eq!(image.iam.data, vec![0x1a; 32]);
    assert_eq!(image.inode_list.inodes, vec![sample_inode()]);
}
