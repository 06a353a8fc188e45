//! A minimal block filesystem: on-disk layout, allocation bitmaps, inode
//! table and the directory protocol, with machine-checked contracts.
//!
//! ```text
//! +-------------+-----+-----+-------------+--------------+-----+--------------+
//! | Super Block | BAM | IAM | Inode table | Data block 0 | ... | Data block N |
//! +-------------+-----+-----+-------------+--------------+-----+--------------+
//! ```
//!
//! The superblock records the geometry. The block allocation map (BAM) and
//! the inode allocation map (IAM) say which data blocks and which inodes are
//! in use. The inode table holds one fixed-size record for each inode. The
//! rest of the device is data blocks.
//!
//! - [`codec`], [`superblock`], [`inode`], [`dir_entry`] and [`image`] define
//!   the wire format and prove that reading undoes writing.
//! - [`bitmap`] is the bit-addressed allocator.
//! - [`device`] is the block device, held in memory.
//! - [`model`] says what each operation of a partition does, and
//!   [`partition`] does it.
//! - [`consistency`] and [`theorems`] state what holds across operations.

use vstd::prelude::*;

pub mod bitmap;
pub mod codec;
pub mod consistency;
pub mod device;
pub mod dir_entry;
pub mod error;
pub mod image;
pub mod inode;
pub mod model;
pub mod partition;
pub mod superblock;
pub mod theorems;
pub mod utils;

pub use image::Cfs;
pub use inode::{BAD_INODE, ROOT_INODE};
pub use partition::CfsPartition;
pub use utils::{bits_per_block, str_to_u8_60};

verus! {

/// The number that opens every superblock.
pub const MAGIC: u32 = 0x0CF5B10C;

/// The block size used where none is chosen.
pub const DEFAULT_BLOCK_SIZE: usize = 4096;

/// Number of blocks before the allocation maps: the superblock.
pub const RESERVED_BLOCKS: u64 = 1;

} // verus!
