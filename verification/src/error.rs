//! The ways in which an operation of the filesystem can fail.

use vstd::prelude::*;

verus! {

/// Why an operation was refused or could not be completed.
#[derive(Clone, Copy, Debug, PartialEq, Eq, Structural)]
pub enum Error {
    /// Every inode of the table is in use.
    NoFreeInodes,
    /// Every data block is in use.
    NoFreeBlocks,
    /// The buffer ends before the record does.
    ShortBuffer,
    /// The superblock does not start with the magic number.
    BadMagic,
    /// A read reached past the end of the device.
    IoError,
    /// A directory entry name is longer than sixty bytes.
    NameTooLong,
    /// A file needs more than the nine direct data blocks of an inode.
    FileTooLarge,
}

} // verus!
