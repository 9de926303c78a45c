//! The failures that filesystem operations report.

use vstd::prelude::*;

verus! {

/// Why a filesystem operation did not complete.
#[derive(Clone, Copy, Debug, PartialEq, Eq, Structural)]
pub enum FsError {
    /// The block device reported a failed read or write.
    Io,
    /// Block 0 does not hold a superblock this filesystem can mount.
    InvalidFilesystem,
    /// The requested geometry leaves no room for the regions it implies.
    InvalidLayout,
    /// Every inode slot is allocated.
    OutOfInodes,
    /// Every data block is allocated.
    OutOfSpace,
    /// The unit to release is not currently allocated.
    NotAllocated,
    /// The inode has no record in the inode area, or its record is not one.
    InvalidInode,
    /// The cache cannot hand out another reference to the block.
    CacheExhausted,
}

} // verus!
