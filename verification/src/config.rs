//! Sizes that fix the on-disk format.

use vstd::prelude::*;

verus! {

/// Bytes in one block, the unit of every device transfer.
pub const BLOCK_SZ: usize = 512;

/// Bits in one bitmap block.
pub const BLOCK_BITS: usize = 4096;

/// Number of buffers the block cache holds at most.
pub const BLOCK_CACHE_SIZE: usize = 16;

/// Magic number stored first in block 0 of a valid image.
pub const EFS_MAGIC: u32 = 0x3b800001;

/// Bytes of one on-disk inode record.
pub const INODE_SZ: usize = 128;

/// Inode records per block of the inode area.
pub const INODES_PER_BLOCK: u32 = 4;

/// Direct block pointers held by one inode record.
pub const INODE_DIRECT_COUNT: usize = 28;

/// Bytes of the superblock record at the start of block 0.
pub const SUPER_BLOCK_SZ: usize = 24;

/// The block of all zero bytes.
pub open spec fn zero_block() -> Seq<u8> {
    Seq::new(BLOCK_SZ as nat, |i: int| 0u8)
}

/// The logical content of a disk: the bytes of every block, by block index.
pub type Disk = Map<usize, Seq<u8>>;

/// Every block of `disk` holds `BLOCK_SZ` bytes.
pub open spec fn disk_sized(disk: Disk) -> bool {
    forall|id: usize| (#[trigger] disk[id]).len() == BLOCK_SZ
}

} // verus!
