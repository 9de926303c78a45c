//! The block device under the filesystem, and a device held in memory.

use vstd::prelude::*;
use crate::config::{BLOCK_SZ, Disk, zero_block, disk_sized};

verus! {

/// A failed transfer between memory and the device.
#[derive(Clone, Copy, Debug, PartialEq, Eq, Structural)]
pub struct IoError;

/// A device that transfers whole blocks, synchronously, by block index.
///
/// A transfer may fail; an implementation decides which ones do.
/// Implementations must not panic.
pub trait BlockDevice: Sized {
    /// The bytes stored in block `block_id`. Where an implementation does
    /// not say what they are, they are some function of the device's value.
    open spec fn block(&self, block_id: usize) -> Seq<u8> {
        vstd::pervasive::arbitrary::<spec_fn(Self, usize) -> Seq<u8>>()(*self, block_id)
    }

    /// Copies block `block_id` into `buf`. On failure `buf` holds anything.
    fn read_block(&self, block_id: usize, buf: &mut [u8; BLOCK_SZ]) -> (res: Result<(), IoError>)
        ensures
            res is Ok ==> final(buf)@ == self.block(block_id),
    ;

    /// Stores `buf` as block `block_id`. On failure that block holds
    /// anything. Every other block is untouched either way.
    fn write_block(&mut self, block_id: usize, buf: &[u8; BLOCK_SZ]) -> (res: Result<(), IoError>)
        ensures
            res is Ok ==> final(self).block(block_id) == buf@,
            forall|j: usize| j != block_id ==> final(self).block(j) == old(self).block(j),
    ;
}

/// The content of a device: the bytes of every block, by block index. A
/// block that the device could never hand out, because it is not
/// `BLOCK_SZ` bytes long, counts as a block of zero bytes.
pub open spec fn disk_of<D: BlockDevice>(device: &D) -> Disk {
    Map::new(
        |id: usize| true,
        |id: usize|
            if device.block(id).len() == BLOCK_SZ {
                device.block(id)
            } else {
                zero_block()
            },
    )
}

/// Every block of a device's content holds `BLOCK_SZ` bytes.
pub proof fn lemma_disk_of_sized<D: BlockDevice>(device: &D)
    ensures
        disk_sized(disk_of(device)),
{
    assert forall|id: usize| (#[trigger] disk_of(device)[id]).len() == BLOCK_SZ by {
    }
}

/// A block device held in memory, with a fixed number of blocks.
///
/// Transfers inside the device succeed; those beyond its end fail.
pub struct RamDisk {
    blocks: Vec<[u8; BLOCK_SZ]>,
}

impl RamDisk {
    /// Number of blocks of the device.
    pub closed spec fn spec_num_blocks(&self) -> nat {
        self.blocks@.len()
    }

    /// A device of `num_blocks` blocks, all zero.
    pub fn new(num_blocks: usize) -> (disk: RamDisk)
        ensures
            disk.spec_num_blocks() == num_blocks,
            forall|id: usize| disk.block(id) == zero_block(),
    {
        let mut blocks: Vec<[u8; BLOCK_SZ]> = Vec::new();
        let mut i: usize = 0;
        while i < num_blocks
            invariant
                i <= num_blocks,
                blocks@.len() == i,
                forall|k: int| 0 <= k < i ==> (#[trigger] blocks@[k])@ == zero_block(),
            decreases num_blocks - i,
        {
            let zero = [0u8; BLOCK_SZ];
            assert(zero@ =~= zero_block());
            blocks.push(zero);
            i = i + 1;
        }
        RamDisk { blocks }
    }

    /// Number of blocks of the device.
    pub fn num_blocks(&self) -> (n: usize)
        ensures
            n == self.spec_num_blocks(),
    {
        self.blocks.len()
    }
}

impl BlockDevice for RamDisk {
    closed spec fn block(&self, block_id: usize) -> Seq<u8> {
        if block_id < self.blocks@.len() {
            self.blocks@[block_id as int]@
        } else {
            zero_block()
        }
    }

    fn read_block(&self, block_id: usize, buf: &mut [u8; BLOCK_SZ]) -> (res: Result<(), IoError>)
        ensures
            res is Ok <==> block_id < self.spec_num_blocks(),
    {
        if block_id < self.blocks.len() {
            *buf = self.blocks[block_id];
            Ok(())
        } else {
            Err(IoError)
        }
    }

    fn write_block(&mut self, block_id: usize, buf: &[u8; BLOCK_SZ]) -> (res: Result<(), IoError>)
        ensures
            res is Ok <==> block_id < old(self).spec_num_blocks(),
            final(self).spec_num_blocks() == old(self).spec_num_blocks(),
            res is Err ==> *final(self) == *old(self),
    {
        if block_id < self.blocks.len() {
            self.blocks[block_id] = *buf;
            Ok(())
        } else {
            Err(IoError)
        }
    }
}

} // verus!
