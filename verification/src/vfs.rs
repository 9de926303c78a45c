//! The inode handle: where the record of an inode lies on disk, together
//! with the filesystem it belongs to.

use vstd::prelude::*;
use std::sync::Arc;
use spin::Mutex;
use crate::device::BlockDevice;
use crate::efs::EasyFileSystem;

verus! {

/// A locator of one inode record. It holds no lock and no buffer: whoever
/// uses it locks the filesystem for the time of one operation.
#[verifier::reject_recursive_types(D)]
pub struct Inode<D: BlockDevice> {
    block_id: usize,
    block_offset: usize,
    fs: Arc<Mutex<EasyFileSystem<D>>>,
}

impl<D: BlockDevice> Inode<D> {
    /// The block that holds the record.
    pub closed spec fn spec_block_id(&self) -> usize {
        self.block_id
    }

    /// The byte in the block where the record starts.
    pub closed spec fn spec_block_offset(&self) -> usize {
        self.block_offset
    }

    /// The shared filesystem the inode belongs to.
    pub closed spec fn spec_fs(&self) -> Arc<Mutex<EasyFileSystem<D>>> {
        self.fs
    }

    /// The handle of the record at byte `block_offset` of block `block_id`
    /// of filesystem `fs`.
    pub fn new(block_id: u32, block_offset: usize, fs: Arc<Mutex<EasyFileSystem<D>>>) -> (inode:
        Self)
        ensures
            inode.spec_block_id() == block_id,
            inode.spec_block_offset() == block_offset,
            inode.spec_fs() == fs,
    {
        Inode { block_id: block_id as usize, block_offset, fs }
    }

    /// The block that holds the record.
    pub fn block_id(&self) -> (id: usize)
        ensures
            id == self.spec_block_id(),
    {
        self.block_id
    }

    /// The byte in the block where the record starts.
    pub fn block_offset(&self) -> (offset: usize)
        ensures
            offset == self.spec_block_offset(),
    {
        self.block_offset
    }

    /// The shared filesystem the inode belongs to: the one the handle was made with.
    pub fn fs(&self) -> (fs: &Arc<Mutex<EasyFileSystem<D>>>)
        ensures
            *fs == self.spec_fs(),
    {
        &self.fs
    }
}

} // verus!
