//! The filesystem: it owns the block cache over its device and the two
//! bitmaps, and turns inode and data indices into places on the disk.

use vstd::prelude::*;
use std::sync::Arc;
use spin::Mutex;
use crate::bitmap::{Bitmap, block_with, lemma_bit_of_zero};
use crate::codec::lemma_le_words_cover;
use crate::block_cache::{
    BlockCacheManager, Slot, cached, cleaned, lemma_read_after_modify, lemma_slot_for_index,
    loaded, splice, written_back,
};
use crate::config::{
    BLOCK_BITS, BLOCK_SZ, Disk, INODES_PER_BLOCK, INODE_DIRECT_COUNT, INODE_SZ, SUPER_BLOCK_SZ, disk_sized,
    zero_block,
};
use crate::device::{BlockDevice, disk_of};
use crate::error::FsError;
use crate::inode::{DiskInode, DiskInodeType, DiskInodeView};
use crate::layout::{SuperBlock, compute_layout, layout_for, layout_valid};
use crate::lock::guarded;
use crate::vfs::Inode;

verus! {

/// A filesystem over a block device.
#[verifier::reject_recursive_types(D)]
pub struct EasyFileSystem<D: BlockDevice> {
    cache: BlockCacheManager<D>,
    inode_bitmap: Bitmap,
    data_bitmap: Bitmap,
    inode_area_start_block: u32,
    data_area_start_block: u32,
    data_area_blocks: u32,
}

/// Block `b` of a filesystem of `total_blocks` blocks just created with an
/// inode bitmap of `inode_bitmap_blocks` blocks: the superblock in block 0,
/// the bit of the root inode in the first block of the inode bitmap, the
/// record of the root directory in the first block of the inode area, and
/// zero bytes everywhere else.
pub open spec fn fresh_block(total_blocks: u32, inode_bitmap_blocks: u32, b: usize) -> Seq<u8> {
    if b == 0 {
        splice(zero_block(), 0, layout_for(total_blocks, inode_bitmap_blocks).bytes())
    } else if b == 1 {
        block_with(zero_block(), 0)
    } else if b == 1 + inode_bitmap_blocks {
        splice(zero_block(), 0, DiskInodeView::fresh(DiskInodeType::Directory).bytes())
    } else {
        zero_block()
    }
}

/// Where the regions of a filesystem lie.
pub struct Regions {
    /// The inode bitmap.
    pub inode_map: Bitmap,
    /// The data bitmap.
    pub data_map: Bitmap,
    /// The first block of the inode area.
    pub inode_area_start: u32,
    /// The first block of the data area.
    pub data_area_start: u32,
    /// The number of blocks of the data area.
    pub data_area_blocks: u32,
}

/// The place of inode `inode_id` where the inode area starts at block
/// `inode_area_start`: the block, and the byte in it where the record starts.
pub open spec fn inode_pos(inode_area_start: int, inode_id: int) -> (int, int) {
    (
        inode_area_start + inode_id / (INODES_PER_BLOCK as int),
        (inode_id % (INODES_PER_BLOCK as int)) * INODE_SZ,
    )
}

impl<D: BlockDevice> EasyFileSystem<D> {
    /// The content of the disk as seen through the cache.
    pub closed spec fn view(&self) -> Disk {
        self.cache@
    }

    /// The content of the device itself.
    pub closed spec fn device_view(&self) -> Disk {
        self.cache.device_view()
    }

    /// The inode bitmap.
    pub closed spec fn inode_map(&self) -> Bitmap {
        self.inode_bitmap
    }

    /// The data bitmap.
    pub closed spec fn data_map(&self) -> Bitmap {
        self.data_bitmap
    }

    /// The first block of the inode area.
    pub closed spec fn inode_area_start(&self) -> u32 {
        self.inode_area_start_block
    }

    /// The first block of the data area.
    pub closed spec fn data_area_start(&self) -> u32 {
        self.data_area_start_block
    }

    /// The number of blocks of the data area.
    pub closed spec fn data_blocks(&self) -> u32 {
        self.data_area_blocks
    }

    /// The cache is sound and no handle on it is outstanding.
    pub closed spec fn cache_at_rest(&self) -> bool {
        self.cache.wf() && self.cache.idle()
    }

    /// Every block of the inode bitmap has a buffer in the cache.
    pub closed spec fn inode_map_cached(&self) -> bool {
        self.inode_bitmap.region_cached(self.cache.slots())
    }

    /// Every block of the data bitmap has a buffer in the cache.
    pub closed spec fn data_map_cached(&self) -> bool {
        self.data_bitmap.region_cached(self.cache.slots())
    }

    /// Block `id` has a buffer in the cache.
    pub closed spec fn is_cached(&self, id: usize) -> bool {
        self.cache.is_cached(id)
    }

    /// Block `id` is the block that the filesystem touched last. It keeps
    /// its buffer through the next single-block operation.
    pub closed spec fn is_most_recent(&self, id: usize) -> bool {
        self.cache.is_most_recent(id)
    }

    /// No buffer of the cache holds a change that the device has not seen.
    pub closed spec fn is_clean(&self) -> bool {
        cleaned(self.cache.slots()) == self.cache.slots()
    }

    /// The block of the data bitmap that holds the bit of data block `block_id`.
    pub open spec fn data_bit_block(&self, block_id: u32) -> usize {
        self.data_map().block_of(block_id - self.data_area_start())
    }

    /// The block of the inode bitmap that holds the bit of inode `inode_id`.
    pub open spec fn inode_bit_block(&self, inode_id: u32) -> usize {
        self.inode_map().block_of(inode_id as int)
    }

    /// Whether inode `inode_id` is allocated on `disk`.
    pub open spec fn inode_allocated(&self, disk: Disk, inode_id: u32) -> bool {
        &&& inode_id < self.inode_map().capacity()
        &&& self.inode_map().is_set(disk, inode_id as int)
    }

    /// Where the regions lie.
    pub open spec fn regions(&self) -> Regions {
        Regions {
            inode_map: self.inode_map(),
            data_map: self.data_map(),
            inode_area_start: self.inode_area_start(),
            data_area_start: self.data_area_start(),
            data_area_blocks: self.data_blocks(),
        }
    }

    /// Whether inode `inode_id` has a bit in the inode bitmap and a record
    /// in the inode area.
    pub open spec fn has_inode_slot(&self, inode_id: u32) -> bool {
        &&& inode_id < self.inode_map().capacity()
        &&& self.inode_area_start() + inode_id / INODES_PER_BLOCK < self.data_map().start()
    }

    /// The block of the record of inode `inode_id`.
    pub open spec fn inode_block(&self, inode_id: u32) -> usize {
        inode_pos(self.inode_area_start() as int, inode_id as int).0 as usize
    }

    /// The byte where the record of inode `inode_id` starts in its block.
    pub open spec fn inode_offset(&self, inode_id: u32) -> int {
        inode_pos(self.inode_area_start() as int, inode_id as int).1
    }

    /// Whether block `block_id` is a block of the data area that is
    /// allocated on `disk`.
    pub open spec fn data_block_allocated(&self, disk: Disk, block_id: u32) -> bool {
        &&& block_id >= self.data_area_start()
        &&& block_id - self.data_area_start() < self.data_map().capacity()
        &&& self.data_map().is_set(disk, block_id - self.data_area_start())
    }

    /// `disk` after data block `block_id` is released: the block is zero
    /// and its bit is clear.
    pub open spec fn after_dealloc_data(&self, disk: Disk, block_id: u32) -> Disk {
        self.data_map().after_dealloc(
            disk.insert(block_id as usize, zero_block()),
            block_id - self.data_area_start(),
        )
    }

    /// `disk` after data block `block_id` is handed out: its bit is set.
    pub open spec fn after_alloc_data(&self, disk: Disk, block_id: u32) -> Disk {
        self.data_map().after_alloc(disk, block_id - self.data_area_start())
    }

    /// The regions lie where superblock `sb` puts them.
    pub open spec fn laid_out_as(&self, sb: SuperBlock) -> bool {
        &&& self.inode_map().start() == 1
        &&& self.inode_map().len() == sb.inode_bitmap_blocks
        &&& self.inode_map().capacity() == sb.inode_bitmap_blocks * BLOCK_BITS
        &&& self.inode_area_start() == sb.inode_area_start()
        &&& self.data_map().start() == sb.data_bitmap_start()
        &&& self.data_map().len() == sb.data_bitmap_blocks
        &&& self.data_map().capacity() == sb.data_units()
        &&& self.data_area_start() == sb.data_area_start()
        &&& self.data_blocks() == sb.data_area_blocks
    }

    /// The superblock that block 0 holds.
    pub open spec fn super_block(&self) -> SuperBlock {
        SuperBlock::from_bytes(self@[0])
    }

    /// The filesystem is sound: its cache is at rest, block 0 holds a
    /// superblock that can be mounted, and the regions lie where that
    /// superblock puts them.
    pub open spec fn wf(&self) -> bool {
        &&& self.cache_at_rest()
        &&& self.inode_map().wf()
        &&& self.data_map().wf()
        &&& self.super_block().mountable()
        &&& self.laid_out_as(self.super_block())
    }

    /// The place of inode `inode_id`: its block, and the byte in it where
    /// the record starts.
    pub fn get_disk_inode_pos(&self, inode_id: u32) -> (pos: (u32, usize))
        requires
            self.inode_area_start() + inode_id / INODES_PER_BLOCK <= u32::MAX,
        ensures
            pos.0 == inode_pos(self.inode_area_start() as int, inode_id as int).0,
            pos.1 == inode_pos(self.inode_area_start() as int, inode_id as int).1,
            pos.1 + INODE_SZ <= BLOCK_SZ,
    {
        let block_id = self.inode_area_start_block + inode_id / INODES_PER_BLOCK;
        (block_id, (inode_id % INODES_PER_BLOCK) as usize * INODE_SZ)
    }

    /// The block of the data area with index `data_block_id`.
    pub fn get_data_block_id(&self, data_block_id: u32) -> (block_id: u32)
        requires
            self.data_area_start() + data_block_id <= u32::MAX,
        ensures
            block_id == self.data_area_start() + data_block_id,
    {
        self.data_area_start_block + data_block_id
    }

    /// The inode bitmap.
    pub fn inode_bitmap(&self) -> (bitmap: &Bitmap)
        ensures
            *bitmap == self.inode_map(),
    {
        &self.inode_bitmap
    }

    /// The data bitmap.
    pub fn data_bitmap(&self) -> (bitmap: &Bitmap)
        ensures
            *bitmap == self.data_map(),
    {
        &self.data_bitmap
    }

    /// The device under the filesystem.
    pub fn block_device(&self) -> (device: &D)
        ensures
            disk_of(device) == self.device_view(),
    {
        self.cache.device()
    }

    /// The first block of the inode area.
    pub fn inode_area_start_block(&self) -> (block_id: u32)
        ensures
            block_id == self.inode_area_start(),
    {
        self.inode_area_start_block
    }

    /// The first block of the data area.
    pub fn data_area_start_block(&self) -> (block_id: u32)
        ensures
            block_id == self.data_area_start(),
    {
        self.data_area_start_block
    }

    /// The number of blocks of the data area.
    pub fn data_area_blocks(&self) -> (blocks: u32)
        ensures
            blocks == self.data_blocks(),
    {
        self.data_area_blocks
    }

    /// The filesystem over `cache` whose block 0 holds superblock `sb`.
    /// It is refused exactly when `sb` cannot be mounted.
    pub fn from_super_block(cache: BlockCacheManager<D>, sb: &SuperBlock) -> (res: Result<
        Self,
        FsError,
    >)
        requires
            cache.wf(),
            cache.idle(),
            SuperBlock::from_bytes(cache@[0]) == *sb,
        ensures
            match res {
                Ok(fs) => {
                    &&& sb.mountable()
                    &&& fs.wf()
                    &&& fs.laid_out_as(*sb)
                    &&& fs@ == cache@
                    &&& fs.device_view() == cache.device_view()
                    &&& forall|id: usize| #[trigger] fs.is_cached(id) == cache.is_cached(id)
                    &&& fs.is_clean() == (cleaned(cache.slots()) == cache.slots())
                    &&& forall|id: usize| #[trigger]
                        fs.is_most_recent(id) == cache.is_most_recent(id)
                },
                Err(e) => e == FsError::InvalidFilesystem && !sb.mountable(),
            },
    {
        if !sb.is_mountable() {
            return Err(FsError::InvalidFilesystem);
        }
        let inode_total_blocks = sb.inode_bitmap_blocks + sb.inode_area_blocks;
        let fs = EasyFileSystem {
            cache,
            inode_bitmap: Bitmap::new(1, sb.inode_bitmap_blocks as usize),
            data_bitmap: Bitmap::bounded(
                (1 + inode_total_blocks) as usize,
                sb.data_bitmap_blocks as usize,
                sb.data_unit_count() as usize,
            ),
            inode_area_start_block: 1 + sb.inode_bitmap_blocks,
            data_area_start_block: 1 + inode_total_blocks + sb.data_bitmap_blocks,
            data_area_blocks: sb.data_area_blocks,
        };
        Ok(fs)
    }

    /// Makes a new filesystem of `total_blocks` blocks on `device`, with an
    /// inode bitmap of `inode_bitmap_blocks` blocks.
    ///
    /// Every block is overwritten with zero bytes, the superblock is
    /// written to block 0, and inode 0 is allocated and made the root
    /// directory. All of this goes through the cache: what has reached the
    /// device is decided by eviction, until `sync` is called; the device is
    /// not written at or beyond block `total_blocks`. A geometry
    /// that cannot be laid out is refused with `InvalidLayout` before the
    /// device is touched; `Io` says that a transfer failed.
    pub fn format(device: D, total_blocks: u32, inode_bitmap_blocks: u32) -> (res: Result<
        Self,
        FsError,
    >)
        ensures
            match res {
                Ok(fs) => {
                    &&& layout_valid(total_blocks, inode_bitmap_blocks)
                    &&& fs.wf()
                    &&& fs.laid_out_as(layout_for(total_blocks, inode_bitmap_blocks))
                    &&& fs.data_area_start() + fs.data_blocks() == total_blocks
                    &&& fs.data_map().capacity() == fs.data_blocks()
                    &&& forall|b: usize|
                        b >= total_blocks ==> #[trigger] fs.device_view()[b] == disk_of(&device)[b]
                    &&& forall|b: usize| #[trigger]
                        fs@[b] == if b < total_blocks {
                            fresh_block(total_blocks, inode_bitmap_blocks, b)
                        } else {
                            disk_of(&device)[b]
                        }
                },
                Err(e) => {
                    &&& e == FsError::InvalidLayout || e == FsError::Io
                    &&& e == FsError::InvalidLayout <==> !layout_valid(
                        total_blocks,
                        inode_bitmap_blocks,
                    )
                },
            },
    {
        let sb = match compute_layout(total_blocks, inode_bitmap_blocks) {
            Some(sb) => sb,
            None => {
                return Err(FsError::InvalidLayout);
            },
        };
        let ghost disk0 = disk_of(&device);
        let mut cache = BlockCacheManager::new(device);
        let zeros = [0u8; BLOCK_SZ];
        let mut i: u32 = 0;
        while i < total_blocks
            invariant
                i <= total_blocks,
                cache.wf(),
                cache.idle(),
                layout_valid(total_blocks, inode_bitmap_blocks),
                disk0 == disk_of(&device),
                zeros@ == zero_block(),
                forall|b: usize| #[trigger] cache@[b] == if b < i { zero_block() } else { disk0[b] },
                forall|b: usize| b >= total_blocks ==> #[trigger] cache.device_view()[b] == disk0[b],
            decreases total_blocks - i,
        {
            proof {
                cache.lemma_idle_can_pin(i as usize);
                cache.lemma_view_sized();
            }
            let ghost before = cache@;
            let handle = match cache.get(i as usize) {
                Ok(handle) => handle,
                Err(_) => {
                    return Err(FsError::Io);
                },
            };
            cache.modify(&handle, 0, zeros.as_slice());
            cache.release(handle);
            proof {
                assert(splice(before[i as usize], 0, zeros@) =~= zero_block());
            }
            i = i + 1;
        }
        proof {
            cache.lemma_idle_can_pin(0);
        }
        let handle = match cache.get(0) {
            Ok(handle) => handle,
            Err(_) => {
                return Err(FsError::Io);
            },
        };
        let bytes = sb.encode();
        cache.modify(&handle, 0, bytes.as_slice());
        cache.release(handle);
        proof {
            let rest = Seq::new((BLOCK_SZ - SUPER_BLOCK_SZ) as nat, |k: int| 0u8);
            assert(cache@[0] =~= sb.bytes() + rest);
            sb.lemma_round_trip(rest);
        }
        let ghost disk1 = cache@;
        let mut fs = match Self::from_super_block(cache, &sb) {
            Ok(fs) => fs,
            Err(_) => {
                return Err(FsError::Io);
            },
        };
        proof {
            lemma_bit_of_zero(0);
            assert(!fs.inode_map().is_set(disk1, 0));
            assert(zero_block()[0] == 0u8);
        }
        let root = match fs.alloc_inode() {
            Ok(root) => root,
            Err(_) => {
                return Err(FsError::Io);
            },
        };
        assert(root == 0) by {
            if root > 0 {
                assert(fs.inode_map().is_set(disk1, 0));
            }
        }
        assert(fs.inode_map().block_of(0) == 1);
        assert(fs.has_inode_slot(0));
        let ghost disk2 = fs@;
        match fs.write_disk_inode(0, &DiskInode::new(DiskInodeType::Directory)) {
            Ok(()) => {},
            Err(_) => {
                return Err(FsError::Io);
            },
        }
        proof {
            assert(fs.inode_block(0) == 1 + inode_bitmap_blocks);
            assert(fs.inode_offset(0) == 0);
            assert forall|b: usize| #[trigger]
                fs@[b] == if b < total_blocks {
                    fresh_block(total_blocks, inode_bitmap_blocks, b)
                } else {
                    disk0[b]
                } by {
                assert(disk1[b] == if b == 0 {
                    splice(zero_block(), 0, sb.bytes())
                } else if b < total_blocks {
                    zero_block()
                } else {
                    disk0[b]
                });
            }
        }
        Ok(fs)
    }

    /// Mounts the filesystem that `device` holds.
    ///
    /// Block 0 is read and its superblock checked; the bitmaps are taken as
    /// they are. `InvalidFilesystem` says that block 0 was read and holds no
    /// superblock that can be mounted; `Io` says that it could not be read.
    pub fn mount(device: D) -> (res: Result<Self, FsError>)
        ensures
            match res {
                Ok(fs) => {
                    &&& SuperBlock::from_bytes(disk_of(&device)[0]).mountable()
                    &&& fs.wf()
                    &&& fs.laid_out_as(SuperBlock::from_bytes(disk_of(&device)[0]))
                    &&& fs@ == disk_of(&device)
                    &&& fs.device_view() == disk_of(&device)
                    &&& fs.is_clean()
                    &&& fs.is_cached(0)
                    &&& fs.is_most_recent(0)
                },
                Err(e) => {
                    &&& e == FsError::Io || e == FsError::InvalidFilesystem
                    &&& e == FsError::InvalidFilesystem ==> !SuperBlock::from_bytes(disk_of(&device)[0]).mountable()
                },
            },
    {
        let mut cache = BlockCacheManager::new(device);
        proof {
            cache.lemma_idle_can_pin(0);
            cache.lemma_view_sized();
        }
        let handle = match cache.get(0) {
            Ok(handle) => handle,
            Err(e) => {
                return Err(e);
            },
        };
        let sb = SuperBlock::decode(cache.read(&handle, 0, SUPER_BLOCK_SZ));
        let ghost held = cache.slots();
        cache.release(handle);
        proof {
            assert(!cached(Seq::<Slot>::empty(), 0));
            assert(held =~= seq![loaded(0, disk_of(&device)[0])]);
            lemma_slot_for_index(held, 0);
            assert(cleaned(cache.slots()) =~= cache.slots());
            let block = cache@[0];
            let head = block.subrange(0, SUPER_BLOCK_SZ as int);
            assert(head.subrange(0, 24) =~= block.subrange(0, 24));
            lemma_le_words_cover(head, block, 6);
        }
        Self::from_super_block(cache, &sb)
    }

    /// Hands out the lowest free inode and marks it allocated.
    ///
    /// `OutOfInodes` says that every inode is allocated; `Io` that a block
    /// of the inode bitmap could not be transferred, which cannot happen
    /// while the whole inode bitmap is cached. A failure changes nothing.
    pub fn alloc_inode(&mut self) -> (res: Result<u32, FsError>)
        requires
            old(self).wf(),
        ensures
            final(self).wf(),
            final(self).regions() == old(self).regions(),
            match res {
                Ok(inode_id) => {
                    &&& old(self).inode_map().is_lowest_free(old(self)@, inode_id as int)
                    &&& final(self)@ == old(self).inode_map().after_alloc(
                        old(self)@,
                        inode_id as int,
                    )
                },
                Err(e) => {
                    &&& e == FsError::OutOfInodes || e == FsError::Io
                    &&& e == FsError::OutOfInodes ==> old(self).inode_map().is_full(old(self)@)
                    &&& final(self)@ == old(self)@
                },
            },
            old(self).inode_map_cached() ==> res != Err::<u32, FsError>(FsError::Io),
            old(self).inode_map_cached() ==> forall|id: usize| #[trigger]
                final(self).is_cached(id) == old(self).is_cached(id),
            res matches Ok(inode_id) ==> final(self).is_cached(
                old(self).inode_bit_block(inode_id),
            ),
            res matches Ok(inode_id) ==> final(self).is_most_recent(
                old(self).inode_bit_block(inode_id),
            ),
            res is Ok ==> written_back(
                final(self).device_view(),
                old(self).device_view(),
                old(self)@,
            ),
    {
        match self.inode_bitmap.allocate(&mut self.cache) {
            Ok(Some(bit)) => Ok(bit as u32),
            Ok(None) => Err(FsError::OutOfInodes),
            Err(_) => Err(FsError::Io),
        }
    }

    /// Hands out the lowest free data block and marks it allocated. The
    /// result is the index of the block on the device, a block of the data
    /// area.
    ///
    /// `OutOfSpace` says that every block of the data area is allocated; `Io` that a
    /// block of the data bitmap could not be transferred, which cannot
    /// happen while the whole data bitmap is cached. A failure changes nothing.
    pub fn alloc_data(&mut self) -> (res: Result<u32, FsError>)
        requires
            old(self).wf(),
        ensures
            final(self).wf(),
            final(self).regions() == old(self).regions(),
            match res {
                Ok(block_id) => {
                    &&& block_id >= old(self).data_area_start()
                    &&& block_id < old(self).data_area_start() + old(self).data_blocks()
                    &&& old(self).data_map().is_lowest_free(
                        old(self)@,
                        block_id - old(self).data_area_start(),
                    )
                    &&& final(self)@ == old(self).after_alloc_data(old(self)@, block_id)
                },
                Err(e) => {
                    &&& e == FsError::OutOfSpace || e == FsError::Io
                    &&& e == FsError::OutOfSpace ==> old(self).data_map().is_full(old(self)@)
                    &&& final(self)@ == old(self)@
                },
            },
            old(self).data_map_cached() ==> res != Err::<u32, FsError>(FsError::Io),
            old(self).data_map_cached() ==> forall|id: usize| #[trigger]
                final(self).is_cached(id) == old(self).is_cached(id),
            res matches Ok(block_id) ==> final(self).is_cached(old(self).data_bit_block(block_id)),
            res matches Ok(block_id) ==> final(self).is_most_recent(
                old(self).data_bit_block(block_id),
            ),
            res is Ok ==> written_back(
                final(self).device_view(),
                old(self).device_view(),
                old(self)@,
            ),
    {
        match self.data_bitmap.allocate(&mut self.cache) {
            Ok(Some(bit)) => Ok(bit as u32 + self.data_area_start_block),
            Ok(None) => Err(FsError::OutOfSpace),
            Err(_) => Err(FsError::Io),
        }
    }

    /// Overwrites block `block_id` with zero bytes, in the cache.
    fn zero_block(&mut self, block_id: usize) -> (res: Result<(), FsError>)
        requires
            old(self).cache_at_rest(),
        ensures
            final(self).cache_at_rest(),
            final(self).regions() == old(self).regions(),
            match res {
                Ok(()) => final(self)@ == old(self)@.insert(block_id, zero_block()),
                Err(e) => e == FsError::Io && final(self)@ == old(self)@,
            },
            old(self).is_cached(block_id) ==> res is Ok,
            old(self).is_cached(block_id) ==> forall|id: usize| #[trigger]
                final(self).is_cached(id) == old(self).is_cached(id),
    {
        proof {
            self.cache.lemma_idle_can_pin(block_id);
            self.cache.lemma_view_sized();
        }
        let handle = match self.cache.get(block_id) {
            Ok(handle) => handle,
            Err(e) => {
                return Err(e);
            },
        };
        let zeros = [0u8; BLOCK_SZ];
        self.cache.modify(&handle, 0, zeros.as_slice());
        self.cache.release(handle);
        proof {
            assert(splice(old(self)@[block_id], 0, zeros@) =~= zero_block());
        }
        Ok(())
    }

    /// Releases data block `block_id`: its content is overwritten with zero
    /// bytes, then its bit is cleared.
    ///
    /// A block that is not an allocated data block is refused with
    /// `NotAllocated`, and nothing changes; a block outside the range of the
    /// data bitmap is refused before any transfer. After a failed transfer
    /// the block may already be zero while its bit is still set. Where the
    /// block and the bitmap block of its bit are both cached, no transfer is
    /// needed and the release of an allocated block succeeds.
    pub fn dealloc_data(&mut self, block_id: u32) -> (res: Result<(), FsError>)
        requires
            old(self).wf(),
        ensures
            final(self).wf(),
            final(self).regions() == old(self).regions(),
            match res {
                Ok(()) => {
                    &&& old(self).data_block_allocated(old(self)@, block_id)
                    &&& final(self)@ == old(self).after_dealloc_data(old(self)@, block_id)
                },
                Err(e) => {
                    &&& e == FsError::NotAllocated || e == FsError::Io
                    &&& e == FsError::NotAllocated ==> !old(self).data_block_allocated(
                        old(self)@,
                        block_id,
                    ) && final(self)@ == old(self)@
                    &&& e == FsError::Io ==> final(self)@ == old(self)@ || (old(self).data_block_allocated(old(self)@, block_id) && final(self)@ == old(self)@.insert(block_id as usize, zero_block()))
                },
            },
            block_id < old(self).data_area_start() || block_id - old(self).data_area_start()
                >= old(self).data_map().capacity() ==> res == Err::<(), FsError>(
                FsError::NotAllocated,
            ),
            !old(self).data_block_allocated(old(self)@, block_id) && old(self).is_cached(
                old(self).data_bit_block(block_id),
            ) ==> res == Err::<(), FsError>(FsError::NotAllocated),
            old(self).data_block_allocated(old(self)@, block_id) && old(self).is_cached(
                old(self).data_bit_block(block_id),
            ) && old(self).is_cached(block_id as usize) ==> res is Ok,
            old(self).is_cached(old(self).data_bit_block(block_id)) && old(self).is_cached(
                block_id as usize,
            ) ==> forall|id: usize| #[trigger]
                final(self).is_cached(id) == old(self).is_cached(id),
            res is Ok ==> final(self).is_cached(old(self).data_bit_block(block_id)),
            res is Ok ==> final(self).is_most_recent(old(self).data_bit_block(block_id)),
    {
        if block_id < self.data_area_start_block {
            return Err(FsError::NotAllocated);
        }
        let ghost disk0 = self@;
        let bit = (block_id - self.data_area_start_block) as usize;
        proof {
            if bit < self.data_bitmap.capacity() {
                self.data_bitmap.lemma_block_of(bit as int, bit as int);
            }
        }
        match self.data_bitmap.is_allocated(&mut self.cache, bit) {
            Ok(true) => {},
            Ok(false) => {
                return Err(FsError::NotAllocated);
            },
            Err(_) => {
                return Err(FsError::Io);
            },
        }
        let ghost bit_block = self.data_bitmap.block_of(bit as int);
        let ghost both_cached = old(self).cache.is_cached(bit_block) && old(self).cache.is_cached(
            block_id as usize,
        );
        proof {
            if both_cached {
                assert(self.cache.is_cached(bit_block) == old(self).cache.is_cached(bit_block));
                assert(self.cache.is_cached(block_id as usize) == old(self).cache.is_cached(
                    block_id as usize,
                ));
            }
        }
        let ghost checked = *self;
        match self.zero_block(block_id as usize) {
            Ok(()) => {},
            Err(e) => {
                return Err(e);
            },
        }
        proof {
            assert(self.data_bitmap.is_set(self@, bit as int));
            if both_cached {
                assert(checked.is_cached(block_id as usize));
                assert(self.is_cached(bit_block) == checked.is_cached(bit_block));
                assert forall|id: usize| #[trigger]
                    self.cache.is_cached(id) == old(self).cache.is_cached(id) by {
                    assert(self.is_cached(id) == checked.is_cached(id));
                    assert(checked.cache.is_cached(id) == old(self).cache.is_cached(id));
                }
            }
        }
        let ghost zeroed = self.cache;
        let res = match self.data_bitmap.deallocate(&mut self.cache, bit) {
            Ok(()) => Ok(()),
            Err(_) => Err(FsError::Io),
        };
        proof {
            if both_cached {
                assert forall|id: usize| #[trigger]
                    self.cache.is_cached(id) == old(self).cache.is_cached(id) by {
                    assert(self.cache.is_cached(id) == zeroed.is_cached(id));
                    assert(zeroed.is_cached(id) == old(self).cache.is_cached(id));
                }
            }
        }
        res
    }

    /// The `len` bytes of block `block_id` from `offset` on, as the
    /// filesystem shows them. Nothing on the disk changes.
    pub fn read_block(&mut self, block_id: u32, offset: usize, len: usize) -> (res: Result<
        Vec<u8>,
        FsError,
    >)
        requires
            old(self).wf(),
            offset + len <= BLOCK_SZ,
        ensures
            final(self).wf(),
            final(self).regions() == old(self).regions(),
            final(self)@ == old(self)@,
            match res {
                Ok(bytes) => bytes@ == old(self)@[block_id as usize].subrange(
                    offset as int,
                    offset + len,
                ),
                Err(e) => e == FsError::Io,
            },
            old(self).is_cached(block_id as usize) ==> res is Ok,
            old(self).is_cached(block_id as usize) ==> forall|id: usize| #[trigger]
                final(self).is_cached(id) == old(self).is_cached(id),
            res is Ok ==> final(self).is_cached(block_id as usize),
            res is Ok ==> final(self).is_most_recent(block_id as usize),
            res is Ok ==> written_back(
                final(self).device_view(),
                old(self).device_view(),
                old(self)@,
            ),
            forall|x: usize|
                old(self).is_most_recent(x) ==> #[trigger] final(self).is_cached(x),
    {
        proof {
            self.cache.lemma_idle_can_pin(block_id as usize);
        }
        let handle = match self.cache.get(block_id as usize) {
            Ok(handle) => handle,
            Err(e) => {
                return Err(e);
            },
        };
        let bytes = vstd::slice::slice_to_vec(self.cache.read(&handle, offset, len));
        self.cache.release(handle);
        Ok(bytes)
    }

    /// Writes `src` over allocated data block `block_id` from `offset` on,
    /// in the cache.
    ///
    /// A block that is not an allocated data block is refused with
    /// `NotAllocated`: the superblock, the bitmaps and the inode area cannot
    /// be written this way. A failure changes nothing. Where the block and
    /// the bitmap block of its bit are both cached, no transfer is needed and
    /// the write to an allocated block succeeds.
    pub fn write_data(&mut self, block_id: u32, offset: usize, src: &[u8]) -> (res: Result<
        (),
        FsError,
    >)
        requires
            old(self).wf(),
            offset + src@.len() <= BLOCK_SZ,
        ensures
            final(self).wf(),
            final(self).regions() == old(self).regions(),
            match res {
                Ok(()) => {
                    &&& old(self).data_block_allocated(old(self)@, block_id)
                    &&& final(self)@ == old(self)@.insert(
                        block_id as usize,
                        splice(old(self)@[block_id as usize], offset as int, src@),
                    )
                },
                Err(e) => {
                    &&& e == FsError::NotAllocated || e == FsError::Io
                    &&& e == FsError::NotAllocated ==> !old(self).data_block_allocated(
                        old(self)@,
                        block_id,
                    )
                    &&& final(self)@ == old(self)@
                },
            },
            block_id < old(self).data_area_start() || block_id - old(self).data_area_start()
                >= old(self).data_map().capacity() ==> res == Err::<(), FsError>(
                FsError::NotAllocated,
            ),
            !old(self).data_block_allocated(old(self)@, block_id) && old(self).is_cached(
                old(self).data_bit_block(block_id),
            ) ==> res == Err::<(), FsError>(FsError::NotAllocated),
            old(self).data_block_allocated(old(self)@, block_id) && old(self).is_cached(
                old(self).data_bit_block(block_id),
            ) && old(self).is_cached(block_id as usize) ==> res is Ok,
            old(self).is_cached(old(self).data_bit_block(block_id)) && old(self).is_cached(
                block_id as usize,
            ) ==> forall|id: usize| #[trigger]
                final(self).is_cached(id) == old(self).is_cached(id),
            res is Ok ==> final(self).is_cached(block_id as usize),
            res is Ok ==> final(self).is_most_recent(block_id as usize),
            res is Ok ==> written_back(
                final(self).device_view(),
                old(self).device_view(),
                old(self)@,
            ),
    {
        if block_id < self.data_area_start_block {
            return Err(FsError::NotAllocated);
        }
        let bit = (block_id - self.data_area_start_block) as usize;
        proof {
            if bit < self.data_bitmap.capacity() {
                self.data_bitmap.lemma_block_of(bit as int, bit as int);
            }
        }
        match self.data_bitmap.is_allocated(&mut self.cache, bit) {
            Ok(true) => {},
            Ok(false) => {
                return Err(FsError::NotAllocated);
            },
            Err(_) => {
                return Err(FsError::Io);
            },
        }
        proof {
            self.cache.lemma_idle_can_pin(block_id as usize);
        }
        let handle = match self.cache.get(block_id as usize) {
            Ok(handle) => handle,
            Err(e) => {
                return Err(e);
            },
        };
        self.cache.modify(&handle, offset, src);
        self.cache.release(handle);
        Ok(())
    }

    /// Stores `inode` as the record of inode `inode_id`, in the cache.
    ///
    /// An inode without a slot is refused with `InvalidInode`. A failure
    /// changes nothing.
    pub fn write_disk_inode(&mut self, inode_id: u32, inode: &DiskInode) -> (res: Result<
        (),
        FsError,
    >)
        requires
            old(self).wf(),
        ensures
            final(self).wf(),
            final(self).regions() == old(self).regions(),
            match res {
                Ok(()) => {
                    &&& old(self).has_inode_slot(inode_id)
                    &&& final(self)@ == old(self).after_write_inode(old(self)@, inode_id, inode@)
                },
                Err(e) => {
                    &&& e == FsError::InvalidInode || e == FsError::Io
                    &&& e == FsError::InvalidInode <==> !old(self).has_inode_slot(inode_id)
                    &&& final(self)@ == old(self)@
                },
            },
            old(self).has_inode_slot(inode_id) && old(self).is_cached(
                old(self).inode_block(inode_id),
            ) ==> res is Ok,
            old(self).is_cached(old(self).inode_block(inode_id)) ==> forall|id: usize| #[trigger]
                final(self).is_cached(id) == old(self).is_cached(id),
            res is Ok ==> final(self).is_cached(old(self).inode_block(inode_id)),
            res is Ok ==> final(self).is_most_recent(old(self).inode_block(inode_id)),
            res is Ok ==> written_back(
                final(self).device_view(),
                old(self).device_view(),
                old(self)@,
            ),
            forall|x: usize|
                old(self).is_most_recent(x) ==> #[trigger] final(self).is_cached(x),
    {
        if !self.inode_in_area(inode_id) {
            return Err(FsError::InvalidInode);
        }
        let (block_id, offset) = self.get_disk_inode_pos(inode_id);
        proof {
            self.cache.lemma_idle_can_pin(block_id as usize);
            self.cache.lemma_view_sized();
        }
        let handle = match self.cache.get(block_id as usize) {
            Ok(handle) => handle,
            Err(e) => {
                return Err(e);
            },
        };
        let bytes = inode.encode();
        self.cache.modify(&handle, offset, bytes.as_slice());
        self.cache.release(handle);
        Ok(())
    }

    /// The record of inode `inode_id`.
    ///
    /// An inode without a slot, or one whose record has no known kind, is
    /// refused with `InvalidInode`. The content of the disk stays as it is.
    pub fn read_disk_inode(&mut self, inode_id: u32) -> (res: Result<DiskInode, FsError>)
        requires
            old(self).wf(),
        ensures
            final(self).wf(),
            final(self).regions() == old(self).regions(),
            final(self)@ == old(self)@,
            match res {
                Ok(inode) => {
                    &&& old(self).has_inode_slot(inode_id)
                    &&& old(self).record_of(inode_id) == Some(inode@)
                },
                Err(e) => {
                    &&& e == FsError::InvalidInode || e == FsError::Io
                    &&& e == FsError::InvalidInode ==> !old(self).has_inode_slot(inode_id)
                        || old(self).record_of(inode_id) is None
                },
            },
            !old(self).has_inode_slot(inode_id) ==> res == Err::<DiskInode, FsError>(
                FsError::InvalidInode,
            ),
            old(self).is_cached(old(self).inode_block(inode_id)) ==> forall|id: usize| #[trigger]
                final(self).is_cached(id) == old(self).is_cached(id),
            res is Ok ==> final(self).is_cached(old(self).inode_block(inode_id)),
            res is Ok ==> final(self).is_most_recent(old(self).inode_block(inode_id)),
            res is Ok ==> written_back(
                final(self).device_view(),
                old(self).device_view(),
                old(self)@,
            ),
            forall|x: usize|
                old(self).is_most_recent(x) ==> #[trigger] final(self).is_cached(x),
            old(self).is_cached(old(self).inode_block(inode_id)) ==> res != Err::<
                DiskInode,
                FsError,
            >(FsError::Io),
    {
        if !self.inode_in_area(inode_id) {
            return Err(FsError::InvalidInode);
        }
        let (block_id, offset) = self.get_disk_inode_pos(inode_id);
        proof {
            self.cache.lemma_idle_can_pin(block_id as usize);
            self.cache.lemma_view_sized();
        }
        let handle = match self.cache.get(block_id as usize) {
            Ok(handle) => handle,
            Err(e) => {
                return Err(e);
            },
        };
        let decoded = DiskInode::decode(self.cache.read(&handle, offset, INODE_SZ));
        self.cache.release(handle);
        match decoded {
            Some(inode) => Ok(inode),
            None => Err(FsError::InvalidInode),
        }
    }

    /// The record that `disk` holds for inode `inode_id`, if its kind is known.
    pub open spec fn record_in(&self, disk: Disk, inode_id: u32) -> Option<DiskInodeView> {
        DiskInodeView::from_bytes(
            disk[self.inode_block(inode_id)].subrange(
                self.inode_offset(inode_id),
                self.inode_offset(inode_id) + INODE_SZ,
            ),
        )
    }

    /// The record that the filesystem holds for inode `inode_id`, if its kind is known.
    pub open spec fn record_of(&self, inode_id: u32) -> Option<DiskInodeView> {
        self.record_in(self@, inode_id)
    }

    /// `disk` after `inode` is stored as the record of inode `inode_id`.
    pub open spec fn after_write_inode(
        &self,
        disk: Disk,
        inode_id: u32,
        inode: DiskInodeView,
    ) -> Disk {
        disk.insert(
            self.inode_block(inode_id),
            splice(
                disk[self.inode_block(inode_id)],
                self.inode_offset(inode_id),
                inode.bytes(),
            ),
        )
    }

    /// Whether inode `inode_id` has a slot.
    fn inode_in_area(&self, inode_id: u32) -> (res: bool)
        requires
            self.wf(),
        ensures
            res == self.has_inode_slot(inode_id),
    {
        let block = self.inode_area_start_block as u64 + (inode_id / INODES_PER_BLOCK) as u64;
        (inode_id as usize) < self.inode_bitmap.maximum() && block
            < self.data_bitmap.start_block_id() as u64
    }

    /// Writes every change held in the cache to the device. On success the
    /// device holds what the filesystem shows. A filesystem without changes
    /// in its cache needs no transfer, so its sync succeeds and leaves the
    /// device alone.
    pub fn sync(&mut self) -> (res: Result<(), FsError>)
        requires
            old(self).wf(),
        ensures
            final(self).wf(),
            final(self).regions() == old(self).regions(),
            final(self)@ == old(self)@,
            match res {
                Ok(()) => final(self).is_clean() && forall|id: usize| #[trigger]
                    final(self).device_view()[id] == old(self)@[id],
                Err(e) => e == FsError::Io,
            },
            old(self).is_clean() ==> res is Ok && final(self).device_view() == old(self).device_view(),
            forall|id: usize| #[trigger]
                final(self).is_cached(id) == old(self).is_cached(id),
            forall|id: usize| #[trigger]
                final(self).is_most_recent(id) == old(self).is_most_recent(id),
    {
        let res = self.cache.sync_all();
        proof {
            if res is Ok {
                assert(cleaned(cleaned(old(self).cache.slots())) =~= cleaned(
                    old(self).cache.slots(),
                ));
            }
        }
        res
    }

    /// Releases inode `inode_id`: its bit is cleared. Its record and the
    /// blocks of its content stay as they are; whoever owns the content
    /// releases those blocks first.
    ///
    /// An inode that is not allocated is refused with `NotAllocated`, so an
    /// inode is never released twice. A failure changes nothing. Where the
    /// block of the bit is cached, no transfer is needed and none can fail.
    pub fn dealloc_inode(&mut self, inode_id: u32) -> (res: Result<(), FsError>)
        requires
            old(self).wf(),
        ensures
            final(self).wf(),
            final(self).regions() == old(self).regions(),
            match res {
                Ok(()) => {
                    &&& old(self).inode_allocated(old(self)@, inode_id)
                    &&& final(self)@ == old(self).inode_map().after_dealloc(
                        old(self)@,
                        inode_id as int,
                    )
                },
                Err(e) => {
                    &&& e == FsError::NotAllocated || e == FsError::Io
                    &&& e == FsError::NotAllocated ==> !old(self).inode_allocated(
                        old(self)@,
                        inode_id,
                    )
                    &&& final(self)@ == old(self)@
                },
            },
            inode_id >= old(self).inode_map().capacity() ==> res == Err::<(), FsError>(
                FsError::NotAllocated,
            ),
            old(self).is_cached(old(self).inode_bit_block(inode_id)) ==> (res is Ok <==> old(self).inode_allocated(old(self)@, inode_id)) && (res is Err ==> res == Err::<(), FsError>(
                FsError::NotAllocated,
            )),
            inode_id >= old(self).inode_map().capacity() || old(self).is_cached(
                old(self).inode_bit_block(inode_id),
            ) ==> forall|id: usize| #[trigger]
                final(self).is_cached(id) == old(self).is_cached(id),
            res is Ok ==> final(self).is_cached(old(self).inode_bit_block(inode_id)),
            res is Ok ==> final(self).is_most_recent(old(self).inode_bit_block(inode_id)),
            res is Ok ==> written_back(
                final(self).device_view(),
                old(self).device_view(),
                old(self)@,
            ),
            forall|x: usize|
                old(self).is_most_recent(x) ==> #[trigger] final(self).is_cached(x),
    {
        proof {
            if inode_id < self.inode_bitmap.capacity() {
                self.inode_bitmap.lemma_block_of(inode_id as int, inode_id as int);
            }
        }
        match self.inode_bitmap.deallocate(&mut self.cache, inode_id as usize) {
            Ok(()) => Ok(()),
            Err(FsError::NotAllocated) => Err(FsError::NotAllocated),
            Err(_) => Err(FsError::Io),
        }
    }

    /// Every block that a sound filesystem shows holds `BLOCK_SZ` bytes.
    pub proof fn lemma_view_sized(&self)
        requires
            self.wf(),
        ensures
            disk_sized(self@),
            disk_sized(self.device_view()),
    {
        self.cache.lemma_view_sized();
    }

    /// Gives the device back, as it is: changes not yet written to it are lost.
    pub fn into_device(self) -> (device: D)
        ensures
            disk_of(&device) == self.device_view(),
    {
        self.cache.into_device()
    }

    /// Makes a new filesystem as `format` does and returns it behind a
    /// lock, to be shared. A geometry that cannot be laid out is refused
    /// with `InvalidLayout`; `Io` says that a transfer failed.
    pub fn create(device: D, total_blocks: u32, inode_bitmap_blocks: u32) -> (res: Result<
        Arc<Mutex<Self>>,
        FsError,
    >)
        ensures
            res is Ok ==> layout_valid(total_blocks, inode_bitmap_blocks),
            match res {
                Ok(_) => true,
                Err(e) => {
                    &&& e == FsError::InvalidLayout || e == FsError::Io
                    &&& e == FsError::InvalidLayout <==> !layout_valid(
                        total_blocks,
                        inode_bitmap_blocks,
                    )
                },
            },
    {
        match Self::format(device, total_blocks, inode_bitmap_blocks) {
            Ok(fs) => Ok(Arc::new(Mutex::new(fs))),
            Err(e) => Err(e),
        }
    }

    /// Mounts the filesystem that `device` holds as `mount` does and
    /// returns it behind a lock, to be shared. `InvalidFilesystem` says that
    /// block 0 holds no superblock that can be mounted; `Io` that it could
    /// not be read.
    pub fn open(device: D) -> (res: Result<Arc<Mutex<Self>>, FsError>)
        ensures
            res is Ok ==> SuperBlock::from_bytes(disk_of(&device)[0]).mountable(),
            match res {
                Ok(_) => true,
                Err(e) => {
                    &&& e == FsError::Io || e == FsError::InvalidFilesystem
                    &&& e == FsError::InvalidFilesystem ==> !SuperBlock::from_bytes(disk_of(&device)[0]).mountable()
                },
            },
    {
        match Self::mount(device) {
            Ok(fs) => Ok(Arc::new(Mutex::new(fs))),
            Err(e) => Err(e),
        }
    }

    /// The handle of the root directory, inode 0, of a shared filesystem.
    ///
    /// The lock is held while the place of the record is computed and is
    /// free again when the handle is returned. The record starts at byte 0
    /// of the first block of the inode area.
    pub fn root_inode(efs: &Arc<Mutex<Self>>) -> (inode: Inode<D>)
        ensures
            inode.spec_block_offset() == 0,
            inode.spec_fs() == *efs,
    {
        let (block_id, block_offset) = Self::locked_root_pos(efs);
        Inode::new(block_id, block_offset, Arc::clone(efs))
    }

    /// The place of inode 0, computed under the lock.
    fn locked_root_pos(efs: &Arc<Mutex<Self>>) -> (pos: (u32, usize))
        ensures
            pos.1 == 0,
    {
        let guard = efs.lock();
        let fs = guarded(&guard);
        fs.get_disk_inode_pos(0)
    }

    /// Opening gives back what creating laid out: a filesystem mounted from
    /// a device whose block 0 is block 0 of a sound filesystem has the
    /// regions of that filesystem. No bitmap is read for it.
    pub proof fn lemma_reopened_regions(&self, reopened: &Self)
        requires
            self.wf(),
            reopened.laid_out_as(SuperBlock::from_bytes(self@[0])),
        ensures
            reopened.regions() == self.regions(),
    {
        self.inode_map().lemma_same_region(reopened.inode_map());
        self.data_map().lemma_same_region(reopened.data_map());
    }

    /// A record that is stored is the record that is read: after `inode`
    /// is stored as the record of an inode, that inode has record `inode`.
    pub proof fn lemma_written_record_is_read(
        &self,
        disk: Disk,
        inode_id: u32,
        inode: DiskInodeView,
    )
        requires
            disk_sized(disk),
            inode.direct.len() == INODE_DIRECT_COUNT,
        ensures
            self.record_in(self.after_write_inode(disk, inode_id, inode), inode_id) == Some(inode),
    {
        let block = disk[self.inode_block(inode_id)];
        let offset = self.inode_offset(inode_id);
        assert(block.len() == BLOCK_SZ);
        inode.lemma_round_trip(Seq::<u8>::empty());
        assert(inode.bytes() + Seq::<u8>::empty() =~= inode.bytes());
        lemma_read_after_modify(block, offset, inode.bytes());
    }

    /// A data block that is released and handed out again reads as zero
    /// bytes: nothing its former owner stored in it is left.
    pub proof fn lemma_reused_block_is_zero(&self, disk: Disk, block_id: u32)
        requires
            self.wf(),
            disk_sized(disk),
            self.data_block_allocated(disk, block_id),
            self.data_map().is_lowest_free(
                self.after_dealloc_data(disk, block_id),
                block_id - self.data_area_start(),
            ),
        ensures
            self.after_alloc_data(self.after_dealloc_data(disk, block_id), block_id)[block_id as usize]
                == zero_block(),
            !self.data_block_allocated(self.after_dealloc_data(disk, block_id), block_id),
            self.data_block_allocated(
                self.after_alloc_data(self.after_dealloc_data(disk, block_id), block_id),
                block_id,
            ),
    {
        let bit = block_id - self.data_area_start();
        let zeroed = disk.insert(block_id as usize, zero_block());
        assert(disk_sized(zeroed)) by {
            assert forall|id: usize| (#[trigger] zeroed[id]).len() == BLOCK_SZ by {
                assert(disk[id].len() == BLOCK_SZ);
            }
        }
        self.data_map().lemma_block_of(bit, bit);
        self.data_map().lemma_after_dealloc(zeroed, bit, bit);
        self.data_map().lemma_after_alloc(self.after_dealloc_data(disk, block_id), bit, bit);
    }
}

/// Block 0 of a new filesystem holds the superblock of its layout, and that
/// superblock can be mounted: what `create` writes, `open` accepts, and
/// reads as the layout that `create` computed.
pub proof fn lemma_created_can_be_opened(total_blocks: u32, inode_bitmap_blocks: u32)
    requires
        layout_valid(total_blocks, inode_bitmap_blocks),
    ensures
        SuperBlock::from_bytes(fresh_block(total_blocks, inode_bitmap_blocks, 0)) == layout_for(
            total_blocks,
            inode_bitmap_blocks,
        ),
        layout_for(total_blocks, inode_bitmap_blocks).mountable(),
{
    let sb = layout_for(total_blocks, inode_bitmap_blocks);
    let rest = Seq::new((BLOCK_SZ - SUPER_BLOCK_SZ) as nat, |k: int| 0u8);
    sb.lemma_round_trip(rest);
    assert(fresh_block(total_blocks, inode_bitmap_blocks, 0) =~= sb.bytes() + rest);
}

} // verus!
