use std::cell::Cell;
use std::rc::Rc;

use easy_fs::bitmap::Bitmap;
use easy_fs::block_cache::BlockCacheManager;
use easy_fs::config::{BLOCK_BITS, BLOCK_SZ};
use easy_fs::device::{BlockDevice, IoError, RamDisk};
use easy_fs::error::FsError;

/// A device in memory whose transfers can be made to fail.
struct SwitchDisk {
    inner: RamDisk,
    failing: Rc<Cell<bool>>,
}

impl BlockDevice for SwitchDisk {
    fn read_block(&self, block_id: usize, buf: &mut [u8; BLOCK_SZ]) -> Result<(), IoError> {
        if self.failing.get() {
            return Err(IoError);
        }
        self.inner.read_block(block_id, buf)
    }

    fn write_block(&mut self, block_id: usize, buf: &[u8; BLOCK_SZ]) -> Result<(), IoError> {
        if self.failing.get() {
            return Err(IoError);
        }
        self.inner.write_block(block_id, buf)
    }
}

fn block_of(cache: &mut BlockCacheManager<RamDisk>, id: usize) -> Vec<u8> {
    let handle = cache.get(id).unwrap();
    let bytes = cache.read(&handle, 0, BLOCK_SZ).to_vec();
    cache.release(handle);
    bytes
}

#[test]
fn maximum_is_blocks_times_bits_per_block() {
    assert_eq!(Bitmap::new(1, 0).maximum(), 0);
    assert_eq!(Bitmap::new(1, 1).maximum(), 4096);
    assert_eq!(Bitmap::new(7, 3).maximum(), 3 * BLOCK_BITS);
    let bitmap = Bitmap::new(7, 3);
    assert_eq!(bitmap.start_block_id(), 7);
    assert_eq!(bitmap.blocks(), 3);
}

#[test]
fn allocation_counts_up_and_then_runs_out() {
    let mut cache = BlockCacheManager::new(RamDisk::new(4));
    let bitmap = Bitmap::new(1, 2);
    for expected in 0..bitmap.maximum() {
        assert_eq!(bitmap.allocate(&mut cache), Ok(Some(expected)));
    }
    assert_eq!(bitmap.allocate(&mut cache), Ok(None));
    assert_eq!(bitmap.allocate(&mut cache), Ok(None));
    assert_eq!(block_of(&mut cache, 1), vec![0xffu8; BLOCK_SZ]);
    assert_eq!(block_of(&mut cache, 2), vec![0xffu8; BLOCK_SZ]);
    assert_eq!(block_of(&mut cache, 0), vec![0u8; BLOCK_SZ]);
    assert_eq!(block_of(&mut cache, 3), vec![0u8; BLOCK_SZ]);
}

#[test]
fn released_units_come_back_lowest_first() {
    let mut cache = BlockCacheManager::new(RamDisk::new(4));
    let bitmap = Bitmap::new(0, 1);
    for expected in 0..200 {
        assert_eq!(bitmap.allocate(&mut cache), Ok(Some(expected)));
    }
    assert_eq!(bitmap.deallocate(&mut cache, 130), Ok(()));
    assert_eq!(bitmap.deallocate(&mut cache, 7), Ok(()));
    assert_eq!(bitmap.deallocate(&mut cache, 64), Ok(()));
    assert_eq!(bitmap.allocate(&mut cache), Ok(Some(7)));
    assert_eq!(bitmap.allocate(&mut cache), Ok(Some(64)));
    assert_eq!(bitmap.allocate(&mut cache), Ok(Some(130)));
    assert_eq!(bitmap.allocate(&mut cache), Ok(Some(200)));
}

#[test]
fn exhausted_region_hands_out_a_released_unit() {
    let mut cache = BlockCacheManager::new(RamDisk::new(2));
    let bitmap = Bitmap::new(0, 1);
    for _ in 0..BLOCK_BITS {
        assert!(bitmap.allocate(&mut cache).unwrap().is_some());
    }
    assert_eq!(bitmap.allocate(&mut cache), Ok(None));
    assert_eq!(bitmap.deallocate(&mut cache, 4095), Ok(()));
    assert_eq!(bitmap.allocate(&mut cache), Ok(Some(4095)));
    assert_eq!(bitmap.allocate(&mut cache), Ok(None));
}

#[test]
fn releasing_twice_is_refused() {
    let mut cache = BlockCacheManager::new(RamDisk::new(4));
    let bitmap = Bitmap::new(1, 1);
    assert_eq!(bitmap.allocate(&mut cache), Ok(Some(0)));
    assert_eq!(bitmap.allocate(&mut cache), Ok(Some(1)));
    assert_eq!(bitmap.deallocate(&mut cache, 1), Ok(()));
    let before = block_of(&mut cache, 1);
    assert_eq!(bitmap.deallocate(&mut cache, 1), Err(FsError::NotAllocated));
    assert_eq!(block_of(&mut cache, 1), before);
    assert_eq!(bitmap.deallocate(&mut cache, 9), Err(FsError::NotAllocated));
    assert_eq!(bitmap.deallocate(&mut cache, 0), Ok(()));
    assert_eq!(bitmap.deallocate(&mut cache, 0), Err(FsError::NotAllocated));
    assert_eq!(block_of(&mut cache, 1), vec![0u8; BLOCK_SZ]);
}

#[test]
fn releasing_beyond_the_region_is_refused() {
    let mut cache = BlockCacheManager::new(RamDisk::new(4));
    let bitmap = Bitmap::new(1, 1);
    assert_eq!(bitmap.deallocate(&mut cache, 4096), Err(FsError::NotAllocated));
    assert_eq!(bitmap.deallocate(&mut cache, usize::MAX), Err(FsError::NotAllocated));
    assert_eq!(Bitmap::new(1, 0).allocate(&mut cache), Ok(None));
    assert_eq!(Bitmap::new(1, 0).deallocate(&mut cache, 0), Err(FsError::NotAllocated));
}

#[test]
fn bits_are_laid_out_as_little_endian_words() {
    let mut cache = BlockCacheManager::new(RamDisk::new(4));
    let bitmap = Bitmap::new(2, 1);
    for _ in 0..9 {
        bitmap.allocate(&mut cache).unwrap();
    }
    let block = block_of(&mut cache, 2);
    assert_eq!(block[0], 0xff);
    assert_eq!(block[1], 0x01);
    assert_eq!(&block[2..], &[0u8; BLOCK_SZ - 2][..]);
    let word = u64::from_le_bytes(block[0..8].try_into().unwrap());
    assert_eq!(word, 0x1ff);
    assert_eq!(word.trailing_ones(), 9);
    assert_eq!(bitmap.deallocate(&mut cache, 3), Ok(()));
    let block = block_of(&mut cache, 2);
    assert_eq!(block[0], 0xf7);
    for _ in 0..(64 + 9 - 8) {
        bitmap.allocate(&mut cache).unwrap();
    }
    let block = block_of(&mut cache, 2);
    assert_eq!(u64::from_le_bytes(block[0..8].try_into().unwrap()), u64::MAX);
    assert_eq!(u64::from_le_bytes(block[8..16].try_into().unwrap()), 0x1ff);
}

#[test]
fn allocation_moves_on_to_the_next_block() {
    let mut cache = BlockCacheManager::new(RamDisk::new(8));
    let bitmap = Bitmap::new(3, 2);
    for _ in 0..BLOCK_BITS {
        bitmap.allocate(&mut cache).unwrap();
    }
    assert_eq!(bitmap.allocate(&mut cache), Ok(Some(4096)));
    assert_eq!(block_of(&mut cache, 4)[0], 0x01);
    assert_eq!(bitmap.deallocate(&mut cache, 4096), Ok(()));
    assert_eq!(block_of(&mut cache, 4), vec![0u8; BLOCK_SZ]);
    assert_eq!(block_of(&mut cache, 3), vec![0xffu8; BLOCK_SZ]);
    assert_eq!(bitmap.deallocate(&mut cache, 4000), Ok(()));
    assert_eq!(bitmap.allocate(&mut cache), Ok(Some(4000)));
}

#[test]
fn is_allocated_follows_the_bits() {
    let mut cache = BlockCacheManager::new(RamDisk::new(4));
    let bitmap = Bitmap::new(1, 1);
    assert_eq!(bitmap.is_allocated(&mut cache, 0), Ok(false));
    assert_eq!(bitmap.allocate(&mut cache), Ok(Some(0)));
    assert_eq!(bitmap.is_allocated(&mut cache, 0), Ok(true));
    assert_eq!(bitmap.is_allocated(&mut cache, 1), Ok(false));
    assert_eq!(bitmap.is_allocated(&mut cache, 4096), Ok(false));
    assert_eq!(bitmap.deallocate(&mut cache, 0), Ok(()));
    assert_eq!(bitmap.is_allocated(&mut cache, 0), Ok(false));
}

#[test]
fn changes_stay_in_the_cache_until_written_back() {
    let mut cache = BlockCacheManager::new(RamDisk::new(4));
    let bitmap = Bitmap::new(1, 1);
    assert_eq!(bitmap.allocate(&mut cache), Ok(Some(0)));
    let mut buf = [0xeeu8; BLOCK_SZ];
    cache.device().read_block(1, &mut buf).unwrap();
    assert_eq!(buf, [0u8; BLOCK_SZ]);
    cache.sync_all().unwrap();
    cache.device().read_block(1, &mut buf).unwrap();
    assert_eq!(buf[0], 1);
}

#[test]
fn a_failed_transfer_is_reported_and_leaves_the_bitmap() {
    let failing = Rc::new(Cell::new(false));
    let disk = SwitchDisk { inner: RamDisk::new(4), failing: failing.clone() };
    let mut cache = BlockCacheManager::new(disk);
    let bitmap = Bitmap::new(1, 2);
    failing.set(true);
    assert_eq!(bitmap.allocate(&mut cache), Err(FsError::Io));
    assert_eq!(bitmap.deallocate(&mut cache, 0), Err(FsError::Io));
    assert_eq!(bitmap.is_allocated(&mut cache, 0), Err(FsError::Io));
    failing.set(false);
    assert_eq!(bitmap.allocate(&mut cache), Ok(Some(0)));
    failing.set(true);
    assert_eq!(bitmap.allocate(&mut cache), Ok(Some(1)));
    assert_eq!(bitmap.deallocate(&mut cache, 0), Ok(()));
    assert_eq!(bitmap.deallocate(&mut cache, 5000), Err(FsError::Io));
    assert_eq!(bitmap.deallocate(&mut cache, 9000), Err(FsError::NotAllocated));
}

#[test]
fn a_cache_in_use_does_not_stop_allocation_from_cached_blocks() {
    let mut cache = BlockCacheManager::new(RamDisk::new(64));
    let bitmap = Bitmap::new(0, 1);
    let mut handles = Vec::new();
    for id in 0..16 {
        handles.push(cache.get(id).unwrap());
    }
    assert_eq!(bitmap.allocate(&mut cache), Ok(Some(0)));
    assert_eq!(Bitmap::new(20, 1).allocate(&mut cache), Err(FsError::CacheExhausted));
    for handle in handles {
        cache.release(handle);
    }
    assert_eq!(Bitmap::new(20, 1).allocate(&mut cache), Ok(Some(0)));
}

#[test]
fn a_bounded_region_hands_out_its_units_only() {
    let mut cache = BlockCacheManager::new(RamDisk::new(8));
    let bitmap = Bitmap::bounded(1, 2, 4096 + 3);
    assert_eq!(bitmap.maximum(), 4099);
    assert_eq!(bitmap.blocks(), 2);
    for expected in 0..4099 {
        assert_eq!(bitmap.allocate(&mut cache), Ok(Some(expected)));
    }
    assert_eq!(bitmap.allocate(&mut cache), Ok(None));
    assert_eq!(block_of(&mut cache, 2)[0], 0b111);
    assert_eq!(bitmap.deallocate(&mut cache, 4099), Err(FsError::NotAllocated));
    assert_eq!(bitmap.is_allocated(&mut cache, 4099), Ok(false));
    assert_eq!(bitmap.is_allocated(&mut cache, 4098), Ok(true));
    assert_eq!(bitmap.deallocate(&mut cache, 4098), Ok(()));
    assert_eq!(bitmap.allocate(&mut cache), Ok(Some(4098)));
    assert_eq!(bitmap.allocate(&mut cache), Ok(None));
}

#[test]
fn a_bounded_region_passes_over_spare_bits() {
    let mut disk = RamDisk::new(4);
    let mut block = [0u8; BLOCK_SZ];
    block[0] = 0b0001_0111;
    disk.write_block(0, &block).unwrap();
    let mut cache = BlockCacheManager::new(disk);
    let bitmap = Bitmap::bounded(0, 1, 4);
    assert_eq!(bitmap.allocate(&mut cache), Ok(Some(3)));
    assert_eq!(bitmap.allocate(&mut cache), Ok(None));
    assert_eq!(block_of(&mut cache, 0)[0], 0b0001_1111);
    assert_eq!(bitmap.deallocate(&mut cache, 4), Err(FsError::NotAllocated));
    assert_eq!(block_of(&mut cache, 0)[0], 0b0001_1111);
}

#[test]
fn a_region_without_units_needs_no_transfer() {
    let failing = Rc::new(Cell::new(true));
    let disk = SwitchDisk { inner: RamDisk::new(4), failing: failing.clone() };
    let mut cache = BlockCacheManager::new(disk);
    let bitmap = Bitmap::bounded(1, 2, 0);
    assert_eq!(bitmap.maximum(), 0);
    assert_eq!(bitmap.allocate(&mut cache), Ok(None));
    assert_eq!(bitmap.deallocate(&mut cache, 0), Err(FsError::NotAllocated));
    let bitmap = Bitmap::bounded(1, 2, 4096);
    assert_eq!(bitmap.allocate(&mut cache), Err(FsError::Io));
    failing.set(false);
    for _ in 0..4096 {
        assert!(bitmap.allocate(&mut cache).unwrap().is_some());
    }
    failing.set(true);
    assert_eq!(bitmap.allocate(&mut cache), Ok(None));
}
