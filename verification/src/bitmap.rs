//! The bitmap allocator: a run of blocks read as one array of bits, one bit
//! for each unit that can be allocated.
//!
//! Bit `n` of a region lives in the block `n / BLOCK_BITS` of the region, at
//! byte `(n % BLOCK_BITS) / 8` of that block, at position `n % 8` of that
//! byte, counted from the least significant bit. That is the order of the
//! bits of little-endian 64-bit words laid out one after the other.

use vstd::prelude::*;
use crate::block_cache::{BlockCacheManager, Slot, cached, splice, written_back};
use crate::config::{BLOCK_BITS, BLOCK_SZ, Disk, disk_sized};
use crate::device::BlockDevice;
use crate::error::FsError;

verus! {

/// Whether bit `k` of `byte` is one.
pub open spec fn bit_of(byte: u8, k: int) -> bool {
    0 <= k < 8 && (byte >> (k as u8)) & 1u8 == 1u8
}

/// Whether bit `i` of a bitmap block is one.
pub open spec fn block_bit(block: Seq<u8>, i: int) -> bool {
    bit_of(block[i / 8], i % 8)
}

/// `byte` with bit `k` set to one.
pub open spec fn byte_with(byte: u8, k: int) -> u8 {
    byte | (1u8 << (k as u8))
}

/// `byte` with bit `k` set to zero.
pub open spec fn byte_without(byte: u8, k: int) -> u8 {
    byte & !(1u8 << (k as u8))
}

/// A bitmap block with bit `i` set to one.
pub open spec fn block_with(block: Seq<u8>, i: int) -> Seq<u8> {
    block.update(i / 8, byte_with(block[i / 8], i % 8))
}

/// A bitmap block with bit `i` set to zero.
pub open spec fn block_without(block: Seq<u8>, i: int) -> Seq<u8> {
    block.update(i / 8, byte_without(block[i / 8], i % 8))
}

proof fn lemma_byte_with(b: u8, k: u8, j: u8)
    by (bit_vector)
    requires
        k < 8,
        j < 8,
    ensures
        ((b | (1u8 << k)) >> j) & 1u8 == 1u8 <==> (j == k || (b >> j) & 1u8 == 1u8),
{
}

proof fn lemma_byte_without(b: u8, k: u8, j: u8)
    by (bit_vector)
    requires
        k < 8,
        j < 8,
    ensures
        ((b & !(1u8 << k)) >> j) & 1u8 == 1u8 <==> (j != k && (b >> j) & 1u8 == 1u8),
{
}

proof fn lemma_byte_full(b: u8, j: u8)
    by (bit_vector)
    requires
        j < 8,
        b == 0xffu8,
    ensures
        (b >> j) & 1u8 == 1u8,
{
}

proof fn lemma_byte_all_ones(b: u8)
    by (bit_vector)
    requires
        (b >> 0u8) & 1u8 == 1u8,
        (b >> 1u8) & 1u8 == 1u8,
        (b >> 2u8) & 1u8 == 1u8,
        (b >> 3u8) & 1u8 == 1u8,
        (b >> 4u8) & 1u8 == 1u8,
        (b >> 5u8) & 1u8 == 1u8,
        (b >> 6u8) & 1u8 == 1u8,
        (b >> 7u8) & 1u8 == 1u8,
    ensures
        b == 0xffu8,
{
}

proof fn lemma_byte_zero(j: u8)
    by (bit_vector)
    requires
        j < 8,
    ensures
        (0u8 >> j) & 1u8 == 0u8,
{
}

/// Setting a bit of a byte makes that bit one and keeps the others.
pub proof fn lemma_bit_of_with(byte: u8, k: int, j: int)
    requires
        0 <= k < 8,
        0 <= j < 8,
    ensures
        bit_of(byte_with(byte, k), j) == (j == k || bit_of(byte, j)),
{
    lemma_byte_with(byte, k as u8, j as u8);
}

/// Clearing a bit of a byte makes that bit zero and keeps the others.
pub proof fn lemma_bit_of_without(byte: u8, k: int, j: int)
    requires
        0 <= k < 8,
        0 <= j < 8,
    ensures
        bit_of(byte_without(byte, k), j) == (j != k && bit_of(byte, j)),
{
    lemma_byte_without(byte, k as u8, j as u8);
}

/// Setting a bit of a block makes that bit one and keeps the others.
pub proof fn lemma_block_with(block: Seq<u8>, i: int, m: int)
    requires
        block.len() == BLOCK_SZ,
        0 <= i < BLOCK_BITS,
        0 <= m < BLOCK_BITS,
    ensures
        block_with(block, i).len() == BLOCK_SZ,
        block_bit(block_with(block, i), m) == (m == i || block_bit(block, m)),
{
    if m / 8 == i / 8 {
        lemma_bit_of_with(block[i / 8], i % 8, m % 8);
    }
}

/// Clearing a bit of a block makes that bit zero and keeps the others.
pub proof fn lemma_block_without(block: Seq<u8>, i: int, m: int)
    requires
        block.len() == BLOCK_SZ,
        0 <= i < BLOCK_BITS,
        0 <= m < BLOCK_BITS,
    ensures
        block_without(block, i).len() == BLOCK_SZ,
        block_bit(block_without(block, i), m) == (m != i && block_bit(block, m)),
{
    if m / 8 == i / 8 {
        lemma_bit_of_without(block[i / 8], i % 8, m % 8);
    }
}

/// No bit of a zero byte is one.
pub proof fn lemma_bit_of_zero(k: int)
    ensures
        !bit_of(0u8, k),
{
    if 0 <= k < 8 {
        lemma_byte_zero(k as u8);
    }
}

/// The position of the lowest zero bit of a byte that has one.
fn lowest_zero_bit(byte: u8) -> (k: u8)
    requires
        byte != 0xffu8,
    ensures
        k < 8,
        !bit_of(byte, k as int),
        forall|j: int| 0 <= j < k ==> bit_of(byte, j),
{
    let mut k: u8 = 0;
    while k < 8
        invariant
            k <= 8,
            byte != 0xffu8,
            forall|j: int| 0 <= j < k ==> bit_of(byte, j),
        decreases 8 - k,
    {
        if (byte >> k) & 1u8 != 1u8 {
            return k;
        }
        k = k + 1;
    }
    proof {
        assert(bit_of(byte, 0) && bit_of(byte, 1) && bit_of(byte, 2) && bit_of(byte, 3));
        assert(bit_of(byte, 4) && bit_of(byte, 5) && bit_of(byte, 6) && bit_of(byte, 7));
        lemma_byte_all_ones(byte);
    }
    0
}

/// The lowest zero bit of a bitmap block, if it has one.
fn first_clear_bit(bytes: &[u8]) -> (res: Option<usize>)
    requires
        bytes@.len() == BLOCK_SZ,
    ensures
        match res {
            Some(i) => {
                &&& i < BLOCK_BITS
                &&& !block_bit(bytes@, i as int)
                &&& forall|m: int| 0 <= m < i ==> block_bit(bytes@, m)
            },
            None => forall|m: int| 0 <= m < BLOCK_BITS ==> block_bit(bytes@, m),
        },
{
    let mut k: usize = 0;
    while k < BLOCK_SZ
        invariant
            k <= BLOCK_SZ,
            bytes@.len() == BLOCK_SZ,
            forall|m: int| 0 <= m < k * 8 ==> block_bit(bytes@, m),
        decreases BLOCK_SZ - k,
    {
        let byte = bytes[k];
        if byte != 0xffu8 {
            let j = lowest_zero_bit(byte);
            let i = k * 8 + j as usize;
            assert(i as int / 8 == k as int && i as int % 8 == j as int);
            assert forall|m: int| 0 <= m < i implies block_bit(bytes@, m) by {
                if m >= k * 8 {
                    assert(m / 8 == k as int && m % 8 < j);
                }
            }
            return Some(i);
        }
        assert forall|m: int| 0 <= m < (k + 1) * 8 implies block_bit(bytes@, m) by {
            if m >= k * 8 {
                assert(m / 8 == k as int);
                lemma_byte_full(byte, (m % 8) as u8);
            }
        }
        k = k + 1;
    }
    None
}

/// A region of bitmap blocks: `blocks` blocks from block `start_block_id`
/// on, of which the first `units` bits stand for a unit each.
pub struct Bitmap {
    start_block_id: usize,
    blocks: usize,
    units: usize,
}

impl Bitmap {
    /// The region lies within the range of block indices, and its bits can be counted.
    #[verifier::type_invariant]
    pub open spec fn wf(&self) -> bool {
        &&& self.start() + self.len() <= usize::MAX
        &&& self.units() <= self.len() * BLOCK_BITS
    }

    /// The first block of the region.
    pub closed spec fn start(&self) -> usize {
        self.start_block_id
    }

    /// The number of blocks of the region.
    pub closed spec fn len(&self) -> usize {
        self.blocks
    }

    /// The number of bits of the region that stand for a unit.
    pub closed spec fn units(&self) -> usize {
        self.units
    }

    /// The number of units of the region: they are the bits `0` up to, not
    /// including, `capacity()`.
    pub open spec fn capacity(&self) -> int {
        self.units() as int
    }

    /// The block that holds bit `bit`.
    pub open spec fn block_of(&self, bit: int) -> usize {
        (self.start() + bit / (BLOCK_BITS as int)) as usize
    }

    /// Whether bit `bit` is one on `disk`: whether its unit is allocated.
    pub open spec fn is_set(&self, disk: Disk, bit: int) -> bool {
        block_bit(disk[self.block_of(bit)], bit % (BLOCK_BITS as int))
    }

    /// Bit `bit` is the lowest bit of the region that is zero on `disk`.
    pub open spec fn is_lowest_free(&self, disk: Disk, bit: int) -> bool {
        &&& 0 <= bit < self.capacity()
        &&& !self.is_set(disk, bit)
        &&& forall|m: int| 0 <= m < bit ==> self.is_set(disk, m)
    }

    /// Every bit of the region is one on `disk`.
    pub open spec fn is_full(&self, disk: Disk) -> bool {
        forall|m: int| 0 <= m < self.capacity() ==> self.is_set(disk, m)
    }

    /// `disk` after bit `bit` is set to one.
    pub open spec fn after_alloc(&self, disk: Disk, bit: int) -> Disk {
        disk.insert(
            self.block_of(bit),
            block_with(disk[self.block_of(bit)], bit % (BLOCK_BITS as int)),
        )
    }

    /// `disk` after bit `bit` is set to zero.
    pub open spec fn after_dealloc(&self, disk: Disk, bit: int) -> Disk {
        disk.insert(
            self.block_of(bit),
            block_without(disk[self.block_of(bit)], bit % (BLOCK_BITS as int)),
        )
    }

    /// Every block of the region has a buffer among `slots`.
    pub open spec fn region_cached(&self, slots: Seq<Slot>) -> bool {
        forall|b: usize| self.start() <= b < self.start() + self.len() ==> cached(slots, b)
    }

    /// The region of `blocks` blocks from block `start_block_id` on, with a
    /// unit for every bit.
    pub fn new(start_block_id: usize, blocks: usize) -> (bitmap: Bitmap)
        requires
            start_block_id + blocks <= usize::MAX,
            blocks * BLOCK_BITS <= usize::MAX,
        ensures
            bitmap.start() == start_block_id,
            bitmap.len() == blocks,
            bitmap.capacity() == blocks * BLOCK_BITS,
    {
        Bitmap { start_block_id, blocks, units: blocks * BLOCK_BITS }
    }

    /// The region of `blocks` blocks from block `start_block_id` on, with a
    /// unit for each of the first `units` bits only. The bits beyond are
    /// never handed out.
    pub fn bounded(start_block_id: usize, blocks: usize, units: usize) -> (bitmap: Bitmap)
        requires
            start_block_id + blocks <= usize::MAX,
            units <= blocks * BLOCK_BITS,
        ensures
            bitmap.start() == start_block_id,
            bitmap.len() == blocks,
            bitmap.capacity() == units,
    {
        Bitmap { start_block_id, blocks, units }
    }

    /// The number of units the region can hand out.
    pub fn maximum(&self) -> (n: usize)
        ensures
            n == self.capacity(),
    {
        self.units
    }

    /// The first block of the region.
    pub fn start_block_id(&self) -> (id: usize)
        ensures
            id == self.start(),
    {
        self.start_block_id
    }

    /// The number of blocks of the region.
    pub fn blocks(&self) -> (n: usize)
        ensures
            n == self.len(),
    {
        self.blocks
    }

    /// Hands out the lowest free unit of the region and marks it allocated.
    ///
    /// The blocks of the region are searched in ascending order through
    /// `cache`; the change stays in the cache until it is written back.
    /// `Ok(None)` says that every unit is allocated. A failure leaves the
    /// content of the disk as it was. With every block of the region cached
    /// and no handle outstanding, the call succeeds without any transfer.
    pub fn allocate<D: BlockDevice>(&self, cache: &mut BlockCacheManager<D>) -> (res: Result<
        Option<usize>,
        FsError,
    >)
        requires
            old(cache).wf(),
        ensures
            final(cache).wf(),
            forall|id: usize| #[trigger] final(cache).ref_count(id) == old(cache).ref_count(id),
            match res {
                Ok(Some(bit)) => {
                    &&& self.is_lowest_free(old(cache)@, bit as int)
                    &&& final(cache)@ == self.after_alloc(old(cache)@, bit as int)
                },
                Ok(None) => self.is_full(old(cache)@) && final(cache)@ == old(cache)@,
                Err(e) => {
                    &&& e == FsError::Io || e == FsError::CacheExhausted
                    &&& final(cache)@ == old(cache)@
                },
            },
            old(cache).idle() ==> res != Err::<Option<usize>, FsError>(FsError::CacheExhausted),
            old(cache).idle() && self.region_cached(old(cache).slots()) ==> res is Ok,
            self.region_cached(old(cache).slots()) ==> forall|id: usize| #[trigger]
                final(cache).is_cached(id) == old(cache).is_cached(id),
            res matches Ok(Some(bit)) ==> final(cache).is_cached(self.block_of(bit as int)),
            res matches Ok(Some(bit)) ==> final(cache).is_most_recent(self.block_of(bit as int)),
            res is Ok ==> written_back(
                final(cache).device_view(),
                old(cache).device_view(),
                old(cache)@,
            ),
    {
        proof {
            use_type_invariant(self);
        }
        let ghost disk0 = cache@;
        let needed = if self.units % BLOCK_BITS == 0 {
            self.units / BLOCK_BITS
        } else {
            self.units / BLOCK_BITS + 1
        };
        let mut blk: usize = 0;
        while blk < needed
            invariant
                blk <= needed,
                needed <= self.blocks,
                self.units <= needed * BLOCK_BITS,
                needed > 0 ==> (needed - 1) * BLOCK_BITS < self.units,
                written_back(cache.device_view(), old(cache).device_view(), disk0),
                self.wf(),
                cache.wf(),
                cache@ == old(cache)@,
                disk0 == old(cache)@,
                forall|id: usize| #[trigger] cache.ref_count(id) == old(cache).ref_count(id),
                forall|m: int| 0 <= m < blk * BLOCK_BITS ==> self.is_set(disk0, m),
                self.region_cached(old(cache).slots()) ==> forall|id: usize| #[trigger]
                    cache.is_cached(id) == old(cache).is_cached(id),
            decreases needed - blk,
        {
            let block_id = self.start_block_id + blk;
            proof {
                if cache.idle() {
                    cache.lemma_idle_can_pin(block_id);
                }
                cache.lemma_view_sized();
            }
            let ghost before = *cache;
            let handle = match cache.get(block_id) {
                Ok(handle) => handle,
                Err(e) => {
                    return Err(e);
                },
            };
            let found = first_clear_bit(cache.read(&handle, 0, BLOCK_SZ));
            proof {
                assert(disk0[block_id].subrange(0, BLOCK_SZ as int) =~= disk0[block_id]);
            }
            let found = match found {
                Some(i) if i < self.units - blk * BLOCK_BITS => Some(i),
                Some(i) => {
                    cache.release(handle);
                    proof {
                        assert forall|m: int| 0 <= m < self.capacity() implies self.is_set(
                            disk0,
                            m,
                        ) by {
                            if m >= blk * BLOCK_BITS {
                                assert(m / (BLOCK_BITS as int) == blk as int);
                            }
                        }
                    }
                    return Ok(None);
                },
                None => None,
            };
            match found {
                Some(i) => {
                    let k = i / 8;
                    let j = (i % 8) as u8;
                    let byte = cache.read(&handle, k, 1)[0];
                    let one = [byte | (1u8 << j)];
                    cache.modify(&handle, k, one.as_slice());
                    cache.release(handle);
                    let bit = blk * BLOCK_BITS + i;
                    proof {
                        assert(bit as int / (BLOCK_BITS as int) == blk as int);
                        assert(bit as int % (BLOCK_BITS as int) == i as int);
                        assert(self.block_of(bit as int) == block_id);
                        assert(disk0[block_id].subrange(k as int, k + 1)[0] == disk0[block_id][k as int]);
                        assert(splice(disk0[block_id], k as int, one@) =~= block_with(
                            disk0[block_id],
                            i as int,
                        ));
                        assert forall|m: int| 0 <= m < bit implies self.is_set(disk0, m) by {
                            if m >= blk * BLOCK_BITS {
                                assert(m / (BLOCK_BITS as int) == blk as int);
                            }
                        }
                    }
                    return Ok(Some(bit));
                },
                None => {
                    cache.release(handle);
                    proof {
                        assert forall|m: int| 0 <= m < (blk + 1) * BLOCK_BITS implies self.is_set(
                            disk0,
                            m,
                        ) by {
                            if m >= blk * BLOCK_BITS {
                                assert(m / (BLOCK_BITS as int) == blk as int);
                            }
                        }
                    }
                },
            }
            blk = blk + 1;
        }
        Ok(None)
    }

    /// Marks unit `bit` free again.
    ///
    /// A unit that is not allocated, or lies beyond the region, is refused
    /// with `NotAllocated`, and a successful call says that the unit was
    /// allocated: releasing twice is never accepted. A failure leaves the
    /// content of the disk as it was.
    pub fn deallocate<D: BlockDevice>(&self, cache: &mut BlockCacheManager<D>, bit: usize) -> (res:
        Result<(), FsError>)
        requires
            old(cache).wf(),
        ensures
            final(cache).wf(),
            forall|id: usize| #[trigger] final(cache).ref_count(id) == old(cache).ref_count(id),
            match res {
                Ok(()) => {
                    &&& bit < self.capacity()
                    &&& self.is_set(old(cache)@, bit as int)
                    &&& final(cache)@ == self.after_dealloc(old(cache)@, bit as int)
                },
                Err(e) => {
                    &&& e == FsError::NotAllocated || e == FsError::Io || e
                        == FsError::CacheExhausted
                    &&& e == FsError::NotAllocated ==> bit >= self.capacity() || !self.is_set(
                        old(cache)@,
                        bit as int,
                    )
                    &&& final(cache)@ == old(cache)@
                },
            },
            bit >= self.capacity() ==> res == Err::<(), FsError>(FsError::NotAllocated),
            old(cache).idle() ==> res != Err::<(), FsError>(FsError::CacheExhausted),
            old(cache).idle() && bit < self.capacity() && old(cache).is_cached(
                self.block_of(bit as int),
            ) ==> (res is Ok <==> self.is_set(old(cache)@, bit as int)) && (res is Err ==> res
                == Err::<(), FsError>(FsError::NotAllocated)),
            bit >= self.capacity() || old(cache).is_cached(self.block_of(bit as int))
                ==> forall|id: usize| #[trigger]
                final(cache).is_cached(id) == old(cache).is_cached(id),
            res is Ok && bit < self.capacity() ==> final(cache).is_cached(
                self.block_of(bit as int),
            ),
            res is Ok && bit < self.capacity() ==> final(cache).is_most_recent(
                self.block_of(bit as int),
            ),
            old(cache).idle() ==> forall|x: usize|
                old(cache).is_most_recent(x) ==> #[trigger] final(cache).is_cached(x),
            res is Ok ==> written_back(
                final(cache).device_view(),
                old(cache).device_view(),
                old(cache)@,
            ),
    {
        proof {
            use_type_invariant(self);
        }
        if bit >= self.maximum() {
            return Err(FsError::NotAllocated);
        }
        let ghost disk0 = cache@;
        let blk = bit / BLOCK_BITS;
        let i = bit % BLOCK_BITS;
        let k = i / 8;
        let j = (i % 8) as u8;
        let block_id = self.start_block_id + blk;
        proof {
            if cache.idle() {
                cache.lemma_idle_can_pin(block_id);
            }
            cache.lemma_view_sized();
        }
        let handle = match cache.get(block_id) {
            Ok(handle) => handle,
            Err(e) => {
                return Err(e);
            },
        };
        let byte = cache.read(&handle, k, 1)[0];
        proof {
            assert(disk0[block_id].subrange(k as int, k + 1)[0] == disk0[block_id][k as int]);
        }
        if (byte >> j) & 1u8 != 1u8 {
            cache.release(handle);
            return Err(FsError::NotAllocated);
        }
        let one = [byte & !(1u8 << j)];
        cache.modify(&handle, k, one.as_slice());
        cache.release(handle);
        proof {
            assert(splice(disk0[block_id], k as int, one@) =~= block_without(
                disk0[block_id],
                i as int,
            ));
        }
        Ok(())
    }

    /// Whether unit `bit` is allocated. A unit beyond the region is not.
    pub fn is_allocated<D: BlockDevice>(&self, cache: &mut BlockCacheManager<D>, bit: usize) -> (res:
        Result<bool, FsError>)
        requires
            old(cache).wf(),
        ensures
            final(cache).wf(),
            final(cache)@ == old(cache)@,
            forall|id: usize| #[trigger] final(cache).ref_count(id) == old(cache).ref_count(id),
            match res {
                Ok(set) => set == (bit < self.capacity() && self.is_set(old(cache)@, bit as int)),
                Err(e) => bit < self.capacity() && (e == FsError::Io || e
                    == FsError::CacheExhausted),
            },
            old(cache).idle() ==> res != Err::<bool, FsError>(FsError::CacheExhausted),
            old(cache).idle() && old(cache).is_cached(self.block_of(bit as int)) ==> res is Ok,
            bit >= self.capacity() || old(cache).is_cached(self.block_of(bit as int))
                ==> forall|id: usize| #[trigger]
                final(cache).is_cached(id) == old(cache).is_cached(id),
            res is Ok && bit < self.capacity() ==> final(cache).is_cached(
                self.block_of(bit as int),
            ),
            res is Ok && bit < self.capacity() ==> final(cache).is_most_recent(
                self.block_of(bit as int),
            ),
            old(cache).idle() ==> forall|x: usize|
                old(cache).is_most_recent(x) ==> #[trigger] final(cache).is_cached(x),
            res is Ok ==> written_back(
                final(cache).device_view(),
                old(cache).device_view(),
                old(cache)@,
            ),
    {
        proof {
            use_type_invariant(self);
        }
        if bit >= self.maximum() {
            return Ok(false);
        }
        let ghost disk0 = cache@;
        let i = bit % BLOCK_BITS;
        let k = i / 8;
        let j = (i % 8) as u8;
        let block_id = self.start_block_id + bit / BLOCK_BITS;
        proof {
            if cache.idle() {
                cache.lemma_idle_can_pin(block_id);
            }
            cache.lemma_view_sized();
        }
        let handle = match cache.get(block_id) {
            Ok(handle) => handle,
            Err(e) => {
                return Err(e);
            },
        };
        let byte = cache.read(&handle, k, 1)[0];
        proof {
            assert(disk0[block_id].subrange(k as int, k + 1)[0] == disk0[block_id][k as int]);
        }
        cache.release(handle);
        Ok((byte >> j) & 1u8 == 1u8)
    }

    /// Two bits of the region live in the same block exactly when they
    /// agree on their block number.
    pub proof fn lemma_block_of(&self, a: int, b: int)
        requires
            self.wf(),
            0 <= a < self.capacity(),
            0 <= b < self.capacity(),
        ensures
            self.start() <= self.block_of(a) < self.start() + self.len(),
            self.block_of(a) == self.block_of(b) <==> a / (BLOCK_BITS as int) == b / (
            BLOCK_BITS as int),
    {
    }

    /// Allocating a unit sets its bit and leaves every other bit of the region as it was.
    pub proof fn lemma_after_alloc(&self, disk: Disk, bit: int, m: int)
        requires
            self.wf(),
            disk_sized(disk),
            0 <= bit < self.capacity(),
            0 <= m < self.capacity(),
        ensures
            disk_sized(self.after_alloc(disk, bit)),
            self.is_set(self.after_alloc(disk, bit), m) == (m == bit || self.is_set(disk, m)),
    {
        self.lemma_block_of(bit, m);
        let block = disk[self.block_of(bit)];
        assert(block.len() == BLOCK_SZ);
        lemma_block_with(block, bit % (BLOCK_BITS as int), m % (BLOCK_BITS as int));
        assert forall|id: usize| (#[trigger] self.after_alloc(disk, bit)[id]).len()
            == BLOCK_SZ by {
            assert(disk[id].len() == BLOCK_SZ);
        }
    }

    /// Releasing a unit clears its bit and leaves every other bit of the region as it was.
    pub proof fn lemma_after_dealloc(&self, disk: Disk, bit: int, m: int)
        requires
            self.wf(),
            disk_sized(disk),
            0 <= bit < self.capacity(),
            0 <= m < self.capacity(),
        ensures
            disk_sized(self.after_dealloc(disk, bit)),
            self.is_set(self.after_dealloc(disk, bit), m) == (m != bit && self.is_set(disk, m)),
    {
        self.lemma_block_of(bit, m);
        let block = disk[self.block_of(bit)];
        assert(block.len() == BLOCK_SZ);
        lemma_block_without(block, bit % (BLOCK_BITS as int), m % (BLOCK_BITS as int));
        assert forall|id: usize| (#[trigger] self.after_dealloc(disk, bit)[id]).len()
            == BLOCK_SZ by {
            assert(disk[id].len() == BLOCK_SZ);
        }
    }

    /// Exactly the first `k` units of the region are allocated on `disk`.
    pub open spec fn first_allocated(&self, disk: Disk, k: int) -> bool {
        forall|m: int| 0 <= m < self.capacity() ==> self.is_set(disk, m) == (m < k)
    }

    /// Allocation counts upwards and then runs out: where exactly the first
    /// `k` units are allocated, the next allocation hands out unit `k` and
    /// leaves exactly the first `k + 1` allocated, as long as `k` is below
    /// the capacity; at the capacity the region is full, so the next
    /// allocation hands out nothing.
    pub proof fn lemma_alloc_counts_up(&self, disk: Disk, k: int)
        requires
            self.wf(),
            disk_sized(disk),
            0 <= k <= self.capacity(),
            self.first_allocated(disk, k),
        ensures
            k < self.capacity() ==> self.is_lowest_free(disk, k) && self.first_allocated(
                self.after_alloc(disk, k),
                k + 1,
            ),
            k == self.capacity() ==> self.is_full(disk),
    {
        if k < self.capacity() {
            assert forall|m: int| 0 <= m < self.capacity() implies self.is_set(
                self.after_alloc(disk, k),
                m,
            ) == (m < k + 1) by {
                self.lemma_after_alloc(disk, k, m);
            }
        }
    }

    /// `disk` after `k` allocations in a row.
    pub open spec fn after_allocs(&self, disk: Disk, k: nat) -> Disk
        decreases k,
    {
        if k == 0 {
            disk
        } else {
            self.after_alloc(self.after_allocs(disk, (k - 1) as nat), k - 1)
        }
    }

    /// From an empty region, the allocations hand out the units 0, 1, 2,
    /// and so on, each time the lowest free one, until after as many
    /// allocations as the region has units it is full.
    pub proof fn lemma_allocations_from_empty(&self, disk: Disk, k: nat)
        requires
            self.wf(),
            disk_sized(disk),
            self.first_allocated(disk, 0),
            k <= self.capacity(),
        ensures
            disk_sized(self.after_allocs(disk, k)),
            self.first_allocated(self.after_allocs(disk, k), k as int),
            k < self.capacity() ==> self.is_lowest_free(self.after_allocs(disk, k), k as int),
            k == self.capacity() ==> self.is_full(self.after_allocs(disk, k)),
        decreases k,
    {
        if k > 0 {
            let before = self.after_allocs(disk, (k - 1) as nat);
            self.lemma_allocations_from_empty(disk, (k - 1) as nat);
            self.lemma_alloc_counts_up(before, k - 1);
            self.lemma_after_alloc(before, k - 1, 0);
        }
        self.lemma_alloc_counts_up(self.after_allocs(disk, k), k as int);
    }

    /// A released unit comes back first: after unit `bit` is released its
    /// bit is zero, so releasing it again is refused; the next allocation
    /// hands out a unit no higher than `bit`, and `bit` itself where every
    /// lower unit is allocated.
    pub proof fn lemma_released_unit_is_reused(&self, disk: Disk, bit: int, next: int)
        requires
            self.wf(),
            disk_sized(disk),
            0 <= bit < self.capacity(),
            self.is_lowest_free(self.after_dealloc(disk, bit), next),
        ensures
            !self.is_set(self.after_dealloc(disk, bit), bit),
            next <= bit,
            (forall|m: int| 0 <= m < bit ==> self.is_set(disk, m)) ==> next == bit,
    {
        self.lemma_after_dealloc(disk, bit, bit);
        if next < bit {
            self.lemma_after_dealloc(disk, bit, next);
        }
    }

    /// A region is its first block, its number of blocks and its number of units.
    pub proof fn lemma_same_region(&self, other: Bitmap)
        requires
            self.start() == other.start(),
            self.len() == other.len(),
            self.capacity() == other.capacity(),
        ensures
            *self == other,
    {
    }

    /// The lowest free unit is unique: an allocation has one possible result.
    pub proof fn lemma_lowest_free_unique(&self, disk: Disk, a: int, b: int)
        requires
            self.is_lowest_free(disk, a),
            self.is_lowest_free(disk, b),
        ensures
            a == b,
    {
    }
}

} // verus!
