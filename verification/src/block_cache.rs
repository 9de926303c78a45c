//! The block cache: a bounded set of block buffers between the filesystem and
//! the device, written back on eviction or on request, evicted by recency.
//!
//! The cache is described by its slots, ordered from the least to the most
//! recently requested, and by the content of the device under it. What a
//! client reads through the cache is the overlay of the slots on the device,
//! and only `modify` ever changes it.

use vstd::prelude::*;
use crate::config::{BLOCK_CACHE_SIZE, BLOCK_SZ, Disk, disk_sized};
use crate::device::{BlockDevice, disk_of, lemma_disk_of_sized};
use crate::error::FsError;

verus! {

/// What one buffer of the cache holds.
pub struct Slot {
    /// The block the buffer stands for.
    pub block_id: usize,
    /// The bytes of the buffer.
    pub data: Seq<u8>,
    /// Whether the buffer differs from the device since it was loaded or written back.
    pub dirty: bool,
    /// Number of handles that clients hold on the buffer.
    pub refs: nat,
}

/// Whether some slot stands for block `id`.
pub open spec fn cached(slots: Seq<Slot>, id: usize) -> bool {
    exists|i: int| 0 <= i < slots.len() && (#[trigger] slots[i]).block_id == id
}

/// The position of a slot that stands for block `id`, if there is one.
pub open spec fn index_of(slots: Seq<Slot>, id: usize) -> int {
    choose|i: int| 0 <= i < slots.len() && (#[trigger] slots[i]).block_id == id
}

/// The slot that stands for block `id`, if there is one.
pub open spec fn slot_for(slots: Seq<Slot>, id: usize) -> Option<Slot> {
    if cached(slots, id) {
        Some(slots[index_of(slots, id)])
    } else {
        None
    }
}

/// No two slots stand for the same block.
pub open spec fn distinct(slots: Seq<Slot>) -> bool {
    forall|i: int, j: int|
        0 <= i < j < slots.len() ==> (#[trigger] slots[i]).block_id != (#[trigger] slots[j]).block_id
}

/// Every slot holds one block of bytes, and a clean slot holds what the device holds.
pub open spec fn coherent(slots: Seq<Slot>, dev: Disk) -> bool {
    forall|i: int|
        0 <= i < slots.len() ==> {
            &&& (#[trigger] slots[i]).data.len() == BLOCK_SZ
            &&& slots[i].refs <= usize::MAX
            &&& !slots[i].dirty ==> slots[i].data == dev[slots[i].block_id]
        }
}

/// The content a client sees: the buffer where a block is cached, the device elsewhere.
pub open spec fn overlay(slots: Seq<Slot>, dev: Disk) -> Disk {
    Map::new(
        |id: usize| true,
        |id: usize|
            match slot_for(slots, id) {
                Some(s) => s.data,
                None => dev[id],
            },
    )
}

/// Every slot has a handle outstanding.
pub open spec fn all_referenced(slots: Seq<Slot>) -> bool {
    forall|i: int| 0 <= i < slots.len() ==> (#[trigger] slots[i]).refs > 0
}

/// Slot `v` is the least recently requested one without a handle outstanding.
pub open spec fn is_victim(slots: Seq<Slot>, v: int) -> bool {
    &&& 0 <= v < slots.len()
    &&& slots[v].refs == 0
    &&& forall|k: int| 0 <= k < v ==> (#[trigger] slots[k]).refs > 0
}

/// The position of the slot that eviction removes.
pub open spec fn victim(slots: Seq<Slot>) -> int {
    choose|v: int| is_victim(slots, v)
}

/// The slots once room for one more is made: unchanged below capacity,
/// without the victim at capacity.
pub open spec fn with_room(slots: Seq<Slot>) -> Seq<Slot> {
    if slots.len() < BLOCK_CACHE_SIZE {
        slots
    } else {
        slots.remove(victim(slots))
    }
}

/// The slots after slot `i` is requested again: it moves to the most recent
/// position and gains a handle.
pub open spec fn touched(slots: Seq<Slot>, i: int) -> Seq<Slot> {
    slots.remove(i).push(Slot { refs: slots[i].refs + 1, ..slots[i] })
}

/// The slot of a block just loaded for one client.
pub open spec fn loaded(id: usize, data: Seq<u8>) -> Slot {
    Slot { block_id: id, data, dirty: false, refs: 1 }
}

/// Whether a request for block `id` must be refused: its count of handles
/// is at the limit, or it needs a slot and every slot is in use.
pub open spec fn cannot_pin(slots: Seq<Slot>, id: usize) -> bool {
    match slot_for(slots, id) {
        Some(s) => s.refs >= usize::MAX,
        None => slots.len() >= BLOCK_CACHE_SIZE && all_referenced(slots),
    }
}

/// The slots after a successful request for block `id`, whose content is `data`.
pub open spec fn after_get(slots: Seq<Slot>, id: usize, data: Seq<u8>) -> Seq<Slot> {
    if cached(slots, id) {
        touched(slots, index_of(slots, id))
    } else {
        with_room(slots).push(loaded(id, data))
    }
}

/// `block` with `bytes` written over it from `offset` on.
pub open spec fn splice(block: Seq<u8>, offset: int, bytes: Seq<u8>) -> Seq<u8> {
    Seq::new(
        block.len(),
        |k: int|
            if offset <= k < offset + bytes.len() {
                bytes[k - offset]
            } else {
                block[k]
            },
    )
}

/// Nothing reaches the device but what the cache shows: every block of the
/// device `after` is as it was `before`, or as the cache had `shown` it.
pub open spec fn written_back(after: Disk, before: Disk, shown: Disk) -> bool {
    forall|j: usize|
        {
            let block = #[trigger] after[j];
            block == before[j] || block == shown[j]
        }
}

/// Block `id` is the block that was requested last.
pub open spec fn most_recent(slots: Seq<Slot>, id: usize) -> bool {
    slots.len() > 0 && slots[slots.len() - 1].block_id == id
}

/// The number of handles outstanding on block `id`.
pub open spec fn refs_of(slots: Seq<Slot>, id: usize) -> nat {
    match slot_for(slots, id) {
        Some(s) => s.refs,
        None => 0,
    }
}

/// In a cache without duplicates, the slot found for a block is the one at its position.
pub proof fn lemma_slot_for_index(slots: Seq<Slot>, i: int)
    requires
        distinct(slots),
        0 <= i < slots.len(),
    ensures
        cached(slots, slots[i].block_id),
        index_of(slots, slots[i].block_id) == i,
        slot_for(slots, slots[i].block_id) == Some(slots[i]),
{
    let id = slots[i].block_id;
    let j = index_of(slots, id);
    assert(0 <= j < slots.len() && slots[j].block_id == id);
    if j < i {
        assert(slots[j].block_id != slots[i].block_id);
    } else if i < j {
        assert(slots[i].block_id != slots[j].block_id);
    }
}

/// Removing a slot forgets its block and leaves every other block as it was.
pub proof fn lemma_slot_for_remove(slots: Seq<Slot>, v: int)
    requires
        distinct(slots),
        0 <= v < slots.len(),
    ensures
        distinct(slots.remove(v)),
        forall|id: usize| #[trigger]
            slot_for(slots.remove(v), id) == if id == slots[v].block_id {
                None
            } else {
                slot_for(slots, id)
            },
{
    let r = slots.remove(v);
    assert forall|i: int, j: int| 0 <= i < j < r.len() implies (#[trigger] r[i]).block_id != (
    #[trigger] r[j]).block_id by {
        let oi = if i < v { i } else { i + 1 };
        let oj = if j < v { j } else { j + 1 };
        assert(r[i] == slots[oi] && r[j] == slots[oj]);
        assert(slots[oi].block_id != slots[oj].block_id);
    }
    assert forall|id: usize| #[trigger]
        slot_for(r, id) == if id == slots[v].block_id {
            None
        } else {
            slot_for(slots, id)
        } by {
        if cached(r, id) {
            let k = index_of(r, id);
            let ok = if k < v { k } else { k + 1 };
            assert(r[k] == slots[ok]);
            lemma_slot_for_index(slots, ok);
            lemma_slot_for_index(slots, v);
            lemma_slot_for_index(r, k);
        } else if cached(slots, id) {
            let ok = index_of(slots, id);
            lemma_slot_for_index(slots, v);
            if ok != v {
                let k = if ok < v { ok } else { ok - 1 };
                assert(r[k] == slots[ok]);
                assert(false);
            }
        }
    }
}

/// Adding a slot for a block that is not cached adds that block and leaves
/// every other block as it was.
pub proof fn lemma_slot_for_push(slots: Seq<Slot>, s: Slot)
    requires
        distinct(slots),
        !cached(slots, s.block_id),
    ensures
        distinct(slots.push(s)),
        forall|id: usize| #[trigger]
            slot_for(slots.push(s), id) == if id == s.block_id {
                Some(s)
            } else {
                slot_for(slots, id)
            },
{
    let p = slots.push(s);
    assert forall|i: int, j: int| 0 <= i < j < p.len() implies (#[trigger] p[i]).block_id != (
    #[trigger] p[j]).block_id by {
        assert(p[i] == slots[i]);
        if j < slots.len() {
            assert(p[j] == slots[j]);
        } else {
            assert(p[j] == s);
        }
    }
    assert forall|id: usize| #[trigger]
        slot_for(p, id) == if id == s.block_id {
            Some(s)
        } else {
            slot_for(slots, id)
        } by {
        if id == s.block_id {
            assert(p[slots.len() as int] == s);
            lemma_slot_for_index(p, slots.len() as int);
        } else if cached(p, id) {
            let k = index_of(p, id);
            assert(k < slots.len());
            assert(p[k] == slots[k]);
            lemma_slot_for_index(slots, k);
        } else if cached(slots, id) {
            let k = index_of(slots, id);
            assert(p[k] == slots[k]);
            assert(false);
        }
    }
}

/// Replacing a slot by one for the same block changes that block alone.
pub proof fn lemma_slot_for_update(slots: Seq<Slot>, i: int, s: Slot)
    requires
        distinct(slots),
        0 <= i < slots.len(),
        s.block_id == slots[i].block_id,
    ensures
        distinct(slots.update(i, s)),
        forall|id: usize| #[trigger]
            slot_for(slots.update(i, s), id) == if id == s.block_id {
                Some(s)
            } else {
                slot_for(slots, id)
            },
{
    let u = slots.update(i, s);
    assert forall|a: int, b: int| 0 <= a < b < u.len() implies (#[trigger] u[a]).block_id != (
    #[trigger] u[b]).block_id by {
        assert(u[a].block_id == slots[a].block_id);
        assert(u[b].block_id == slots[b].block_id);
    }
    assert forall|id: usize| #[trigger]
        slot_for(u, id) == if id == s.block_id {
            Some(s)
        } else {
            slot_for(slots, id)
        } by {
        if id == s.block_id {
            assert(u[i] == s);
            lemma_slot_for_index(u, i);
        } else if cached(u, id) {
            let k = index_of(u, id);
            assert(u[k] == slots[k]);
            lemma_slot_for_index(slots, k);
        } else if cached(slots, id) {
            let k = index_of(slots, id);
            assert(u[k] == slots[k]);
            assert(false);
        }
    }
}

/// At most one slot is the victim.
pub proof fn lemma_victim_unique(slots: Seq<Slot>, v: int)
    requires
        is_victim(slots, v),
    ensures
        victim(slots) == v,
        !all_referenced(slots),
{
    let w = victim(slots);
    assert(is_victim(slots, w));
    if w < v {
        assert(slots[w].refs > 0);
    } else if v < w {
        assert(slots[v].refs > 0);
    }
}

/// One buffer of the cache: a block of the device held in memory.
pub struct BlockCache {
    block_id: usize,
    cache: [u8; BLOCK_SZ],
    modified: bool,
    refs: usize,
}

impl View for BlockCache {
    type V = Slot;

    closed spec fn view(&self) -> Slot {
        Slot {
            block_id: self.block_id,
            data: self.cache@,
            dirty: self.modified,
            refs: self.refs as nat,
        }
    }
}

impl BlockCache {
    /// Reads block `block_id` of `device` into a fresh buffer, held by one client.
    pub fn load<D: BlockDevice>(block_id: usize, device: &D) -> (res: Result<BlockCache, FsError>)
        ensures
            match res {
                Ok(c) => c@ == loaded(block_id, device.block(block_id)) && c@.data.len()
                    == BLOCK_SZ,
                Err(e) => e == FsError::Io,
            },
    {
        let mut cache = [0u8; BLOCK_SZ];
        match device.read_block(block_id, &mut cache) {
            Ok(()) => Ok(BlockCache { block_id, cache, modified: false, refs: 1 }),
            Err(_) => Err(FsError::Io),
        }
    }

    /// The block the buffer stands for.
    pub fn block_id(&self) -> (id: usize)
        ensures
            id == self@.block_id,
    {
        self.block_id
    }

    /// Whether the buffer holds changes the device has not seen.
    pub fn is_modified(&self) -> (m: bool)
        ensures
            m == self@.dirty,
    {
        self.modified
    }

    /// Number of handles outstanding on the buffer.
    pub fn ref_count(&self) -> (n: usize)
        ensures
            n == self@.refs,
    {
        self.refs
    }

    /// The `len` bytes of the buffer from `offset` on.
    pub fn read(&self, offset: usize, len: usize) -> (out: &[u8])
        requires
            offset + len <= BLOCK_SZ,
        ensures
            out@ == self@.data.subrange(offset as int, offset + len),
    {
        vstd::slice::slice_subrange(self.cache.as_slice(), offset, offset + len)
    }

    /// Writes `src` over the buffer from `offset` on and marks the buffer dirty.
    pub fn modify(&mut self, offset: usize, src: &[u8])
        requires
            offset + src@.len() <= BLOCK_SZ,
        ensures
            final(self)@ == (Slot {
                data: splice(old(self)@.data, offset as int, src@),
                dirty: true,
                ..old(self)@
            }),
    {
        let ghost before = self.cache@;
        let n = src.len();
        let mut k: usize = 0;
        while k < n
            invariant
                k <= n,
                n == src@.len(),
                offset + n <= BLOCK_SZ,
                self.block_id == old(self).block_id,
                self.refs == old(self).refs,
                self.cache@ == splice(before, offset as int, src@.take(k as int)),
            decreases n - k,
        {
            self.cache[offset + k] = src[k];
            k = k + 1;
            assert(self.cache@ =~= splice(before, offset as int, src@.take(k as int)));
        }
        assert(src@.take(n as int) =~= src@);
        assert(self.cache@ =~= splice(before, offset as int, src@));
        self.modified = true;
    }

    /// Writes the buffer to `device` if it is dirty, and marks it clean on success.
    pub fn sync<D: BlockDevice>(&mut self, device: &mut D) -> (res: Result<(), FsError>)
        ensures
            final(self)@.block_id == old(self)@.block_id,
            final(self)@.data == old(self)@.data,
            final(self)@.refs == old(self)@.refs,
            !old(self)@.dirty ==> res is Ok && *final(device) == *old(device),
            forall|j: usize|
                j != old(self)@.block_id ==> final(device).block(j) == old(device).block(j),
            match res {
                Ok(()) => !final(self)@.dirty && (old(self)@.dirty ==> final(device).block(
                    old(self)@.block_id,
                ) == old(self)@.data),
                Err(e) => e == FsError::Io && final(self)@.dirty,
            },
    {
        if self.modified {
            match device.write_block(self.block_id, &self.cache) {
                Ok(()) => {
                    self.modified = false;
                    Ok(())
                },
                Err(_) => Err(FsError::Io),
            }
        } else {
            Ok(())
        }
    }
}

/// A client's hold on a cached block, given out by `get` and given back by `release`.
pub struct BlockHandle {
    block_id: usize,
}

impl BlockHandle {
    /// The block the handle stands for.
    pub closed spec fn id(&self) -> usize {
        self.block_id
    }

    /// The block the handle stands for.
    pub fn block_id(&self) -> (id: usize)
        ensures
            id == self.id(),
    {
        self.block_id
    }
}

/// The cache is sound over `dev`: within capacity, without duplicates, coherent.
pub open spec fn slots_wf(slots: Seq<Slot>, dev: Disk) -> bool {
    &&& slots.len() <= BLOCK_CACHE_SIZE
    &&& distinct(slots)
    &&& coherent(slots, dev)
}

/// The slots after one handle on block `id` is given back.
pub open spec fn released(slots: Seq<Slot>, id: usize) -> Seq<Slot> {
    if cached(slots, id) && slots[index_of(slots, id)].refs > 0 {
        let i = index_of(slots, id);
        slots.update(i, Slot { refs: (slots[i].refs - 1) as nat, ..slots[i] })
    } else {
        slots
    }
}

/// The slots after `bytes` are written over block `id` from `offset` on.
pub open spec fn modified(slots: Seq<Slot>, id: usize, offset: int, bytes: Seq<u8>) -> Seq<Slot> {
    let i = index_of(slots, id);
    slots.update(i, Slot { data: splice(slots[i].data, offset, bytes), dirty: true, ..slots[i] })
}

/// The slots after every buffer is written back.
pub open spec fn cleaned(slots: Seq<Slot>) -> Seq<Slot> {
    Seq::new(slots.len(), |i: int| Slot { dirty: false, ..slots[i] })
}

/// Requesting a cached block again keeps the cache sound and its content,
/// and adds one handle to that block alone.
pub proof fn lemma_touched(slots: Seq<Slot>, dev: Disk, i: int)
    requires
        slots_wf(slots, dev),
        0 <= i < slots.len(),
        slots[i].refs < usize::MAX,
    ensures
        slots_wf(touched(slots, i), dev),
        overlay(touched(slots, i), dev) == overlay(slots, dev),
        forall|id: usize| #[trigger]
            refs_of(touched(slots, i), id) == refs_of(slots, id) + (if id == slots[i].block_id {
                1nat
            } else {
                0nat
            }),
{
    let r = slots.remove(i);
    let s = Slot { refs: slots[i].refs + 1, ..slots[i] };
    let t = r.push(s);
    lemma_slot_for_index(slots, i);
    lemma_slot_for_remove(slots, i);
    assert(slot_for(r, s.block_id) is None);
    lemma_slot_for_push(r, s);
    assert forall|k: int| 0 <= k < t.len() implies {
        &&& (#[trigger] t[k]).data.len() == BLOCK_SZ
        &&& t[k].refs <= usize::MAX
        &&& !t[k].dirty ==> t[k].data == dev[t[k].block_id]
    } by {
        if k < r.len() {
            let ok = if k < i { k } else { k + 1 };
            assert(t[k] == slots[ok]);
        }
    }
    assert forall|id: usize| #[trigger]
        refs_of(t, id) == refs_of(slots, id) + (if id == slots[i].block_id {
            1nat
        } else {
            0nat
        }) by {
        assert(slot_for(t, id) == if id == s.block_id { Some(s) } else { slot_for(r, id) });
    }
    assert(overlay(t, dev) =~= overlay(slots, dev)) by {
        assert forall|id: usize| overlay(t, dev)[id] == overlay(slots, dev)[id] by {
            assert(slot_for(t, id) == if id == s.block_id { Some(s) } else { slot_for(r, id) });
        }
    }
}

/// Evicting the victim, once the device holds its bytes, keeps the cache
/// sound, its content, and every count of handles.
pub proof fn lemma_evicted(slots: Seq<Slot>, dev: Disk, dev2: Disk, v: int)
    requires
        slots_wf(slots, dev),
        0 <= v < slots.len(),
        slots[v].refs == 0,
        dev2[slots[v].block_id] == slots[v].data,
        forall|j: usize| j != slots[v].block_id ==> dev2[j] == dev[j],
    ensures
        slots_wf(slots.remove(v), dev2),
        overlay(slots.remove(v), dev2) == overlay(slots, dev),
        forall|id: usize| #[trigger] refs_of(slots.remove(v), id) == refs_of(slots, id),
{
    let r = slots.remove(v);
    lemma_slot_for_index(slots, v);
    lemma_slot_for_remove(slots, v);
    assert forall|k: int| 0 <= k < r.len() implies {
        &&& (#[trigger] r[k]).data.len() == BLOCK_SZ
        &&& r[k].refs <= usize::MAX
        &&& !r[k].dirty ==> r[k].data == dev2[r[k].block_id]
    } by {
        let ok = if k < v { k } else { k + 1 };
        assert(r[k] == slots[ok]);
        if ok < v {
            assert(slots[ok].block_id != slots[v].block_id);
        } else {
            assert(slots[v].block_id != slots[ok].block_id);
        }
    }
    assert forall|id: usize| #[trigger] refs_of(r, id) == refs_of(slots, id) by {
        assert(slot_for(r, id) == if id == slots[v].block_id { None } else { slot_for(slots, id) });
    }
    assert(overlay(r, dev2) =~= overlay(slots, dev)) by {
        assert forall|id: usize| overlay(r, dev2)[id] == overlay(slots, dev)[id] by {
            assert(slot_for(r, id) == if id == slots[v].block_id {
                None
            } else {
                slot_for(slots, id)
            });
            if id != slots[v].block_id && slot_for(slots, id) is None {
                assert(dev2[id] == dev[id]);
            }
        }
    }
}

/// A change of the device under a dirty slot's block alone is not seen through the cache.
pub proof fn lemma_device_changed_under_dirty(slots: Seq<Slot>, dev: Disk, dev2: Disk, v: int)
    requires
        slots_wf(slots, dev),
        0 <= v < slots.len(),
        slots[v].dirty,
        forall|j: usize| j != slots[v].block_id ==> dev2[j] == dev[j],
    ensures
        slots_wf(slots, dev2),
        overlay(slots, dev2) == overlay(slots, dev),
{
    lemma_slot_for_index(slots, v);
    assert forall|k: int| 0 <= k < slots.len() implies {
        &&& (#[trigger] slots[k]).data.len() == BLOCK_SZ
        &&& slots[k].refs <= usize::MAX
        &&& !slots[k].dirty ==> slots[k].data == dev2[slots[k].block_id]
    } by {
        if k < v {
            assert(slots[k].block_id != slots[v].block_id);
        } else if v < k {
            assert(slots[v].block_id != slots[k].block_id);
        }
    }
    assert(overlay(slots, dev2) =~= overlay(slots, dev)) by {
        assert forall|id: usize| overlay(slots, dev2)[id] == overlay(slots, dev)[id] by {
            if id != slots[v].block_id && slot_for(slots, id) is None {
                assert(dev2[id] == dev[id]);
            }
        }
    }
}

/// Loading a block that is not cached keeps the cache sound and its
/// content, and gives that block its first handle.
pub proof fn lemma_loaded(slots: Seq<Slot>, dev: Disk, id: usize)
    requires
        slots_wf(slots, dev),
        slots.len() < BLOCK_CACHE_SIZE,
        !cached(slots, id),
        dev[id].len() == BLOCK_SZ,
    ensures
        slots_wf(slots.push(loaded(id, dev[id])), dev),
        overlay(slots.push(loaded(id, dev[id])), dev) == overlay(slots, dev),
        forall|j: usize| #[trigger]
            refs_of(slots.push(loaded(id, dev[id])), j) == refs_of(slots, j) + (if j == id {
                1nat
            } else {
                0nat
            }),
{
    let s = loaded(id, dev[id]);
    let p = slots.push(s);
    lemma_slot_for_push(slots, s);
    assert forall|k: int| 0 <= k < p.len() implies {
        &&& (#[trigger] p[k]).data.len() == BLOCK_SZ
        &&& p[k].refs <= usize::MAX
        &&& !p[k].dirty ==> p[k].data == dev[p[k].block_id]
    } by {
        if k < slots.len() {
            assert(p[k] == slots[k]);
        }
    }
    assert forall|j: usize| #[trigger]
        refs_of(p, j) == refs_of(slots, j) + (if j == id {
            1nat
        } else {
            0nat
        }) by {
        assert(slot_for(p, j) == if j == id { Some(s) } else { slot_for(slots, j) });
    }
    assert(overlay(p, dev) =~= overlay(slots, dev)) by {
        assert forall|j: usize| overlay(p, dev)[j] == overlay(slots, dev)[j] by {
            assert(slot_for(p, j) == if j == id { Some(s) } else { slot_for(slots, j) });
        }
    }
}

/// Replacing a slot by one for the same block keeps the cache sound where
/// the new slot is, and changes the content of that block alone.
pub proof fn lemma_replaced(slots: Seq<Slot>, dev: Disk, i: int, s: Slot)
    requires
        slots_wf(slots, dev),
        0 <= i < slots.len(),
        s.block_id == slots[i].block_id,
        s.data.len() == BLOCK_SZ,
        s.refs <= usize::MAX,
        !s.dirty ==> s.data == dev[s.block_id],
    ensures
        slots_wf(slots.update(i, s), dev),
        overlay(slots.update(i, s), dev) == overlay(slots, dev).insert(s.block_id, s.data),
        forall|id: usize| #[trigger]
            refs_of(slots.update(i, s), id) == if id == s.block_id {
                s.refs
            } else {
                refs_of(slots, id)
            },
        forall|id: usize| #[trigger] cached(slots.update(i, s), id) == cached(slots, id),
{
    let u = slots.update(i, s);
    lemma_slot_for_index(slots, i);
    lemma_slot_for_update(slots, i, s);
    assert forall|id: usize| #[trigger]
        refs_of(u, id) == if id == s.block_id {
            s.refs
        } else {
            refs_of(slots, id)
        } by {
        assert(slot_for(u, id) == if id == s.block_id { Some(s) } else { slot_for(slots, id) });
    }
    assert forall|id: usize| #[trigger] cached(u, id) == cached(slots, id) by {
        assert(slot_for(u, id) == if id == s.block_id { Some(s) } else { slot_for(slots, id) });
    }
    assert(overlay(u, dev) =~= overlay(slots, dev).insert(s.block_id, s.data)) by {
        assert forall|id: usize|
            overlay(u, dev)[id] == overlay(slots, dev).insert(s.block_id, s.data)[id] by {
            assert(slot_for(u, id) == if id == s.block_id { Some(s) } else { slot_for(slots, id) });
        }
    }
}

/// What is written is what is read back: after `bytes` are written over a
/// block from `offset` on, the block has its length, holds `bytes` from
/// `offset` on, and holds what it held everywhere else.
pub proof fn lemma_read_after_modify(block: Seq<u8>, offset: int, bytes: Seq<u8>)
    requires
        0 <= offset,
        offset + bytes.len() <= block.len(),
    ensures
        splice(block, offset, bytes).len() == block.len(),
        splice(block, offset, bytes).subrange(offset, offset + bytes.len()) == bytes,
        forall|k: int|
            0 <= k < block.len() && !(offset <= k < offset + bytes.len()) ==> splice(
                block,
                offset,
                bytes,
            )[k] == block[k],
{
    assert(splice(block, offset, bytes).subrange(offset, offset + bytes.len()) =~= bytes);
}

/// A block that was requested is served from its buffer the next time: after
/// a successful request the block is cached, it holds what the cache showed
/// for it before, and it has one handle more than before.
pub proof fn lemma_requested_block_is_cached(slots: Seq<Slot>, dev: Disk, id: usize)
    requires
        slots_wf(slots, dev),
        !cannot_pin(slots, id),
    ensures
        ({
            let after = after_get(slots, id, overlay(slots, dev)[id]);
            &&& cached(after, id)
            &&& slot_for(after, id).unwrap().data == overlay(slots, dev)[id]
            &&& refs_of(after, id) == refs_of(slots, id) + 1
            &&& !cannot_pin(after, id) ==> after_get(after, id, overlay(slots, dev)[id])
                == touched(after, after.len() - 1)
        }),
{
    let data = overlay(slots, dev)[id];
    let after = after_get(slots, id, data);
    if cached(slots, id) {
        let i = index_of(slots, id);
        lemma_slot_for_index(slots, i);
        lemma_slot_for_remove(slots, i);
        let s = Slot { refs: slots[i].refs + 1, ..slots[i] };
        lemma_slot_for_push(slots.remove(i), s);
        assert(slot_for(after, id) == Some(s));
        assert(after[after.len() - 1] == s);
        lemma_slot_for_index(after, after.len() - 1);
    } else {
        let room = with_room(slots);
        if slots.len() >= BLOCK_CACHE_SIZE {
            let v = choose|v: int| 0 <= v < slots.len() && (#[trigger] slots[v]).refs == 0;
            lemma_has_victim(slots, v);
            lemma_slot_for_remove(slots, victim(slots));
        }
        assert(slot_for(room, id) is None);
        lemma_slot_for_push(room, loaded(id, data));
        assert(slot_for(after, id) == Some(loaded(id, data)));
        assert(after[after.len() - 1] == loaded(id, data));
        lemma_slot_for_index(after, after.len() - 1);
    }
}

/// Recency protects: in a cache without outstanding handles, the block
/// requested last keeps its buffer through the next request, whatever block
/// that request is for and however it ends; and a block that was requested
/// with success is then the block requested last.
pub proof fn lemma_recent_block_stays(slots: Seq<Slot>, dev: Disk, id: usize, x: usize)
    requires
        slots_wf(slots, dev),
        forall|b: usize| #[trigger] refs_of(slots, b) == 0,
        most_recent(slots, x),
    ensures
        cached(slots, x),
        cached(with_room(slots), x),
        cached(after_get(slots, id, overlay(slots, dev)[id]), x),
        most_recent(after_get(slots, id, overlay(slots, dev)[id]), id),
{
    let last = slots.len() - 1;
    let data = overlay(slots, dev)[id];
    lemma_slot_for_index(slots, last);
    lemma_slot_for_index(slots, 0);
    assert(refs_of(slots, slots[0].block_id) == 0);
    let room = with_room(slots);
    if slots.len() >= BLOCK_CACHE_SIZE {
        assert(is_victim(slots, 0));
        lemma_victim_unique(slots, 0);
        lemma_slot_for_remove(slots, 0);
        assert(slots[0].block_id != slots[last].block_id);
        assert(slot_for(room, x) == slot_for(slots, x));
    }
    assert(cached(room, x));
    if cached(slots, id) {
        let i = index_of(slots, id);
        lemma_slot_for_index(slots, i);
        lemma_slot_for_remove(slots, i);
        let s = Slot { refs: slots[i].refs + 1, ..slots[i] };
        lemma_slot_for_push(slots.remove(i), s);
        assert(slot_for(touched(slots, i), x) is Some);
    } else {
        assert(slot_for(room, id) is None) by {
            if slots.len() >= BLOCK_CACHE_SIZE {
                assert(slot_for(room, id) == slot_for(slots, id));
            }
        }
        lemma_slot_for_push(room, loaded(id, data));
        assert(slot_for(room.push(loaded(id, data)), x) is Some);
    }
}

/// Where some slot has no handle outstanding, there is a victim.
pub proof fn lemma_has_victim(slots: Seq<Slot>, v: int)
    requires
        0 <= v < slots.len(),
        slots[v].refs == 0,
    ensures
        is_victim(slots, victim(slots)),
    decreases v,
{
    if forall|k: int| 0 <= k < v ==> (#[trigger] slots[k]).refs > 0 {
        assert(is_victim(slots, v));
    } else {
        let k = choose|k: int| 0 <= k < v && !((#[trigger] slots[k]).refs > 0);
        lemma_has_victim(slots, k);
    }
}

/// The block cache over one device.
pub struct BlockCacheManager<D: BlockDevice> {
    device: D,
    queue: Vec<BlockCache>,
}

impl<D: BlockDevice> BlockCacheManager<D> {
    /// The buffers of the cache, from the least to the most recently requested.
    pub closed spec fn slots(&self) -> Seq<Slot> {
        Seq::new(self.queue@.len(), |i: int| self.queue@[i]@)
    }

    /// The content of the device under the cache.
    pub closed spec fn device_view(&self) -> Disk {
        disk_of(&self.device)
    }

    /// The cache is within capacity, without duplicates, and coherent with its device.
    pub open spec fn wf(&self) -> bool {
        slots_wf(self.slots(), self.device_view())
    }

    /// The content a client sees through the cache.
    pub open spec fn view(&self) -> Disk {
        overlay(self.slots(), self.device_view())
    }

    /// Whether block `id` has a buffer.
    pub open spec fn is_cached(&self, id: usize) -> bool {
        cached(self.slots(), id)
    }

    /// The number of handles outstanding on block `id`.
    pub open spec fn ref_count(&self, id: usize) -> nat {
        refs_of(self.slots(), id)
    }

    /// Block `id` is the block that was requested last.
    pub open spec fn is_most_recent(&self, id: usize) -> bool {
        most_recent(self.slots(), id)
    }

    /// No handle is outstanding on any block.
    pub open spec fn idle(&self) -> bool {
        forall|id: usize| self.ref_count(id) == 0
    }

    /// An empty cache over `device`.
    pub fn new(device: D) -> (cache: Self)
        ensures
            cache.wf(),
            cache.slots() == Seq::<Slot>::empty(),
            cache.device_view() == disk_of(&device),
            cache@ == disk_of(&device),
            cache.idle(),
    {
        let cache = BlockCacheManager { device, queue: Vec::new() };
        assert(cache.slots() =~= Seq::<Slot>::empty());
        assert(cache@ =~= disk_of(&device));
        cache
    }

    /// Gives the device back, as it is: changes not yet written back are lost.
    pub fn into_device(self) -> (device: D)
        ensures
            disk_of(&device) == self.device_view(),
    {
        self.device
    }

    /// The position of the buffer of block `block_id`, if it has one.
    fn position(&self, block_id: usize) -> (res: Option<usize>)
        requires
            distinct(self.slots()),
        ensures
            match res {
                Some(i) => i < self.slots().len() && self.slots()[i as int].block_id == block_id
                    && index_of(self.slots(), block_id) == i && cached(self.slots(), block_id),
                None => !cached(self.slots(), block_id),
            },
    {
        let mut i: usize = 0;
        while i < self.queue.len()
            invariant
                i <= self.queue@.len(),
                distinct(self.slots()),
                forall|k: int| 0 <= k < i ==> (#[trigger] self.slots()[k]).block_id != block_id,
            decreases self.queue@.len() - i,
        {
            if self.queue[i].block_id == block_id {
                proof {
                    lemma_slot_for_index(self.slots(), i as int);
                }
                return Some(i);
            }
            i = i + 1;
        }
        None
    }

    /// The position of the least recently requested buffer without a handle, if any.
    fn find_victim(&self) -> (res: Option<usize>)
        ensures
            match res {
                Some(v) => is_victim(self.slots(), v as int) && victim(self.slots()) == v,
                None => all_referenced(self.slots()),
            },
    {
        let mut i: usize = 0;
        while i < self.queue.len()
            invariant
                i <= self.queue@.len(),
                forall|k: int| 0 <= k < i ==> (#[trigger] self.slots()[k]).refs > 0,
            decreases self.queue@.len() - i,
        {
            if self.queue[i].refs == 0 {
                proof {
                    lemma_victim_unique(self.slots(), i as int);
                }
                return Some(i);
            }
            i = i + 1;
        }
        None
    }

    /// Requests block `block_id` and returns a handle on its buffer.
    ///
    /// A cached block is served from its buffer, without a transfer. Any
    /// other block is read from the device, after the least recently
    /// requested buffer without a handle has made room for it where the
    /// cache is full; that buffer is written back first if it is dirty.
    /// The request is refused with `CacheExhausted` exactly when the block
    /// cannot take a handle; then nothing changes. A failed transfer gives
    /// `Io`. In every case the content seen through the cache stays as it was.
    pub fn get(&mut self, block_id: usize) -> (res: Result<BlockHandle, FsError>)
        requires
            old(self).wf(),
        ensures
            final(self).wf(),
            final(self)@ == old(self)@,
            old(self).is_cached(block_id) ==> final(self).device_view() == old(self).device_view(),
            old(self).slots().len() < BLOCK_CACHE_SIZE ==> final(self).device_view() == old(self).device_view(),
            forall|j: usize|
                j != old(self).slots()[victim(old(self).slots())].block_id ==> #[trigger] final(self).device_view()[j] == old(self).device_view()[j],
            old(self).is_cached(block_id) ==> forall|id: usize| #[trigger]
                final(self).is_cached(id) == old(self).is_cached(id),
            old(self).is_cached(block_id) && !cannot_pin(old(self).slots(), block_id) ==> res is Ok,
            res is Ok ==> final(self).is_cached(block_id),
            res is Ok ==> final(self).is_most_recent(block_id),
            res is Ok ==> written_back(
                final(self).device_view(),
                old(self).device_view(),
                old(self)@,
            ),
            old(self).idle() ==> forall|x: usize|
                old(self).is_most_recent(x) ==> #[trigger] final(self).is_cached(x),
            cannot_pin(old(self).slots(), block_id) <==> res == Err::<BlockHandle, FsError>(
                FsError::CacheExhausted,
            ),
            match res {
                Ok(h) => {
                    &&& h.id() == block_id
                    &&& final(self).slots() == after_get(
                        old(self).slots(),
                        block_id,
                        old(self)@[block_id],
                    )
                },
                Err(e) => {
                    &&& e == FsError::CacheExhausted || e == FsError::Io
                    &&& e == FsError::CacheExhausted ==> final(self).slots() == old(self).slots()
                        && final(self).device_view() == old(self).device_view()
                    &&& e == FsError::Io ==> final(self).slots() == old(self).slots()
                        || final(self).slots() == with_room(old(self).slots())
                },
            },
            forall|id: usize| #[trigger]
                final(self).ref_count(id) == old(self).ref_count(id) + (if res is Ok && id
                    == block_id {
                    1nat
                } else {
                    0nat
                }),
    {
        let ghost slots0 = self.slots();
        let ghost dev0 = self.device_view();
        proof {
            if self.idle() {
                assert forall|b: usize| #[trigger] refs_of(slots0, b) == 0 by {
                    assert(self.ref_count(b) == 0);
                }
                assert forall|x: usize| most_recent(slots0, x) implies cached(slots0, x) && cached(
                    with_room(slots0),
                    x,
                ) && cached(after_get(slots0, block_id, overlay(slots0, dev0)[block_id]), x) by {
                    lemma_recent_block_stays(slots0, dev0, block_id, x);
                }
            }
        }
        match self.position(block_id) {
            Some(i) => {
                if self.queue[i].refs == usize::MAX {
                    return Err(FsError::CacheExhausted);
                }
                let mut entry = self.queue.remove(i);
                entry.refs = entry.refs + 1;
                self.queue.push(entry);
                proof {
                    assert(self.slots() =~= touched(slots0, i as int));
                    lemma_touched(slots0, dev0, i as int);
                    lemma_slot_for_remove(slots0, i as int);
                    lemma_slot_for_push(
                        slots0.remove(i as int),
                        Slot { refs: slots0[i as int].refs + 1, ..slots0[i as int] },
                    );
                    assert forall|id: usize| #[trigger]
                        cached(self.slots(), id) == cached(slots0, id) by {
                        assert(slot_for(self.slots(), id) is Some == slot_for(slots0, id) is Some);
                    }
                }
                Ok(BlockHandle { block_id })
            },
            None => {
                if self.queue.len() >= BLOCK_CACHE_SIZE {
                    match self.find_victim() {
                        None => {
                            return Err(FsError::CacheExhausted);
                        },
                        Some(v) => {
                            let ghost vid = slots0[v as int].block_id;
                            if self.queue[v].modified {
                                match self.device.write_block(
                                    self.queue[v].block_id,
                                    &self.queue[v].cache,
                                ) {
                                    Ok(()) => {},
                                    Err(_) => {
                                        proof {
                                            assert(self.slots() =~= slots0);
                                            lemma_device_changed_under_dirty(
                                                slots0,
                                                dev0,
                                                self.device_view(),
                                                v as int,
                                            );
                                        }
                                        return Err(FsError::Io);
                                    },
                                }
                            }
                            let _ = self.queue.remove(v);
                            proof {
                                assert(self.slots() =~= slots0.remove(v as int));
                                lemma_evicted(slots0, dev0, self.device_view(), v as int);
                                lemma_slot_for_remove(slots0, v as int);
                            }
                        },
                    }
                }
                let ghost slots1 = self.slots();
                let ghost dev1 = self.device_view();
                assert(slots1 == with_room(slots0));
                assert(!cached(slots1, block_id));
                match BlockCache::load(block_id, &self.device) {
                    Err(_) => Err(FsError::Io),
                    Ok(entry) => {
                        self.queue.push(entry);
                        proof {
                            assert(self.slots() =~= slots1.push(loaded(block_id, dev1[block_id])));
                            lemma_loaded(slots1, dev1, block_id);
                            assert(overlay(slots0, dev0)[block_id] == dev1[block_id]);
                            lemma_slot_for_push(slots1, loaded(block_id, dev1[block_id]));
                            assert(slot_for(self.slots(), block_id) is Some);
                        }
                        Ok(BlockHandle { block_id })
                    },
                }
            },
        }
    }

    /// The position of the buffer of a cached block.
    fn locate(&self, block_id: usize) -> (i: usize)
        requires
            distinct(self.slots()),
            cached(self.slots(), block_id),
        ensures
            i < self.slots().len(),
            i == index_of(self.slots(), block_id),
            self.slots()[i as int].block_id == block_id,
    {
        match self.position(block_id) {
            Some(i) => i,
            None => 0,
        }
    }

    /// The device under the cache.
    pub fn device(&self) -> (device: &D)
        ensures
            disk_of(device) == self.device_view(),
    {
        &self.device
    }

    /// Whether block `block_id` has a buffer.
    pub fn contains(&self, block_id: usize) -> (res: bool)
        requires
            self.wf(),
        ensures
            res == self.is_cached(block_id),
    {
        self.position(block_id).is_some()
    }

    /// Gives back one handle. The buffer stays cached, and can be evicted
    /// once no handle on it is left.
    pub fn release(&mut self, handle: BlockHandle)
        requires
            old(self).wf(),
        ensures
            final(self).wf(),
            final(self)@ == old(self)@,
            final(self).device_view() == old(self).device_view(),
            final(self).slots() == released(old(self).slots(), handle.id()),
            forall|id: usize| #[trigger]
                final(self).ref_count(id) == if id == handle.id() && old(self).ref_count(id) > 0 {
                    (old(self).ref_count(id) - 1) as nat
                } else {
                    old(self).ref_count(id)
                },
            forall|id: usize| #[trigger] final(self).is_cached(id) == old(self).is_cached(id),
            forall|id: usize| #[trigger]
                final(self).is_most_recent(id) == old(self).is_most_recent(id),
    {
        let ghost slots0 = self.slots();
        match self.position(handle.block_id) {
            Some(i) => {
                if self.queue[i].refs > 0 {
                    let entry = &mut self.queue[i];
                    entry.refs = entry.refs - 1;
                    proof {
                        let s = Slot { refs: (slots0[i as int].refs - 1) as nat, ..slots0[i as int] };
                        assert(self.slots() =~= slots0.update(i as int, s));
                        lemma_replaced(slots0, self.device_view(), i as int, s);
                        lemma_slot_for_index(slots0, i as int);
                        assert(overlay(slots0, self.device_view()).insert(s.block_id, s.data)
                            =~= overlay(slots0, self.device_view()));
                    }
                }
            },
            None => {},
        }
    }

    /// The `len` bytes of a cached block from `offset` on, as the cache holds them.
    pub fn read(&self, handle: &BlockHandle, offset: usize, len: usize) -> (out: &[u8])
        requires
            self.wf(),
            self.is_cached(handle.id()),
            offset + len <= BLOCK_SZ,
        ensures
            out@ == self@[handle.id()].subrange(offset as int, offset + len),
    {
        let i = self.locate(handle.block_id);
        proof {
            lemma_slot_for_index(self.slots(), i as int);
        }
        self.queue[i].read(offset, len)
    }

    /// Writes `src` over a cached block from `offset` on. The buffer becomes
    /// dirty; the device is not touched.
    pub fn modify(&mut self, handle: &BlockHandle, offset: usize, src: &[u8])
        requires
            old(self).wf(),
            old(self).is_cached(handle.id()),
            offset + src@.len() <= BLOCK_SZ,
        ensures
            final(self).wf(),
            final(self)@ == old(self)@.insert(
                handle.id(),
                splice(old(self)@[handle.id()], offset as int, src@),
            ),
            final(self).device_view() == old(self).device_view(),
            final(self).slots() == modified(old(self).slots(), handle.id(), offset as int, src@),
            forall|id: usize| #[trigger] final(self).ref_count(id) == old(self).ref_count(id),
            forall|id: usize| #[trigger] final(self).is_cached(id) == old(self).is_cached(id),
            forall|id: usize| #[trigger]
                final(self).is_most_recent(id) == old(self).is_most_recent(id),
    {
        let ghost slots0 = self.slots();
        let i = self.locate(handle.block_id);
        let entry = &mut self.queue[i];
        entry.modify(offset, src);
        proof {
            let s = Slot {
                data: splice(slots0[i as int].data, offset as int, src@),
                dirty: true,
                ..slots0[i as int]
            };
            assert(self.slots() =~= slots0.update(i as int, s));
            lemma_slot_for_index(slots0, i as int);
            lemma_replaced(slots0, self.device_view(), i as int, s);
        }
    }

    /// Writes every dirty buffer to the device and marks it clean. Stops at
    /// the first failed transfer. Afterwards, on success, the device holds
    /// what the cache shows.
    pub fn sync_all(&mut self) -> (res: Result<(), FsError>)
        requires
            old(self).wf(),
        ensures
            final(self).wf(),
            final(self)@ == old(self)@,
            forall|id: usize| #[trigger] final(self).ref_count(id) == old(self).ref_count(id),
            forall|id: usize| #[trigger] final(self).is_cached(id) == old(self).is_cached(id),
            forall|id: usize| #[trigger]
                final(self).is_most_recent(id) == old(self).is_most_recent(id),
            cleaned(old(self).slots()) == old(self).slots() ==> res is Ok
                && final(self).device_view() == old(self).device_view(),
            match res {
                Ok(()) => {
                    &&& final(self).slots() == cleaned(old(self).slots())
                    &&& forall|id: usize| #[trigger]
                        final(self).device_view()[id] == old(self)@[id]
                },
                Err(e) => e == FsError::Io,
            },
    {
        let ghost slots0 = self.slots();
        let ghost dev0 = self.device_view();
        let mut i: usize = 0;
        while i < self.queue.len()
            invariant
                i <= self.queue@.len(),
                slots0 == old(self).slots(),
                dev0 == old(self).device_view(),
                self.slots().len() == slots0.len(),
                slots_wf(slots0, dev0),
                slots_wf(self.slots(), self.device_view()),
                overlay(self.slots(), self.device_view()) == overlay(slots0, dev0),
                forall|k: int|
                    0 <= k < slots0.len() ==> #[trigger] self.slots()[k] == if k < i {
                        Slot { dirty: false, ..slots0[k] }
                    } else {
                        slots0[k]
                    },
                (forall|k: int| 0 <= k < i ==> !(#[trigger] slots0[k]).dirty) ==> self.device_view()
                    == dev0,
            decreases self.queue@.len() - i,
        {
            let ghost slots1 = self.slots();
            let ghost dev1 = self.device_view();
            let entry = &mut self.queue[i];
            let r = entry.sync(&mut self.device);
            proof {
                let s = Slot { dirty: self.slots()[i as int].dirty, ..slots1[i as int] };
                assert(self.slots() =~= slots1.update(i as int, s));
                lemma_slot_for_index(slots1, i as int);
                if slots1[i as int].dirty {
                    lemma_device_changed_under_dirty(slots1, dev1, self.device_view(), i as int);
                }
                lemma_replaced(slots1, self.device_view(), i as int, s);
                assert(overlay(slots1, self.device_view()).insert(s.block_id, s.data) =~= overlay(
                    slots1,
                    self.device_view(),
                ));
            }
            if r.is_err() {
                proof {
                    Self::lemma_same_blocks(slots0, self.slots());
                    assert(slots0[i as int].dirty);
                    assert(cleaned(slots0)[i as int] != slots0[i as int]);
                }
                return Err(FsError::Io);
            }
            i = i + 1;
        }
        proof {
            assert(self.slots() =~= cleaned(slots0));
            Self::lemma_same_blocks(slots0, self.slots());
            assert forall|id: usize| #[trigger] self.device_view()[id] == overlay(slots0, dev0)[id] by {
                if cached(self.slots(), id) {
                    let k = index_of(self.slots(), id);
                    assert(!self.slots()[k].dirty);
                }
            }
            if cleaned(slots0) == slots0 {
                assert forall|k: int| 0 <= k < slots0.len() implies !(#[trigger] slots0[k]).dirty by {
                    assert(cleaned(slots0)[k] == slots0[k]);
                }
            }
        }
        Ok(())
    }

    /// Two caches that hold the same blocks with the same counts of handles,
    /// slot by slot, answer alike for every block.
    proof fn lemma_same_blocks(a: Seq<Slot>, b: Seq<Slot>)
        requires
            distinct(a),
            distinct(b),
            a.len() == b.len(),
            forall|k: int|
                0 <= k < a.len() ==> (#[trigger] a[k]).block_id == b[k].block_id && a[k].refs
                    == b[k].refs,
        ensures
            forall|id: usize| #[trigger] refs_of(b, id) == refs_of(a, id),
            forall|id: usize| #[trigger] cached(b, id) == cached(a, id),
    {
        assert forall|id: usize| #[trigger]
            cached(b, id) == cached(a, id) && refs_of(b, id) == refs_of(a, id) by {
            if cached(a, id) {
                let k = index_of(a, id);
                assert(b[k].block_id == id);
                lemma_slot_for_index(a, k);
                lemma_slot_for_index(b, k);
            } else if cached(b, id) {
                let k = index_of(b, id);
                assert(a[k].block_id == id);
                assert(false);
            }
        }
    }

    /// Every block seen through a sound cache holds `BLOCK_SZ` bytes.
    pub proof fn lemma_view_sized(&self)
        requires
            self.wf(),
        ensures
            disk_sized(self@),
            disk_sized(self.device_view()),
    {
        lemma_disk_of_sized(&self.device);
        assert forall|id: usize| (#[trigger] self@[id]).len() == BLOCK_SZ by {
            if cached(self.slots(), id) {
                let k = index_of(self.slots(), id);
                assert(self.slots()[k].data.len() == BLOCK_SZ);
            } else {
                assert(self.device_view()[id].len() == BLOCK_SZ);
            }
        }
    }

    /// A cache without outstanding handles never refuses a request.
    pub proof fn lemma_idle_can_pin(&self, id: usize)
        requires
            self.wf(),
            self.idle(),
        ensures
            !cannot_pin(self.slots(), id),
    {
        let slots = self.slots();
        match slot_for(slots, id) {
            Some(s) => {
                assert(self.ref_count(id) == 0);
            },
            None => {
                if slots.len() >= BLOCK_CACHE_SIZE && all_referenced(slots) {
                    lemma_slot_for_index(slots, 0);
                    assert(self.ref_count(slots[0].block_id) == 0);
                    assert(slots[0].refs > 0);
                }
            },
        }
    }
}

} // verus!
