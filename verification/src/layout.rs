//! The layout of the disk: block 0 holds the superblock, then come the inode
//! bitmap, the inode area, the data bitmap and the data area, in that order.
//! Every boundary is derived from the counts in the superblock.

use vstd::prelude::*;
use crate::codec::{
    decode_word, encode_words, le_words, lemma_le_words_cover, lemma_words_round_trip, words_le,
};
use crate::config::{BLOCK_BITS, BLOCK_SZ, EFS_MAGIC, INODE_SZ, SUPER_BLOCK_SZ};

verus! {

/// The record at the start of block 0.
#[derive(Clone, Copy, Debug, PartialEq, Eq, Structural)]
pub struct SuperBlock {
    /// `EFS_MAGIC` on a valid image.
    pub magic: u32,
    /// Blocks of the whole filesystem.
    pub total_blocks: u32,
    /// Blocks of the inode bitmap.
    pub inode_bitmap_blocks: u32,
    /// Blocks of the inode area.
    pub inode_area_blocks: u32,
    /// Blocks of the data bitmap.
    pub data_bitmap_blocks: u32,
    /// Blocks of the data area.
    pub data_area_blocks: u32,
}

/// Blocks of the inode area that holds one record for each bit of an inode
/// bitmap of `inode_bitmap_blocks` blocks.
pub open spec fn inode_area_blocks_for(inode_bitmap_blocks: int) -> int {
    (inode_bitmap_blocks * BLOCK_BITS * INODE_SZ + BLOCK_SZ - 1) / (BLOCK_SZ as int)
}

/// Blocks of the data bitmap, where bitmap and data area share
/// `data_total_blocks` blocks: one bitmap block for each 4096 data blocks.
pub open spec fn data_bitmap_blocks_for(data_total_blocks: int) -> int {
    (data_total_blocks + 4096) / 4097
}

/// The superblock of a filesystem of `total_blocks` blocks whose inode
/// bitmap has `inode_bitmap_blocks` blocks.
pub open spec fn layout_for(total_blocks: u32, inode_bitmap_blocks: u32) -> SuperBlock {
    let inode_area_blocks = inode_area_blocks_for(inode_bitmap_blocks as int);
    let data_total_blocks = total_blocks - 1 - inode_bitmap_blocks - inode_area_blocks;
    let data_bitmap_blocks = data_bitmap_blocks_for(data_total_blocks);
    SuperBlock {
        magic: EFS_MAGIC,
        total_blocks,
        inode_bitmap_blocks,
        inode_area_blocks: inode_area_blocks as u32,
        data_bitmap_blocks: data_bitmap_blocks as u32,
        data_area_blocks: (data_total_blocks - data_bitmap_blocks) as u32,
    }
}

/// Whether a filesystem can be laid out: there is an inode bitmap, the
/// superblock and the inode regions fit in `total_blocks`, and every inode
/// index fits in 32 bits.
pub open spec fn layout_valid(total_blocks: u32, inode_bitmap_blocks: u32) -> bool {
    &&& inode_bitmap_blocks >= 1
    &&& 1 + inode_bitmap_blocks + inode_area_blocks_for(inode_bitmap_blocks as int)
        <= total_blocks
    &&& layout_for(total_blocks, inode_bitmap_blocks).mountable()
}

impl SuperBlock {
    /// The record as a row of words.
    pub open spec fn words(self) -> Seq<u32> {
        seq![
            self.magic,
            self.total_blocks,
            self.inode_bitmap_blocks,
            self.inode_area_blocks,
            self.data_bitmap_blocks,
            self.data_area_blocks,
        ]
    }

    /// The bytes of the record on disk.
    pub open spec fn bytes(self) -> Seq<u8> {
        words_le(self.words())
    }

    /// The record that the first bytes of block 0 stand for.
    pub open spec fn from_bytes(bytes: Seq<u8>) -> SuperBlock {
        let ws = le_words(bytes, 6);
        SuperBlock {
            magic: ws[0],
            total_blocks: ws[1],
            inode_bitmap_blocks: ws[2],
            inode_area_blocks: ws[3],
            data_bitmap_blocks: ws[4],
            data_area_blocks: ws[5],
        }
    }

    /// The first block of the inode area.
    pub open spec fn inode_area_start(self) -> int {
        1 + self.inode_bitmap_blocks
    }

    /// The first block of the data bitmap.
    pub open spec fn data_bitmap_start(self) -> int {
        1 + self.inode_bitmap_blocks + self.inode_area_blocks
    }

    /// The first block of the data area.
    pub open spec fn data_area_start(self) -> int {
        1 + self.inode_bitmap_blocks + self.inode_area_blocks + self.data_bitmap_blocks
    }

    /// Whether the record can be mounted: the magic number is right, and
    /// every inode index and every index of a block of the data area fits
    /// in 32 bits.
    pub open spec fn mountable(self) -> bool {
        &&& self.magic == EFS_MAGIC
        &&& self.inode_bitmap_blocks * BLOCK_BITS <= u32::MAX
        &&& self.data_area_start() + self.data_area_blocks <= u32::MAX
    }

    /// The number of data blocks that can be handed out: the blocks of the
    /// data area that have a bit in the data bitmap.
    pub open spec fn data_units(self) -> int {
        if self.data_area_blocks <= self.data_bitmap_blocks * BLOCK_BITS {
            self.data_area_blocks as int
        } else {
            self.data_bitmap_blocks * BLOCK_BITS
        }
    }

    /// Fills in the record of a new filesystem.
    pub fn initialize(
        &mut self,
        total_blocks: u32,
        inode_bitmap_blocks: u32,
        inode_area_blocks: u32,
        data_bitmap_blocks: u32,
        data_area_blocks: u32,
    )
        ensures
            *final(self) == (SuperBlock {
                magic: EFS_MAGIC,
                total_blocks,
                inode_bitmap_blocks,
                inode_area_blocks,
                data_bitmap_blocks,
                data_area_blocks,
            }),
    {
        *self = SuperBlock {
            magic: EFS_MAGIC,
            total_blocks,
            inode_bitmap_blocks,
            inode_area_blocks,
            data_bitmap_blocks,
            data_area_blocks,
        };
    }

    /// Whether the record carries the magic number.
    pub fn is_valid(&self) -> (res: bool)
        ensures
            res == (self.magic == EFS_MAGIC),
    {
        self.magic == EFS_MAGIC
    }

    /// Whether the record can be mounted.
    pub fn is_mountable(&self) -> (res: bool)
        ensures
            res == self.mountable(),
    {
        let start = 1 + self.inode_bitmap_blocks as u64 + self.inode_area_blocks as u64
            + self.data_bitmap_blocks as u64;
        self.magic == EFS_MAGIC && self.inode_bitmap_blocks as u64 * 4096 <= 0xffff_ffff && start
            + self.data_area_blocks as u64 <= 0xffff_ffff
    }

    /// The number of data blocks that can be handed out.
    pub fn data_unit_count(&self) -> (n: u32)
        ensures
            n == self.data_units(),
    {
        let bits = self.data_bitmap_blocks as u64 * 4096;
        if self.data_area_blocks as u64 <= bits {
            self.data_area_blocks
        } else {
            bits as u32
        }
    }

    /// The bytes of the record on disk.
    pub fn encode(&self) -> (out: Vec<u8>)
        ensures
            out@ == self.bytes(),
            out@.len() == SUPER_BLOCK_SZ,
    {
        let ws = [
            self.magic,
            self.total_blocks,
            self.inode_bitmap_blocks,
            self.inode_area_blocks,
            self.data_bitmap_blocks,
            self.data_area_blocks,
        ];
        assert(ws@ =~= self.words());
        encode_words(ws.as_slice())
    }

    /// The record that `bytes` stand for.
    pub fn decode(bytes: &[u8]) -> (sb: SuperBlock)
        requires
            bytes@.len() >= SUPER_BLOCK_SZ,
        ensures
            sb == SuperBlock::from_bytes(bytes@),
    {
        SuperBlock {
            magic: decode_word(bytes, 0),
            total_blocks: decode_word(bytes, 1),
            inode_bitmap_blocks: decode_word(bytes, 2),
            inode_area_blocks: decode_word(bytes, 3),
            data_bitmap_blocks: decode_word(bytes, 4),
            data_area_blocks: decode_word(bytes, 5),
        }
    }

    /// A record is recovered from its bytes, whatever follows them.
    pub proof fn lemma_round_trip(self, rest: Seq<u8>)
        ensures
            self.bytes().len() == SUPER_BLOCK_SZ,
            SuperBlock::from_bytes(self.bytes() + rest) == self,
    {
        let ws = self.words();
        let all = self.bytes() + rest;
        lemma_words_round_trip(ws);
        assert(all.subrange(0, 24) =~= self.bytes().subrange(0, 24));
        lemma_le_words_cover(all, self.bytes(), 6);
        assert(le_words(all, 6) == ws);
        assert(ws[0] == self.magic && ws[1] == self.total_blocks && ws[2]
            == self.inode_bitmap_blocks);
        assert(ws[3] == self.inode_area_blocks && ws[4] == self.data_bitmap_blocks && ws[5]
            == self.data_area_blocks);
    }
}

/// The layout of a new filesystem, where it has one.
pub fn compute_layout(total_blocks: u32, inode_bitmap_blocks: u32) -> (res: Option<SuperBlock>)
    ensures
        res == if layout_valid(total_blocks, inode_bitmap_blocks) {
            Some(layout_for(total_blocks, inode_bitmap_blocks))
        } else {
            None
        },
{
    if inode_bitmap_blocks == 0 {
        return None;
    }
    let inode_num = inode_bitmap_blocks as u64 * 4096;
    let inode_area_blocks = (inode_num * 128 + 511) / 512;
    let inode_total_blocks = inode_bitmap_blocks as u64 + inode_area_blocks;
    if 1 + inode_total_blocks > total_blocks as u64 {
        return None;
    }
    let data_total_blocks = total_blocks as u64 - 1 - inode_total_blocks;
    let data_bitmap_blocks = (data_total_blocks + 4096) / 4097;
    let data_area_blocks = data_total_blocks - data_bitmap_blocks;
    let sb = SuperBlock {
        magic: EFS_MAGIC,
        total_blocks,
        inode_bitmap_blocks,
        inode_area_blocks: inode_area_blocks as u32,
        data_bitmap_blocks: data_bitmap_blocks as u32,
        data_area_blocks: data_area_blocks as u32,
    };
    if sb.is_mountable() {
        Some(sb)
    } else {
        None
    }
}

/// The regions of a valid layout lie in order, without gaps, and end where
/// the filesystem ends: the inode area ends no later than the data area
/// starts, the data area ends at `total_blocks`, and every block of the data
/// area has a bit in the data bitmap.
pub proof fn lemma_layout_regions(total_blocks: u32, inode_bitmap_blocks: u32)
    requires
        layout_valid(total_blocks, inode_bitmap_blocks),
    ensures
        ({
            let sb = layout_for(total_blocks, inode_bitmap_blocks);
            &&& sb.total_blocks == total_blocks
            &&& sb.inode_bitmap_blocks == inode_bitmap_blocks
            &&& sb.inode_area_blocks == 1024 * inode_bitmap_blocks
            &&& sb.inode_area_start() + sb.inode_area_blocks <= sb.data_area_start()
            &&& sb.data_area_start() + sb.data_area_blocks == total_blocks
            &&& sb.data_area_blocks <= sb.data_bitmap_blocks * BLOCK_BITS
            &&& sb.data_units() == sb.data_area_blocks
        }),
{
}

} // verus!
