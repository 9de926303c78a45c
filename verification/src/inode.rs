//! The on-disk inode record: one fixed-size record per inode slot, holding
//! the kind of the inode, the size of its content and its block pointers.

use vstd::prelude::*;
use crate::codec::{decode_word, encode_words, le_words, lemma_words_round_trip, words_le};
use crate::config::{INODE_DIRECT_COUNT, INODE_SZ};

verus! {

/// The kind of an inode.
#[derive(Clone, Copy, Debug, PartialEq, Eq, Structural)]
pub enum DiskInodeType {
    /// A regular file.
    File,
    /// A directory.
    Directory,
}

/// The inode record, 32 words on disk: the size, the direct block
/// pointers, the two indirect block pointers, and the kind.
#[derive(Clone, Copy, Debug, PartialEq, Eq)]
pub struct DiskInode {
    /// Bytes of content.
    pub size: u32,
    /// Blocks that hold the start of the content.
    pub direct: [u32; INODE_DIRECT_COUNT],
    /// Block of pointers to further content blocks.
    pub indirect1: u32,
    /// Block of pointers to blocks of pointers.
    pub indirect2: u32,
    /// The kind of the inode.
    pub kind: DiskInodeType,
}

/// What an inode record holds.
pub struct DiskInodeView {
    /// Bytes of content.
    pub size: u32,
    /// Blocks that hold the start of the content.
    pub direct: Seq<u32>,
    /// Block of pointers to further content blocks.
    pub indirect1: u32,
    /// Block of pointers to blocks of pointers.
    pub indirect2: u32,
    /// The kind of the inode.
    pub kind: DiskInodeType,
}

/// The word that stands for a kind on disk.
pub open spec fn kind_tag(kind: DiskInodeType) -> u32 {
    match kind {
        DiskInodeType::File => 0,
        DiskInodeType::Directory => 1,
    }
}

/// The kind that the last word of a record stands for: its lowest byte decides.
pub open spec fn tag_kind(word: u32) -> Option<DiskInodeType> {
    if word % 256 == 0 {
        Some(DiskInodeType::File)
    } else if word % 256 == 1 {
        Some(DiskInodeType::Directory)
    } else {
        None
    }
}

impl DiskInodeView {
    /// The record of a new inode of kind `kind`: no content, no blocks.
    pub open spec fn fresh(kind: DiskInodeType) -> DiskInodeView {
        DiskInodeView {
            size: 0,
            direct: Seq::new(INODE_DIRECT_COUNT as nat, |i: int| 0u32),
            indirect1: 0,
            indirect2: 0,
            kind,
        }
    }

    /// The record as a row of words.
    pub open spec fn words(self) -> Seq<u32> {
        seq![self.size] + self.direct + seq![self.indirect1, self.indirect2, kind_tag(self.kind)]
    }

    /// The bytes of the record on disk.
    pub open spec fn bytes(self) -> Seq<u8> {
        words_le(self.words())
    }

    /// The record that `bytes` stand for, if their kind is known.
    pub open spec fn from_bytes(bytes: Seq<u8>) -> Option<DiskInodeView> {
        let ws = le_words(bytes, 32);
        match tag_kind(ws[31]) {
            Some(kind) => Some(
                DiskInodeView {
                    size: ws[0],
                    direct: ws.subrange(1, 29),
                    indirect1: ws[29],
                    indirect2: ws[30],
                    kind,
                },
            ),
            None => None,
        }
    }

    /// A record is recovered from its bytes, whatever follows them.
    pub proof fn lemma_round_trip(self, rest: Seq<u8>)
        requires
            self.direct.len() == INODE_DIRECT_COUNT,
        ensures
            self.bytes().len() == INODE_SZ,
            DiskInodeView::from_bytes(self.bytes() + rest) == Some(self),
    {
        lemma_words_round_trip(self.words());
        let all = self.bytes() + rest;
        assert forall|i: int| 0 <= i < 32 implies le_words(all, 32)[i] == self.words()[i] by {
            assert(all.subrange(4 * i, 4 * i + 4) =~= self.bytes().subrange(4 * i, 4 * i + 4));
            assert(le_words(self.bytes(), 32)[i] == self.words()[i]);
        }
        assert(le_words(all, 32) =~= self.words());
        assert(self.words().subrange(1, 29) =~= self.direct);
    }
}

impl View for DiskInode {
    type V = DiskInodeView;

    open spec fn view(&self) -> DiskInodeView {
        DiskInodeView {
            size: self.size,
            direct: self.direct@,
            indirect1: self.indirect1,
            indirect2: self.indirect2,
            kind: self.kind,
        }
    }
}

impl DiskInode {
    /// The record of a new inode of kind `kind`.
    pub fn new(kind: DiskInodeType) -> (inode: DiskInode)
        ensures
            inode@ == DiskInodeView::fresh(kind),
    {
        let inode = DiskInode {
            size: 0,
            direct: [0u32; INODE_DIRECT_COUNT],
            indirect1: 0,
            indirect2: 0,
            kind,
        };
        assert(inode@.direct =~= DiskInodeView::fresh(kind).direct);
        inode
    }

    /// Makes the record that of a new inode of kind `kind`.
    pub fn initialize(&mut self, kind: DiskInodeType)
        ensures
            final(self)@ == DiskInodeView::fresh(kind),
    {
        *self = DiskInode::new(kind);
    }

    /// Whether the inode is a directory.
    pub fn is_dir(&self) -> (res: bool)
        ensures
            res == (self@.kind == DiskInodeType::Directory),
    {
        self.kind == DiskInodeType::Directory
    }

    /// Whether the inode is a regular file.
    pub fn is_file(&self) -> (res: bool)
        ensures
            res == (self@.kind == DiskInodeType::File),
    {
        self.kind == DiskInodeType::File
    }

    /// The bytes of the record on disk.
    pub fn encode(&self) -> (out: Vec<u8>)
        ensures
            out@ == self@.bytes(),
            out@.len() == INODE_SZ,
    {
        let mut ws: Vec<u32> = Vec::new();
        ws.push(self.size);
        let mut i: usize = 0;
        while i < INODE_DIRECT_COUNT
            invariant
                i <= INODE_DIRECT_COUNT,
                ws@ == seq![self.size] + self.direct@.take(i as int),
            decreases INODE_DIRECT_COUNT - i,
        {
            ws.push(self.direct[i]);
            i = i + 1;
            assert(ws@ =~= seq![self.size] + self.direct@.take(i as int));
        }
        ws.push(self.indirect1);
        ws.push(self.indirect2);
        ws.push(
            match self.kind {
                DiskInodeType::File => 0,
                DiskInodeType::Directory => 1,
            },
        );
        assert(self.direct@.take(INODE_DIRECT_COUNT as int) =~= self.direct@);
        assert(ws@ =~= self@.words());
        encode_words(ws.as_slice())
    }

    /// The record that `bytes` stand for, if their kind is known.
    pub fn decode(bytes: &[u8]) -> (res: Option<DiskInode>)
        requires
            bytes@.len() >= INODE_SZ,
        ensures
            match res {
                Some(inode) => DiskInodeView::from_bytes(bytes@) == Some(inode@),
                None => DiskInodeView::from_bytes(bytes@) is None,
            },
    {
        let tag = decode_word(bytes, 31) % 256;
        let kind = if tag == 0 {
            DiskInodeType::File
        } else if tag == 1 {
            DiskInodeType::Directory
        } else {
            return None;
        };
        let mut direct = [0u32; INODE_DIRECT_COUNT];
        let mut i: usize = 0;
        while i < INODE_DIRECT_COUNT
            invariant
                i <= INODE_DIRECT_COUNT,
                bytes@.len() >= INODE_SZ,
                forall|k: int| 0 <= k < i ==> direct@[k] == le_words(bytes@, 32)[k + 1],
            decreases INODE_DIRECT_COUNT - i,
        {
            direct[i] = decode_word(bytes, i + 1);
            i = i + 1;
        }
        let inode = DiskInode {
            size: decode_word(bytes, 0),
            direct,
            indirect1: decode_word(bytes, 29),
            indirect2: decode_word(bytes, 30),
            kind,
        };
        assert(inode@.direct =~= le_words(bytes@, 32).subrange(1, 29));
        Some(inode)
    }
}

} // verus!
