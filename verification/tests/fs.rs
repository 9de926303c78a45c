use std::cell::Cell;
use std::rc::Rc;
use std::sync::Arc;

use easy_fs::config::{BLOCK_SZ, EFS_MAGIC};
use easy_fs::device::{BlockDevice, IoError, RamDisk};
use easy_fs::efs::EasyFileSystem;
use easy_fs::error::FsError;
use easy_fs::inode::{DiskInode, DiskInodeType};
use easy_fs::layout::{compute_layout, SuperBlock};

const TOTAL: u32 = 2048;
const INODE_AREA_START: u32 = 2;
const DATA_BITMAP_START: usize = 1026;
const DATA_AREA_START: u32 = 1027;

/// A device in memory whose transfers fail once a budget is used up.
struct BudgetDisk {
    inner: RamDisk,
    left: Rc<Cell<usize>>,
}

impl BudgetDisk {
    fn spend(&self) -> Result<(), IoError> {
        if self.left.get() == 0 {
            return Err(IoError);
        }
        self.left.set(self.left.get() - 1);
        Ok(())
    }
}

impl BlockDevice for BudgetDisk {
    fn read_block(&self, block_id: usize, buf: &mut [u8; BLOCK_SZ]) -> Result<(), IoError> {
        self.spend()?;
        self.inner.read_block(block_id, buf)
    }

    fn write_block(&mut self, block_id: usize, buf: &[u8; BLOCK_SZ]) -> Result<(), IoError> {
        self.spend()?;
        self.inner.write_block(block_id, buf)
    }
}

fn garbage_disk(blocks: usize) -> RamDisk {
    let mut disk = RamDisk::new(blocks);
    for id in 0..blocks {
        let mut block = [0u8; BLOCK_SZ];
        for (i, byte) in block.iter_mut().enumerate() {
            *byte = ((id * 13 + i * 5 + 3) % 255 + 1) as u8;
        }
        disk.write_block(id, &block).unwrap();
    }
    disk
}

fn fresh() -> EasyFileSystem<RamDisk> {
    match EasyFileSystem::format(garbage_disk(TOTAL as usize), TOTAL, 1) {
        Ok(fs) => fs,
        Err(e) => panic!("format failed: {:?}", e),
    }
}

fn block_on(disk: &RamDisk, id: usize) -> [u8; BLOCK_SZ] {
    let mut buf = [0xeeu8; BLOCK_SZ];
    disk.read_block(id, &mut buf).unwrap();
    buf
}

#[test]
fn end_to_end_scenario() {
    let shared = match EasyFileSystem::create(RamDisk::new(TOTAL as usize), TOTAL, 1) {
        Ok(shared) => shared,
        Err(e) => panic!("create failed: {:?}", e),
    };
    let root = EasyFileSystem::root_inode(&shared);
    assert_eq!(root.block_id(), INODE_AREA_START as usize);
    assert_eq!(root.block_offset(), 0);
    let mut fs = shared.lock();
    assert_eq!(fs.read_disk_inode(0), Ok(DiskInode::new(DiskInodeType::Directory)));
    assert_eq!(fs.read_block(1, 0, 2), Ok(vec![1, 0]));
    assert_eq!(fs.alloc_inode(), Ok(1));
    let block = fs.alloc_data().unwrap();
    assert!(block >= fs.data_area_start_block());
    assert_eq!(block, DATA_AREA_START);
    assert_eq!(fs.dealloc_data(block), Ok(()));
    assert_eq!(fs.alloc_data(), Ok(block));
}

#[test]
fn create_refuses_a_geometry_without_room() {
    assert_eq!(EasyFileSystem::create(RamDisk::new(32), 32, 1).err(), Some(FsError::InvalidLayout));
    assert_eq!(EasyFileSystem::format(RamDisk::new(32), 32, 1).err(), Some(FsError::InvalidLayout));
    assert_eq!(
        EasyFileSystem::format(RamDisk::new(1025), 1025, 1).err(),
        Some(FsError::InvalidLayout)
    );
    assert_eq!(
        EasyFileSystem::format(RamDisk::new(4096), 4096, 0).err(),
        Some(FsError::InvalidLayout)
    );
    let mut disk = garbage_disk(4);
    let before = block_on(&disk, 0);
    disk = match EasyFileSystem::format(disk, 0, 0) {
        Ok(_) => panic!("a filesystem of no blocks was made"),
        Err(e) => {
            assert_eq!(e, FsError::InvalidLayout);
            garbage_disk(4)
        },
    };
    assert_eq!(block_on(&disk, 0), before);
    assert!(EasyFileSystem::format(RamDisk::new(1026), 1026, 1).is_ok());
}

#[test]
fn regions_follow_the_superblock() {
    let fs = fresh();
    assert_eq!(fs.inode_area_start_block(), INODE_AREA_START);
    assert_eq!(fs.data_area_start_block(), DATA_AREA_START);
    assert_eq!(fs.inode_bitmap().start_block_id(), 1);
    assert_eq!(fs.inode_bitmap().blocks(), 1);
    assert_eq!(fs.inode_bitmap().maximum(), 4096);
    assert_eq!(fs.data_bitmap().start_block_id(), DATA_BITMAP_START);
    assert_eq!(fs.data_bitmap().blocks(), 1);
    let fs = EasyFileSystem::format(RamDisk::new(9000), 9000, 2).unwrap_or_else(|e| panic!("{:?}", e));
    let sb = compute_layout(9000, 2).unwrap();
    assert_eq!(fs.inode_area_start_block(), 3);
    assert_eq!(fs.inode_bitmap().blocks(), 2);
    assert_eq!(fs.data_bitmap().start_block_id(), 3 + 2048);
    assert_eq!(fs.data_bitmap().blocks(), sb.data_bitmap_blocks as usize);
    assert_eq!(fs.data_area_start_block(), 3 + 2048 + sb.data_bitmap_blocks);
    assert_eq!(fs.data_area_start_block() + sb.data_area_blocks, 9000);
}

#[test]
fn inode_positions_pack_four_records_per_block() {
    let fs = fresh();
    assert_eq!(fs.get_disk_inode_pos(0), (2, 0));
    assert_eq!(fs.get_disk_inode_pos(1), (2, 128));
    assert_eq!(fs.get_disk_inode_pos(2), (2, 256));
    assert_eq!(fs.get_disk_inode_pos(3), (2, 384));
    assert_eq!(fs.get_disk_inode_pos(4), (3, 0));
    assert_eq!(fs.get_disk_inode_pos(4095), (2 + 1023, 384));
    assert_eq!(fs.get_disk_inode_pos(41), (12, 128));
}

#[test]
fn data_block_ids_are_offset_by_the_data_area_start() {
    let fs = fresh();
    assert_eq!(fs.get_data_block_id(0), DATA_AREA_START);
    assert_eq!(fs.get_data_block_id(1), DATA_AREA_START + 1);
    assert_eq!(fs.get_data_block_id(1020), 2047);
}

#[test]
fn every_block_but_the_metadata_is_zero_after_create() {
    let mut fs = fresh();
    assert_eq!(fs.sync(), Ok(()));
    let disk = fs.into_device();
    let sb = compute_layout(TOTAL, 1).unwrap();
    let mut block0 = [0u8; BLOCK_SZ];
    block0[..24].copy_from_slice(&sb.encode());
    let mut block1 = [0u8; BLOCK_SZ];
    block1[0] = 1;
    let mut root = [0u8; BLOCK_SZ];
    root[..128].copy_from_slice(&DiskInode::new(DiskInodeType::Directory).encode());
    assert_eq!(root[124], 1);
    for id in 0..TOTAL as usize {
        let expected = match id {
            0 => block0,
            1 => block1,
            2 => root,
            _ => [0u8; BLOCK_SZ],
        };
        assert_eq!(block_on(&disk, id), expected, "block {}", id);
    }
}

#[test]
fn create_zeroes_only_its_own_blocks() {
    let mut fs = match EasyFileSystem::format(garbage_disk(1100), 1030, 1) {
        Ok(fs) => fs,
        Err(e) => panic!("format failed: {:?}", e),
    };
    assert_eq!(fs.sync(), Ok(()));
    let disk = fs.into_device();
    let garbage = garbage_disk(1100);
    assert_eq!(block_on(&disk, 1029), [0u8; BLOCK_SZ]);
    for id in 1030..1100 {
        assert_eq!(block_on(&disk, id), block_on(&garbage, id));
    }
}

#[test]
fn opening_after_creating_gives_the_same_regions() {
    let mut created = fresh();
    assert_eq!(created.alloc_inode(), Ok(1));
    assert_eq!(created.alloc_data(), Ok(DATA_AREA_START));
    let regions = (
        created.inode_bitmap().start_block_id(),
        created.inode_bitmap().blocks(),
        created.inode_area_start_block(),
        created.data_bitmap().start_block_id(),
        created.data_bitmap().blocks(),
        created.data_area_start_block(),
    );
    assert_eq!(created.sync(), Ok(()));
    let disk = created.into_device();
    assert_eq!(SuperBlock::decode(&block_on(&disk, 0)), compute_layout(TOTAL, 1).unwrap());
    let mut opened = EasyFileSystem::mount(disk).unwrap_or_else(|e| panic!("{:?}", e));
    assert_eq!(
        (
            opened.inode_bitmap().start_block_id(),
            opened.inode_bitmap().blocks(),
            opened.inode_area_start_block(),
            opened.data_bitmap().start_block_id(),
            opened.data_bitmap().blocks(),
            opened.data_area_start_block(),
        ),
        regions
    );
    assert_eq!(opened.alloc_inode(), Ok(2));
    assert_eq!(opened.alloc_data(), Ok(DATA_AREA_START + 1));
    assert_eq!(opened.read_disk_inode(0), Ok(DiskInode::new(DiskInodeType::Directory)));
}

#[test]
fn open_shares_a_mounted_filesystem() {
    let mut created = fresh();
    created.sync().unwrap();
    let shared = match EasyFileSystem::open(created.into_device()) {
        Ok(shared) => shared,
        Err(e) => panic!("open failed: {:?}", e),
    };
    let other = Arc::clone(&shared);
    assert_eq!(shared.lock().alloc_inode(), Ok(1));
    assert_eq!(other.lock().alloc_inode(), Ok(2));
    let root = EasyFileSystem::root_inode(&other);
    assert_eq!((root.block_id(), root.block_offset()), (2, 0));
    assert!(Arc::ptr_eq(root.fs(), &shared));
    assert!(shared.try_lock().is_some());
}

#[test]
fn open_refuses_a_device_without_a_filesystem() {
    assert_eq!(EasyFileSystem::mount(RamDisk::new(64)).err(), Some(FsError::InvalidFilesystem));
    assert_eq!(EasyFileSystem::open(RamDisk::new(64)).err(), Some(FsError::InvalidFilesystem));
    assert_eq!(EasyFileSystem::mount(garbage_disk(64)).err(), Some(FsError::InvalidFilesystem));
    let mut disk = RamDisk::new(64);
    let mut sb = compute_layout(TOTAL, 1).unwrap();
    sb.magic = EFS_MAGIC ^ 1;
    let mut block = [0u8; BLOCK_SZ];
    block[..24].copy_from_slice(&sb.encode());
    disk.write_block(0, &block).unwrap();
    assert_eq!(EasyFileSystem::mount(disk).err(), Some(FsError::InvalidFilesystem));
    let mut disk = RamDisk::new(64);
    sb.magic = EFS_MAGIC;
    sb.data_bitmap_blocks = u32::MAX;
    block[..24].copy_from_slice(&sb.encode());
    disk.write_block(0, &block).unwrap();
    assert_eq!(EasyFileSystem::mount(disk).err(), Some(FsError::InvalidFilesystem));
}

#[test]
fn open_trusts_the_counts_of_the_superblock() {
    let mut disk = RamDisk::new(64);
    let sb = SuperBlock {
        magic: EFS_MAGIC,
        total_blocks: 64,
        inode_bitmap_blocks: 2,
        inode_area_blocks: 10,
        data_bitmap_blocks: 3,
        data_area_blocks: 48,
    };
    let mut block = [0u8; BLOCK_SZ];
    block[..24].copy_from_slice(&sb.encode());
    disk.write_block(0, &block).unwrap();
    let mut ones = [0u8; BLOCK_SZ];
    ones[0] = 0x0f;
    disk.write_block(13, &ones).unwrap();
    let mut fs = EasyFileSystem::mount(disk).unwrap_or_else(|e| panic!("{:?}", e));
    assert_eq!(fs.inode_area_start_block(), 3);
    assert_eq!(fs.data_bitmap().start_block_id(), 13);
    assert_eq!(fs.data_area_start_block(), 16);
    assert_eq!(fs.alloc_data(), Ok(16 + 4));
    assert_eq!(fs.alloc_inode(), Ok(0));
}

#[test]
fn open_reports_a_failed_read() {
    let disk = BudgetDisk { inner: RamDisk::new(64), left: Rc::new(Cell::new(0)) };
    assert_eq!(EasyFileSystem::mount(disk).err(), Some(FsError::Io));
    let disk = BudgetDisk { inner: RamDisk::new(64), left: Rc::new(Cell::new(0)) };
    assert_eq!(EasyFileSystem::open(disk).err(), Some(FsError::Io));
}

#[test]
fn create_reports_a_failed_transfer() {
    assert_eq!(EasyFileSystem::format(RamDisk::new(100), TOTAL, 1).err(), Some(FsError::Io));
    assert_eq!(EasyFileSystem::create(RamDisk::new(100), TOTAL, 1).err(), Some(FsError::Io));
    for budget in [0usize, 1, 16, 17, 500, 4000] {
        let disk = BudgetDisk {
            inner: RamDisk::new(TOTAL as usize),
            left: Rc::new(Cell::new(budget)),
        };
        assert_eq!(EasyFileSystem::format(disk, TOTAL, 1).err(), Some(FsError::Io));
    }
    let disk = BudgetDisk { inner: RamDisk::new(TOTAL as usize), left: Rc::new(Cell::new(100_000)) };
    assert!(EasyFileSystem::format(disk, TOTAL, 1).is_ok());
}

#[test]
fn inodes_count_up_and_run_out() {
    let mut fs = fresh();
    for expected in 1..4096 {
        assert_eq!(fs.alloc_inode(), Ok(expected));
    }
    assert_eq!(fs.alloc_inode(), Err(FsError::OutOfInodes));
    assert_eq!(fs.alloc_inode(), Err(FsError::OutOfInodes));
    assert_eq!(fs.alloc_data(), Ok(DATA_AREA_START));
}

#[test]
fn data_blocks_count_up_and_run_out() {
    let mut fs = fresh();
    assert_eq!(fs.data_area_blocks(), 1021);
    assert_eq!(fs.data_bitmap().maximum(), 1021);
    for expected in 0..1021 {
        assert_eq!(fs.alloc_data(), Ok(DATA_AREA_START + expected));
    }
    assert_eq!(fs.alloc_data(), Err(FsError::OutOfSpace));
    assert_eq!(fs.dealloc_data(DATA_AREA_START + 77), Ok(()));
    assert_eq!(fs.dealloc_data(DATA_AREA_START + 5), Ok(()));
    assert_eq!(fs.alloc_data(), Ok(DATA_AREA_START + 5));
    assert_eq!(fs.alloc_data(), Ok(DATA_AREA_START + 77));
    assert_eq!(fs.alloc_data(), Err(FsError::OutOfSpace));
    assert_eq!(fs.alloc_inode(), Ok(1));
}

#[test]
fn data_blocks_lie_inside_the_filesystem() {
    let total = 4096u32;
    let mut fs = EasyFileSystem::format(RamDisk::new(total as usize), total, 1)
        .unwrap_or_else(|e| panic!("{:?}", e));
    assert_eq!(fs.data_area_start_block(), 1027);
    assert_eq!(fs.data_area_blocks(), 3069);
    assert_eq!(fs.data_area_start_block() + fs.data_area_blocks(), total);
    for expected in 1027..total {
        let block = fs.alloc_data().unwrap();
        assert_eq!(block, expected);
        assert!(block < total);
    }
    assert_eq!(fs.write_data(total - 1, 0, &[7]), Ok(()));
    assert_eq!(fs.alloc_data(), Err(FsError::OutOfSpace));
    assert_eq!(fs.dealloc_data(total), Err(FsError::NotAllocated));
    assert_eq!(fs.write_data(total, 0, &[7]), Err(FsError::NotAllocated));
    assert_eq!(fs.read_block(1026, 380, 8), Ok(vec![0xff, 0xff, 0xff, 0x1f, 0, 0, 0, 0]));
    assert_eq!(fs.dealloc_data(total - 1), Ok(()));
    assert_eq!(fs.alloc_data(), Ok(total - 1));
    assert_eq!(fs.sync(), Ok(()));
}

#[test]
fn a_data_area_larger_than_its_bitmap_is_used_as_far_as_the_bitmap_goes() {
    let mut disk = RamDisk::new(6000);
    let sb = SuperBlock {
        magic: EFS_MAGIC,
        total_blocks: 6000,
        inode_bitmap_blocks: 1,
        inode_area_blocks: 2,
        data_bitmap_blocks: 1,
        data_area_blocks: 5000,
    };
    let mut block = [0u8; BLOCK_SZ];
    block[..24].copy_from_slice(&sb.encode());
    disk.write_block(0, &block).unwrap();
    disk.write_block(4, &[0xff; BLOCK_SZ]).unwrap();
    let mut fs = EasyFileSystem::mount(disk).unwrap_or_else(|e| panic!("{:?}", e));
    assert_eq!(fs.data_area_blocks(), 5000);
    assert_eq!(fs.data_bitmap().maximum(), 4096);
    assert_eq!(fs.alloc_data(), Err(FsError::OutOfSpace));
    assert_eq!(fs.dealloc_data(5 + 4095), Ok(()));
    assert_eq!(fs.dealloc_data(5 + 4096), Err(FsError::NotAllocated));
    assert_eq!(fs.alloc_data(), Ok(5 + 4095));
}

#[test]
fn spare_bits_of_the_data_bitmap_are_never_handed_out() {
    let mut disk = RamDisk::new(64);
    let sb = SuperBlock {
        magic: EFS_MAGIC,
        total_blocks: 15,
        inode_bitmap_blocks: 1,
        inode_area_blocks: 2,
        data_bitmap_blocks: 1,
        data_area_blocks: 10,
    };
    let mut block = [0u8; BLOCK_SZ];
    block[..24].copy_from_slice(&sb.encode());
    disk.write_block(0, &block).unwrap();
    let mut spare = [0u8; BLOCK_SZ];
    spare[1] = 0b1000;
    disk.write_block(4, &spare).unwrap();
    let mut fs = EasyFileSystem::mount(disk).unwrap_or_else(|e| panic!("{:?}", e));
    assert_eq!(fs.data_bitmap().maximum(), 10);
    for expected in 5..15 {
        assert_eq!(fs.alloc_data(), Ok(expected));
    }
    assert_eq!(fs.alloc_data(), Err(FsError::OutOfSpace));
    assert_eq!(fs.dealloc_data(16), Err(FsError::NotAllocated));
    assert_eq!(fs.dealloc_data(15), Err(FsError::NotAllocated));
    assert_eq!(fs.read_block(4, 0, 2), Ok(vec![0xff, 0b1011]));
    assert_eq!(fs.dealloc_data(14), Ok(()));
    assert_eq!(fs.alloc_data(), Ok(14));
}

#[test]
fn releasing_a_data_block_twice_is_refused() {
    let mut fs = fresh();
    let block = fs.alloc_data().unwrap();
    let other = fs.alloc_data().unwrap();
    assert_eq!(fs.dealloc_data(block), Ok(()));
    assert_eq!(fs.dealloc_data(block), Err(FsError::NotAllocated));
    assert_eq!(fs.dealloc_data(other + 1), Err(FsError::NotAllocated));
    assert_eq!(fs.dealloc_data(other), Ok(()));
    assert_eq!(fs.dealloc_data(other), Err(FsError::NotAllocated));
    assert_eq!(fs.alloc_data(), Ok(block));
}

#[test]
fn releasing_a_block_outside_the_data_area_is_refused_and_harmless() {
    let mut fs = fresh();
    let block0 = fs.read_block(0, 0, BLOCK_SZ).unwrap();
    let block1 = fs.read_block(1, 0, BLOCK_SZ).unwrap();
    let block2 = fs.read_block(2, 0, BLOCK_SZ).unwrap();
    for id in [0u32, 1, 2, DATA_BITMAP_START as u32, DATA_AREA_START - 1, u32::MAX, DATA_AREA_START + 4096] {
        assert_eq!(fs.dealloc_data(id), Err(FsError::NotAllocated));
    }
    assert_eq!(fs.read_block(0, 0, BLOCK_SZ).unwrap(), block0);
    assert_eq!(fs.read_block(1, 0, BLOCK_SZ).unwrap(), block1);
    assert_eq!(fs.read_block(2, 0, BLOCK_SZ).unwrap(), block2);
    assert_eq!(fs.read_block(DATA_BITMAP_START as u32, 0, BLOCK_SZ).unwrap(), vec![0u8; BLOCK_SZ]);
}

#[test]
fn a_reused_data_block_reads_as_zero() {
    let mut fs = fresh();
    let first = fs.alloc_data().unwrap();
    let block = fs.alloc_data().unwrap();
    assert_eq!(fs.write_data(block, 0, &[0x5a; BLOCK_SZ]), Ok(()));
    assert_eq!(fs.write_data(first, 3, b"keep"), Ok(()));
    assert_eq!(fs.read_block(block, 0, BLOCK_SZ), Ok(vec![0x5a; BLOCK_SZ]));
    assert_eq!(fs.dealloc_data(block), Ok(()));
    assert_eq!(fs.read_block(block, 0, BLOCK_SZ), Ok(vec![0u8; BLOCK_SZ]));
    assert_eq!(fs.alloc_data(), Ok(block));
    assert_eq!(fs.read_block(block, 0, BLOCK_SZ), Ok(vec![0u8; BLOCK_SZ]));
    assert_eq!(fs.read_block(first, 0, 8), Ok(vec![0, 0, 0, b'k', b'e', b'e', b'p', 0]));
    assert_eq!(fs.sync(), Ok(()));
    let disk = fs.into_device();
    assert_eq!(block_on(&disk, block as usize), [0u8; BLOCK_SZ]);
    assert_eq!(block_on(&disk, DATA_BITMAP_START)[0], 0b11);
}

#[test]
fn data_can_be_written_to_allocated_data_blocks_only() {
    let mut fs = fresh();
    assert_eq!(fs.write_data(DATA_AREA_START, 0, &[1]), Err(FsError::NotAllocated));
    assert_eq!(fs.write_data(0, 0, &[1]), Err(FsError::NotAllocated));
    assert_eq!(fs.write_data(1, 0, &[0xff]), Err(FsError::NotAllocated));
    assert_eq!(fs.write_data(u32::MAX, 0, &[1]), Err(FsError::NotAllocated));
    let block = fs.alloc_data().unwrap();
    assert_eq!(fs.write_data(block, 510, &[7, 8]), Ok(()));
    assert_eq!(fs.write_data(block, 0, &[]), Ok(()));
    assert_eq!(fs.write_data(block + 1, 0, &[1]), Err(FsError::NotAllocated));
    assert_eq!(fs.read_block(block, 508, 4), Ok(vec![0, 0, 7, 8]));
    assert_eq!(fs.read_block(0, 0, 4), Ok(vec![0x01, 0x00, 0x80, 0x3b]));
    assert_eq!(fs.read_block(5000, 0, 1), Err(FsError::Io));
}

#[test]
fn inode_records_are_stored_in_their_slots() {
    let mut fs = fresh();
    let id = fs.alloc_inode().unwrap();
    assert_eq!(id, 1);
    let mut inode = DiskInode::new(DiskInodeType::File);
    inode.size = 1234;
    inode.direct[0] = DATA_AREA_START;
    inode.direct[27] = 99;
    inode.indirect1 = 5;
    assert_eq!(fs.write_disk_inode(id, &inode), Ok(()));
    assert_eq!(fs.read_disk_inode(id), Ok(inode));
    assert_eq!(fs.read_disk_inode(0), Ok(DiskInode::new(DiskInodeType::Directory)));
    assert_eq!(fs.read_block(2, 128, 128), Ok(inode.encode()));
    assert_eq!(fs.read_disk_inode(2), Ok(DiskInode::new(DiskInodeType::File)));
    assert_eq!(fs.write_disk_inode(4095, &inode), Ok(()));
    assert_eq!(fs.read_block(1025, 384, 128), Ok(inode.encode()));
    assert_eq!(fs.write_disk_inode(4096, &inode), Err(FsError::InvalidInode));
    assert_eq!(fs.read_disk_inode(4096), Err(FsError::InvalidInode));
    assert_eq!(fs.read_disk_inode(u32::MAX), Err(FsError::InvalidInode));
    assert_eq!(fs.read_block(DATA_BITMAP_START as u32, 0, BLOCK_SZ), Ok(vec![0u8; BLOCK_SZ]));
}

#[test]
fn an_inode_record_of_unknown_kind_is_refused() {
    let mut disk = RamDisk::new(64);
    let sb = SuperBlock {
        magic: EFS_MAGIC,
        total_blocks: 64,
        inode_bitmap_blocks: 1,
        inode_area_blocks: 2,
        data_bitmap_blocks: 1,
        data_area_blocks: 59,
    };
    let mut block = [0u8; BLOCK_SZ];
    block[..24].copy_from_slice(&sb.encode());
    disk.write_block(0, &block).unwrap();
    let mut records = [0u8; BLOCK_SZ];
    records[124] = 1;
    records[128 + 124] = 9;
    disk.write_block(2, &records).unwrap();
    let mut fs = EasyFileSystem::mount(disk).unwrap_or_else(|e| panic!("{:?}", e));
    assert_eq!(fs.read_disk_inode(0), Ok(DiskInode::new(DiskInodeType::Directory)));
    assert_eq!(fs.read_disk_inode(1), Err(FsError::InvalidInode));
    assert_eq!(fs.read_disk_inode(7), Ok(DiskInode::new(DiskInodeType::File)));
    assert_eq!(fs.read_disk_inode(8), Err(FsError::InvalidInode));
    assert_eq!(fs.write_disk_inode(8, &DiskInode::new(DiskInodeType::File)), Err(FsError::InvalidInode));
}

#[test]
fn a_failed_transfer_is_told_apart_from_exhaustion() {
    let left = Rc::new(Cell::new(usize::MAX));
    let disk = BudgetDisk { inner: RamDisk::new(TOTAL as usize), left: left.clone() };
    let mut fs = EasyFileSystem::format(disk, TOTAL, 1).unwrap_or_else(|e| panic!("{:?}", e));
    for id in 0..40 {
        fs.read_block(id + 100, 0, 1).unwrap();
    }
    left.set(0);
    assert_eq!(fs.alloc_inode(), Err(FsError::Io));
    assert_eq!(fs.alloc_data(), Err(FsError::Io));
    assert_eq!(fs.dealloc_data(DATA_AREA_START), Err(FsError::Io));
    assert_eq!(fs.read_disk_inode(0), Err(FsError::Io));
    assert_eq!(fs.write_data(DATA_AREA_START, 0, &[1]), Err(FsError::Io));
    left.set(usize::MAX);
    assert_eq!(fs.alloc_inode(), Ok(1));
    assert_eq!(fs.alloc_data(), Ok(DATA_AREA_START));
    assert_eq!(fs.sync(), Ok(()));
    left.set(0);
    assert_eq!(fs.alloc_inode(), Ok(2));
    assert_eq!(fs.sync(), Err(FsError::Io));
    left.set(usize::MAX);
    assert_eq!(fs.sync(), Ok(()));
    assert_eq!(fs.alloc_inode(), Ok(3));
}

#[test]
fn the_lock_is_free_after_root_inode() {
    let shared = EasyFileSystem::create(RamDisk::new(TOTAL as usize), TOTAL, 1)
        .unwrap_or_else(|e| panic!("{:?}", e));
    let first = EasyFileSystem::root_inode(&shared);
    let second = EasyFileSystem::root_inode(&shared);
    assert_eq!(first.block_id(), second.block_id());
    assert_eq!(first.block_offset(), second.block_offset());
    assert_eq!(Arc::strong_count(&shared), 3);
    assert!(!shared.is_locked());
    let guard = shared.lock();
    assert_eq!(guard.get_disk_inode_pos(0), (first.block_id() as u32, first.block_offset()));
}

#[test]
fn releasing_an_inode_frees_it_for_the_next_allocation() {
    let mut fs = fresh();
    assert_eq!(fs.alloc_inode(), Ok(1));
    assert_eq!(fs.alloc_inode(), Ok(2));
    assert_eq!(fs.alloc_inode(), Ok(3));
    assert_eq!(fs.dealloc_inode(2), Ok(()));
    assert_eq!(fs.read_block(1, 0, 2), Ok(vec![0b1011, 0]));
    assert_eq!(fs.dealloc_inode(2), Err(FsError::NotAllocated));
    assert_eq!(fs.dealloc_inode(4), Err(FsError::NotAllocated));
    assert_eq!(fs.read_block(1, 0, 2), Ok(vec![0b1011, 0]));
    assert_eq!(fs.alloc_inode(), Ok(2));
    assert_eq!(fs.alloc_inode(), Ok(4));
    assert_eq!(fs.dealloc_inode(1), Ok(()));
    assert_eq!(fs.dealloc_inode(3), Ok(()));
    assert_eq!(fs.alloc_inode(), Ok(1));
    assert_eq!(fs.alloc_inode(), Ok(3));
    assert_eq!(fs.alloc_inode(), Ok(5));
}

#[test]
fn releasing_an_inode_beyond_the_bitmap_is_refused() {
    let mut fs = fresh();
    for id in [4096u32, 4097, 100_000, u32::MAX] {
        assert_eq!(fs.dealloc_inode(id), Err(FsError::NotAllocated));
    }
    assert_eq!(fs.dealloc_inode(4095), Err(FsError::NotAllocated));
    assert_eq!(fs.read_block(1, 0, BLOCK_SZ).unwrap()[0], 1);
    assert_eq!(fs.alloc_inode(), Ok(1));
}

#[test]
fn releasing_an_inode_keeps_its_record() {
    let mut fs = fresh();
    let id = fs.alloc_inode().unwrap();
    let mut inode = DiskInode::new(DiskInodeType::File);
    inode.size = 9;
    assert_eq!(fs.write_disk_inode(id, &inode), Ok(()));
    assert_eq!(fs.dealloc_inode(id), Ok(()));
    assert_eq!(fs.read_disk_inode(id), Ok(inode));
    assert_eq!(fs.dealloc_inode(0), Ok(()));
    assert_eq!(fs.read_disk_inode(0), Ok(DiskInode::new(DiskInodeType::Directory)));
    assert_eq!(fs.alloc_inode(), Ok(0));
    assert_eq!(fs.alloc_inode(), Ok(1));
}

#[test]
fn a_clean_filesystem_syncs_without_a_transfer() {
    let left = Rc::new(Cell::new(usize::MAX));
    let disk = BudgetDisk { inner: RamDisk::new(TOTAL as usize), left: left.clone() };
    let mut fs = EasyFileSystem::format(disk, TOTAL, 1).unwrap_or_else(|e| panic!("{:?}", e));
    assert_eq!(fs.sync(), Ok(()));
    left.set(0);
    assert_eq!(fs.sync(), Ok(()));
    assert_eq!(fs.sync(), Ok(()));
    let disk = fs.into_device();
    left.set(1);
    let mut fs = EasyFileSystem::mount(disk).unwrap_or_else(|e| panic!("{:?}", e));
    assert_eq!(left.get(), 0);
    assert_eq!(fs.sync(), Ok(()));
    assert_eq!(fs.read_block(0, 0, 4), Ok(vec![0x01, 0x00, 0x80, 0x3b]));
}

#[test]
fn cached_blocks_are_released_without_a_transfer() {
    let left = Rc::new(Cell::new(usize::MAX));
    let disk = BudgetDisk { inner: RamDisk::new(TOTAL as usize), left: left.clone() };
    let mut fs = EasyFileSystem::format(disk, TOTAL, 1).unwrap_or_else(|e| panic!("{:?}", e));
    let block = fs.alloc_data().unwrap();
    assert_eq!(fs.write_data(block, 0, &[0xc3; 32]), Ok(()));
    let inode = fs.alloc_inode().unwrap();
    left.set(0);
    assert_eq!(fs.write_data(block, 32, &[0x3c; 32]), Ok(()));
    assert_eq!(fs.read_block(block, 30, 4), Ok(vec![0xc3, 0xc3, 0x3c, 0x3c]));
    assert_eq!(fs.dealloc_data(block), Ok(()));
    assert_eq!(fs.read_block(block, 0, BLOCK_SZ), Ok(vec![0u8; BLOCK_SZ]));
    assert_eq!(fs.dealloc_data(block), Err(FsError::NotAllocated));
    assert_eq!(fs.write_data(block, 0, &[1]), Err(FsError::NotAllocated));
    assert_eq!(fs.dealloc_inode(inode), Ok(()));
    assert_eq!(fs.dealloc_inode(inode), Err(FsError::NotAllocated));
    assert_eq!(fs.alloc_data(), Ok(block));
    assert_eq!(fs.alloc_inode(), Ok(inode));
    assert_eq!(fs.dealloc_data(0), Err(FsError::NotAllocated));
    assert_eq!(fs.dealloc_data(DATA_AREA_START + 4096), Err(FsError::NotAllocated));
    assert_eq!(fs.write_data(u32::MAX, 0, &[1]), Err(FsError::NotAllocated));
    assert_eq!(left.get(), 0);
}
