//! A small persistent filesystem on a raw block device, with the task control
//! block of the kernel that mounts it.
//!
//! The filesystem is layered leaf-first: a block device ([`device`]), a
//! write-back block cache with least-recently-used eviction ([`block_cache`]),
//! a bitmap allocator ([`bitmap`]), the on-disk layout ([`layout`]) and inode
//! record ([`inode`]) in their byte order ([`codec`]), the filesystem itself
//! ([`efs`]) and the handle of an inode ([`vfs`]). A filesystem is shared
//! behind a spin lock ([`lock`]). The task control block stands apart
//! ([`task`]).
//!
//! Every executable function carries a contract over the logical content of
//! the disk, a total map from block index to the bytes of that block.

pub mod config;
pub mod error;
pub mod device;
pub mod codec;
pub mod block_cache;
pub mod bitmap;
pub mod layout;
pub mod inode;
pub mod lock;
pub mod vfs;
pub mod efs;
pub mod task;

pub use config::BLOCK_SZ;
pub use device::{BlockDevice, IoError, RamDisk};
pub use error::FsError;
