//! A userspace filesystem that tiers file data between a hot and a cold store:
//! small files live in the hot store, large ones in the cold store, and clients
//! see one tree.

pub mod adapter;
pub mod cache;
mod clock;
pub mod error;
pub mod fs;
pub mod fuse;
pub mod lock;
pub mod path;
pub mod shutdown;
pub mod storage;

pub use cache::{CacheStats, FileLocationCache, StorageLocation};
pub use error::FsError;
pub use fs::{FileMetadata, FileSystem, VirtualFileSystem};
pub use fuse::{FuseConfig, HandleTable, InodeTable};
pub use storage::{HybridStorage, Storage, StorageTier};
