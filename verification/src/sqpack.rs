//! Reading logical files out of SqPack container ("dat") files.

pub mod block;
pub mod empty;
pub mod resource;
pub mod shared;
pub mod standard;
pub mod virtual_install;

pub use block::{BlockHeader, BlockMetadata, BlockStream};
pub use resource::{Location, Resource};
pub use shared::Header;
pub use standard::BlockInfo;
pub use virtual_install::{MemoryVfs, VfsError, VirtualFilesystem, VirtualInstall};
