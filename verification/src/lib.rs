//! Random-access reading of the SqPack packed-archive format.
//!
//! Logical files are packed into numbered container files addressed through
//! per-category index tables, spread across repositories and chunks. This
//! crate turns repository names into byte sources, reconstructs contiguous
//! logical streams from block-compressed on-disk layouts, and lets a decoded
//! sub-region of a larger container be treated as an independent file.

mod error;
pub mod file;
mod record;
pub mod sqpack;
mod stream;
mod take_seekable;
mod text;

pub use error::{Error, ErrorValue, ResourceCause};
pub use record::{SizedRead, read_record, spec_u16_be, spec_u16_le, spec_u32_be, spec_u32_le, u16_be, u16_le, u32_be, u32_le};
pub use stream::{FileStream, MemoryStream, SeekFrom, read_exact, read_to_end, seek_target};
pub use take_seekable::{TakeSeekable, window_of};
pub use sqpack::{
    BlockHeader, BlockMetadata, BlockStream, Header, Location, MemoryVfs, Resource, VfsError,
    VirtualFilesystem, VirtualInstall,
};
pub use text::{bytes_eq, str_eq, string_from_utf8};
pub use file::exd::{ExcelData, RowDefinition, RowHeader, SubrowHeader};
pub use file::exl::ExcelList;
pub use file::mdl::{Lod, Model, ModelContainer};
pub use file::zipatch::{Chunk, ChunkIterator, ZiPatch};
