//! The capability set archive consumers ask of a SqPack instance.

use vstd::prelude::*;

use crate::error::Error;
use crate::stream::FileStream;

verus! {

/// Where one logical file lives inside a container: which chunk and
/// numbered dat file hold it, the byte offset it starts at, and its size
/// when the index knows it (absent when the size must be discovered by
/// probing the container's end).
#[derive(Debug, Clone, Copy, PartialEq, Eq, Structural)]
pub struct Location {
    chunk: u8,
    data_file: u8,
    offset: u32,
    size: Option<u32>,
}

impl Location {
    /// The chunk the file's container belongs to.
    pub closed spec fn spec_chunk(&self) -> u8 {
        self.chunk
    }

    /// Which numbered dat file of the chunk holds the bytes.
    pub closed spec fn spec_data_file(&self) -> u8 {
        self.data_file
    }

    /// The byte offset the file starts at inside the container.
    pub closed spec fn spec_offset(&self) -> u32 {
        self.offset
    }

    /// The file's size, when the index table knows it.
    pub closed spec fn spec_size(&self) -> Option<u32> {
        self.size
    }

    /// Describe a file at `offset` of dat file `data_file` in `chunk`,
    /// with `size` known or left to be discovered.
    pub fn new(chunk: u8, data_file: u8, offset: u32, size: Option<u32>) -> (r: Self)
        ensures
            r.spec_chunk() == chunk,
            r.spec_data_file() == data_file,
            r.spec_offset() == offset,
            r.spec_size() == size,
    {
        Location { chunk, data_file, offset, size }
    }

    /// The chunk the file's container belongs to.
    pub fn chunk(&self) -> (r: u8)
        ensures
            r == self.spec_chunk(),
    {
        self.chunk
    }

    /// Which numbered dat file of the chunk holds the bytes.
    pub fn data_file(&self) -> (r: u8)
        ensures
            r == self.spec_data_file(),
    {
        self.data_file
    }

    /// The byte offset the file starts at inside the container.
    pub fn offset(&self) -> (r: u32)
        ensures
            r == self.spec_offset(),
    {
        self.offset
    }

    /// The file's size, when the index table knows it.
    pub fn size(&self) -> (r: Option<u32>)
        ensures
            r == self.spec_size(),
    {
        self.size
    }
}

/// Resource adapter to fetch information and data on request for a SqPack
/// instance. Every operation may fail with a not-found condition (unknown
/// repository, missing on-disk file) or a resource condition; what each
/// implementation returns is stated on the implementation itself.
pub trait Resource {
    /// The type of an index resource.
    type Index: FileStream;

    /// The type of an index2 resource.
    type Index2: FileStream;

    /// The type of a file reader resource.
    type File: FileStream;

    /// Get the version string for a given repository.
    fn version(&self, repository: u8) -> Result<String, Error>;

    /// Fetches the specified index resource.
    fn index(&self, repository: u8, category: u8, chunk: u8) -> Result<Self::Index, Error>;

    /// Fetches the specified index2 resource.
    fn index2(&self, repository: u8, category: u8, chunk: u8) -> Result<Self::Index2, Error>;

    /// Fetch a reader for the specified file from a dat container.
    fn file(&self, repository: u8, category: u8, location: Location) -> Result<Self::File, Error>;
}

} // verus!
