//! Error taxonomy shared by the whole crate.
//!
//! Four conditions cover every failure: a missing resource (recoverable by
//! trying another source), an invalid value (carrying diagnostic payload),
//! a lower-level resource failure, and an explicitly unimplemented request.

use vstd::prelude::*;

verus! {

/// The value a failure is about, carried as diagnostic payload.
#[derive(Debug, PartialEq, Eq)]
pub enum ErrorValue {
    /// A repository index that could not be resolved.
    Repository(u8),
    /// A path inside the virtual filesystem.
    Path(Vec<u8>),
    /// Raw bytes of a file that could not be interpreted.
    File(Vec<u8>),
    /// A row (and subrow) inside an Excel data page.
    Row { row: u32, subrow: u16 },
    /// The computed position of a seek that is negative or not representable.
    SeekPosition(i128),
}

/// The lower-level cause wrapped by a resource failure.
#[derive(Debug, Clone, Copy, PartialEq, Eq, Structural)]
pub enum ResourceCause {
    /// An underlying read or seek failed.
    Io,
    /// A structured record or magic number could not be decoded.
    Decode,
    /// Bytes that had to be text were not valid UTF-8.
    Text,
}

/// Failure of any fallible operation in this crate.
#[derive(Debug, PartialEq, Eq)]
pub enum Error {
    /// The requested thing does not exist; the caller may try another source.
    NotFound(ErrorValue),
    /// The value exists but is malformed; carries diagnostic payload.
    Invalid(ErrorValue),
    /// An underlying operation failed; the cause is propagated unchanged.
    Resource(ResourceCause),
    /// The request is explicitly not implemented; a hard stop.
    Unimplemented,
}

} // verus!
