//! The failures that the object store reports.

use vstd::prelude::*;

verus! {

/// Why an operation on the object store did not succeed.
#[derive(Debug, Clone, Copy, PartialEq, Eq, Structural)]
pub enum StoreError {
    /// The identifier is not 40 characters long.
    InvalidIdentifier,
    /// Nothing is stored at the identifier's storage location.
    ObjectNotFound,
    /// The stored bytes are not a complete zlib stream.
    CorruptObject,
    /// The decompressed object has no NUL byte closing its header.
    MalformedHeader,
    /// A tree entry lacks its space or NUL delimiter, or its mode or name is
    /// not UTF-8 text.
    MalformedEntry,
    /// Fewer than 20 hash bytes follow a tree entry's name.
    TruncatedEntry,
    /// The source file of a blob could not be read.
    ReadError,
    /// The compressor reported an error while the object was being encoded.
    CompressionFailed,
}

} // verus!
