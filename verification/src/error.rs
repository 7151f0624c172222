use vstd::prelude::*;

verus! {

/// Unified failure kinds for archive construction.
#[derive(Debug)]
pub enum SevenZipError {
    /// Underlying sink or disk I/O error.
    Io(String),
    /// Eager add-file existence check failed.
    FileNotFound(String),
    /// LZMA2 encoder error or invalid intermediate stream.
    Compression(String),
    /// API misuse (reserved).
    InvalidState(String),
    /// Serializer error against an in-memory buffer (reserved).
    HeaderError(String),
    /// Reserved for double-finalize.
    AlreadyFinalized,
    /// Worker-pool construction failure.
    Threading(String),
}

} // verus!
