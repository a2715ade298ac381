//! Errors reported by the store, the importer and the name cache.
use vstd::prelude::*;

use crate::version::VersionId;

verus! {

/// Every failure the library reports. A lookup that finds nothing is not an
/// error: it is an empty result.
#[derive(Debug, Clone, PartialEq, Eq)]
pub enum Error {
    /// A stored record under `key` could not be decoded.
    MalformedEntry { key: String, bytes: Vec<u8> },
    /// The exact (version, name) record already exists under the key.
    DuplicateEntry,
    /// The version is already in the registry.
    AlreadyImported(VersionId),
    /// A name-pool index is out of bounds even after a refresh.
    InvalidNameReference(usize),
    /// The cached pool prefix differs from the pool read afresh.
    CacheCorruption,
    /// The record reader reported the input row at this position as malformed.
    MalformedRecord(usize),
}

} // verus!
