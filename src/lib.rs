//! Storage layer for historical symbol-renaming data: version codecs,
//! as-of-version lookup, a known-version registry, a name-interning cache
//! and an in-memory duplicate-key store that ties them together.
use vstd::prelude::*;

pub mod entry;
pub mod error;
pub mod lookup;
pub mod pool;
pub mod registry;
pub mod store;
pub mod version;

verus! {

} // verus!
