//! Error taxonomy of the storage engine.

use vstd::prelude::*;

verus! {

/// Why a store operation failed.
///
/// Format and consistency errors abort the current operation entirely;
/// lock contention is reported without retrying; a vanished entry is
/// recoverable and never surfaces as an error from the core.
#[derive(Clone, Copy, Debug, PartialEq, Eq, Structural)]
pub enum StoreError {
    /// The store name or base path is unusable.
    Config,
    /// An index file does not match its on-disk format (bad magic,
    /// size mismatch, truncated or oversized file, unknown extension).
    Format,
    /// A chunk offset, length or alignment rule was violated while
    /// writing an index; the snapshot being written must be aborted.
    Consistency,
    /// The store lock could not be taken without blocking; the caller
    /// reports "already running" instead of waiting.
    LockContention,
    /// A path does not name any entry of the store.
    NotFound,
    /// The index writer was already closed.
    Closed,
}

impl StoreError {
    /// A short description, in place of a `Display` rendering.
    pub fn message(&self) -> (r: &'static str)
        ensures
            r@.len() > 0,
    {
        let r = match self {
            StoreError::Config => "invalid datastore configuration",
            StoreError::Format => "invalid index file format",
            StoreError::Consistency => "chunk violates index constraints",
            StoreError::LockContention => "store is locked - already running",
            StoreError::NotFound => "no such entry",
            StoreError::Closed => "index file is already closed",
        };
        proof {
            reveal_strlit("invalid datastore configuration");
            reveal_strlit("invalid index file format");
            reveal_strlit("chunk violates index constraints");
            reveal_strlit("store is locked - already running");
            reveal_strlit("no such entry");
            reveal_strlit("index file is already closed");
        }
        r
    }
}

} // verus!
