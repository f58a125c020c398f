//! The error values that cache operations surface to their callers.

use vstd::prelude::*;

verus! {

/// Everything that a cache front-end can report. An error is a value, never a
/// panic: callers decide whether to retry.
#[derive(Debug)]
pub enum CacheError {
    /// Encoding a snapshot failed; carries the codec's description.
    SerializationError(String),
    /// Decoding a persisted image failed; carries the codec's description.
    DeserializationError(String),
    /// Reading or writing the persistence sink failed.
    PersistenceError(String),
    /// The key was rejected before any state changed.
    InvalidKey,
    /// The shard was at capacity and the eviction policy refused to name a
    /// victim; the triggering `set` had no effect.
    CacheFullError,
    /// The operation was abandoned at the lock-acquisition boundary before
    /// any state changed.
    Timeout,
}

impl CacheError {
    /// The fixed description of each error kind.
    pub open spec fn spec_message(&self) -> Seq<char> {
        match self {
            CacheError::SerializationError(_) => "serialization error"@,
            CacheError::DeserializationError(_) => "deserialization error"@,
            CacheError::PersistenceError(_) => "persistence error"@,
            CacheError::InvalidKey => "invalid key"@,
            CacheError::CacheFullError => "cache is full"@,
            CacheError::Timeout => "timed out"@,
        }
    }

    /// A short, stable description of the error kind.
    pub fn message(&self) -> (r: &'static str)
        ensures
            r@ == self.spec_message(),
    {
        match self {
            CacheError::SerializationError(_) => "serialization error",
            CacheError::DeserializationError(_) => "deserialization error",
            CacheError::PersistenceError(_) => "persistence error",
            CacheError::InvalidKey => "invalid key",
            CacheError::CacheFullError => "cache is full",
            CacheError::Timeout => "timed out",
        }
    }
}

} // verus!
