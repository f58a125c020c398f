//! The shapes of the lifecycle events the cache core emits. Dispatching them
//! to subscribers is the embedding layer's business; events are published
//! after the originating operation's critical section completes.

use vstd::prelude::*;

verus! {

/// One cache lifecycle event, carrying the affected key where there is one.
#[derive(Clone, Copy, PartialEq, Eq, Structural, Debug)]
pub enum CacheEvent {
    Hit { key: u64 },
    Miss { key: u64 },
    Write { key: u64, replaced: bool },
    Evict { key: u64 },
    Remove { key: u64 },
    Expire { key: u64 },
    Clear,
}

impl CacheEvent {
    /// The key the event concerns; `Clear` concerns the whole shard.
    pub open spec fn spec_key(&self) -> Option<u64> {
        match self {
            CacheEvent::Hit { key } => Some(*key),
            CacheEvent::Miss { key } => Some(*key),
            CacheEvent::Write { key, replaced: _ } => Some(*key),
            CacheEvent::Evict { key } => Some(*key),
            CacheEvent::Remove { key } => Some(*key),
            CacheEvent::Expire { key } => Some(*key),
            CacheEvent::Clear => None,
        }
    }

    pub fn key(&self) -> (r: Option<u64>)
        ensures
            r == self.spec_key(),
    {
        match self {
            CacheEvent::Hit { key } => Some(*key),
            CacheEvent::Miss { key } => Some(*key),
            CacheEvent::Write { key, replaced: _ } => Some(*key),
            CacheEvent::Evict { key } => Some(*key),
            CacheEvent::Remove { key } => Some(*key),
            CacheEvent::Expire { key } => Some(*key),
            CacheEvent::Clear => None,
        }
    }
}

} // verus!
