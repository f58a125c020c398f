//! Pluggable expiration: policies record a freshness deadline per key and
//! report which keys have gone stale. Time is a caller-supplied instant in
//! milliseconds, so every answer is a function of the policy state and `now`.

use crate::store::KvMap;
use vstd::prelude::*;

verus! {

/// The deadline a TTL policy records at instant `now`: `now + ttl`,
/// saturating at the largest representable instant.
pub open spec fn deadline_at(ttl: u64, now: u64) -> u64 {
    if now + ttl <= u64::MAX {
        (now + ttl) as u64
    } else {
        u64::MAX
    }
}

/// An expiration capability. The policy keeps a map from key to deadline;
/// each operation's effect is pinned to the policy's own spec-level
/// description, so a concrete policy's behaviour is fully known to callers.
pub trait ExpirationStrategy: Sized {
    /// The deadline recorded for each tracked key.
    spec fn deadlines(&self) -> Map<u64, u64>;

    spec fn wf(&self) -> bool;

    /// The policy's fixed configuration: the TTL for TTL policies.
    spec fn config(&self) -> u64;

    /// What recording a write of `key` at `now` does to the deadline map.
    spec fn written(cfg: u64, dl: Map<u64, u64>, key: u64, now: u64) -> Map<u64, u64>;

    /// What observing a hit on `key` at `now` does to the deadline map.
    spec fn refreshed(cfg: u64, dl: Map<u64, u64>, key: u64, now: u64) -> Map<u64, u64>;

    /// What removing `key` does to the deadline map.
    spec fn pruned(dl: Map<u64, u64>, key: u64) -> Map<u64, u64>;

    /// Whether `key` counts as expired at instant `now`.
    spec fn expired_at(dl: Map<u64, u64>, key: u64, now: u64) -> bool;

    /// Called after a set of `key`, inside the shard's critical section.
    fn on_write(&mut self, key: u64, now: u64)
        requires
            old(self).wf(),
        ensures
            final(self).wf(),
            final(self).config() == old(self).config(),
            final(self).deadlines() == Self::written(
                old(self).config(),
                old(self).deadlines(),
                key,
                now,
            ),
    ;

    /// Called after a fresh hit on `key`.
    fn on_access(&mut self, key: u64, now: u64)
        requires
            old(self).wf(),
        ensures
            final(self).wf(),
            final(self).config() == old(self).config(),
            final(self).deadlines() == Self::refreshed(
                old(self).config(),
                old(self).deadlines(),
                key,
                now,
            ),
    ;

    /// Whether `key` has gone stale by instant `now`.
    fn is_expired(&self, key: u64, now: u64) -> (r: bool)
        requires
            self.wf(),
        ensures
            r == Self::expired_at(self.deadlines(), key, now),
    ;

    /// Called after any removal of `key`.
    fn on_remove(&mut self, key: u64)
        requires
            old(self).wf(),
        ensures
            final(self).wf(),
            final(self).config() == old(self).config(),
            final(self).deadlines() == Self::pruned(old(self).deadlines(), key),
    ;

    /// Bulk reset, used when the shard is cleared.
    fn reset(&mut self)
        requires
            old(self).wf(),
        ensures
            final(self).wf(),
            final(self).config() == old(self).config(),
            final(self).deadlines() == Map::<u64, u64>::empty(),
    ;
}

/// Idle-TTL expiration: a key's deadline is its last touch (write or hit)
/// plus the TTL, and the key is expired once `now` reaches the deadline.
pub struct TtlExpirationStrategy {
    ttl: u64,
    table: KvMap<u64>,
}

impl TtlExpirationStrategy {
    pub fn new(ttl: u64) -> (r: TtlExpirationStrategy)
        ensures
            r.wf(),
            r.config() == ttl,
            r.deadlines() == Map::<u64, u64>::empty(),
    {
        TtlExpirationStrategy { ttl, table: KvMap::new() }
    }
}

impl ExpirationStrategy for TtlExpirationStrategy {
    closed spec fn deadlines(&self) -> Map<u64, u64> {
        self.table@
    }

    closed spec fn wf(&self) -> bool {
        self.table.wf()
    }

    closed spec fn config(&self) -> u64 {
        self.ttl
    }

    open spec fn written(cfg: u64, dl: Map<u64, u64>, key: u64, now: u64) -> Map<u64, u64> {
        dl.insert(key, deadline_at(cfg, now))
    }

    open spec fn refreshed(cfg: u64, dl: Map<u64, u64>, key: u64, now: u64) -> Map<u64, u64> {
        if dl.dom().contains(key) {
            dl.insert(key, deadline_at(cfg, now))
        } else {
            dl
        }
    }

    open spec fn pruned(dl: Map<u64, u64>, key: u64) -> Map<u64, u64> {
        dl.remove(key)
    }

    open spec fn expired_at(dl: Map<u64, u64>, key: u64, now: u64) -> bool {
        dl.dom().contains(key) && dl[key] <= now
    }

    fn on_write(&mut self, key: u64, now: u64) {
        let d = if now <= u64::MAX - self.ttl {
            now + self.ttl
        } else {
            u64::MAX
        };
        self.table.insert(key, d);
    }

    fn on_access(&mut self, key: u64, now: u64) {
        if self.table.contains_key(key) {
            let d = if now <= u64::MAX - self.ttl {
                now + self.ttl
            } else {
                u64::MAX
            };
            self.table.insert(key, d);
        }
    }

    fn is_expired(&self, key: u64, now: u64) -> (r: bool) {
        match self.table.get(key) {
            Some(d) => d <= now,
            None => false,
        }
    }

    fn on_remove(&mut self, key: u64) {
        let _ = self.table.remove(key);
    }

    fn reset(&mut self) {
        self.table.clear();
    }
}

/// Absolute-TTL expiration: the deadline is frozen at insertion; hits do not
/// refresh it.
pub struct AbsoluteTtlExpirationStrategy {
    ttl: u64,
    table: KvMap<u64>,
}

impl AbsoluteTtlExpirationStrategy {
    pub fn new(ttl: u64) -> (r: AbsoluteTtlExpirationStrategy)
        ensures
            r.wf(),
            r.config() == ttl,
            r.deadlines() == Map::<u64, u64>::empty(),
    {
        AbsoluteTtlExpirationStrategy { ttl, table: KvMap::new() }
    }
}

impl ExpirationStrategy for AbsoluteTtlExpirationStrategy {
    closed spec fn deadlines(&self) -> Map<u64, u64> {
        self.table@
    }

    closed spec fn wf(&self) -> bool {
        self.table.wf()
    }

    closed spec fn config(&self) -> u64 {
        self.ttl
    }

    open spec fn written(cfg: u64, dl: Map<u64, u64>, key: u64, now: u64) -> Map<u64, u64> {
        dl.insert(key, deadline_at(cfg, now))
    }

    open spec fn refreshed(cfg: u64, dl: Map<u64, u64>, key: u64, now: u64) -> Map<u64, u64> {
        dl
    }

    open spec fn pruned(dl: Map<u64, u64>, key: u64) -> Map<u64, u64> {
        dl.remove(key)
    }

    open spec fn expired_at(dl: Map<u64, u64>, key: u64, now: u64) -> bool {
        dl.dom().contains(key) && dl[key] <= now
    }

    fn on_write(&mut self, key: u64, now: u64) {
        let d = if now <= u64::MAX - self.ttl {
            now + self.ttl
        } else {
            u64::MAX
        };
        self.table.insert(key, d);
    }

    fn on_access(&mut self, key: u64, now: u64) {
    }

    fn is_expired(&self, key: u64, now: u64) -> (r: bool) {
        match self.table.get(key) {
            Some(d) => d <= now,
            None => false,
        }
    }

    fn on_remove(&mut self, key: u64) {
        let _ = self.table.remove(key);
    }

    fn reset(&mut self) {
        self.table.clear();
    }
}

/// The policy for caches without expiration: nothing is tracked and nothing
/// ever expires.
pub struct NoExpirationStrategy {}

impl NoExpirationStrategy {
    pub fn new() -> (r: NoExpirationStrategy)
        ensures
            r.wf(),
            r.deadlines() == Map::<u64, u64>::empty(),
    {
        NoExpirationStrategy {  }
    }
}

impl ExpirationStrategy for NoExpirationStrategy {
    closed spec fn deadlines(&self) -> Map<u64, u64> {
        Map::empty()
    }

    closed spec fn wf(&self) -> bool {
        true
    }

    closed spec fn config(&self) -> u64 {
        0
    }

    open spec fn written(cfg: u64, dl: Map<u64, u64>, key: u64, now: u64) -> Map<u64, u64> {
        dl
    }

    open spec fn refreshed(cfg: u64, dl: Map<u64, u64>, key: u64, now: u64) -> Map<u64, u64> {
        dl
    }

    open spec fn pruned(dl: Map<u64, u64>, key: u64) -> Map<u64, u64> {
        dl
    }

    open spec fn expired_at(dl: Map<u64, u64>, key: u64, now: u64) -> bool {
        false
    }

    fn on_write(&mut self, key: u64, now: u64) {
    }

    fn on_access(&mut self, key: u64, now: u64) {
    }

    fn is_expired(&self, key: u64, now: u64) -> (r: bool) {
        false
    }

    fn on_remove(&mut self, key: u64) {
    }

    fn reset(&mut self) {
    }
}

} // verus!
