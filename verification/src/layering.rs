//! A two-level composition: a fast, small first tier over a slower, larger
//! second tier, with read-through promotion and write-through sets.

use crate::cache::{fresh_lookup, get_rel, remove_rel, set_ok, set_rel, Cache};
use crate::errors::CacheError;
use crate::eviction::EvictionStrategy;
use crate::expiration::ExpirationStrategy;
use vstd::prelude::*;

verus! {

/// How one layered `get` relates the two tiers before and after the call
/// and the returned value.
pub open spec fn layered_get_rel<V: Copy, E: EvictionStrategy, X: ExpirationStrategy>(
    pre: LayeredCache<V, E, X>,
    post: LayeredCache<V, E, X>,
    r: Option<V>,
    key: u64,
    now: u64,
) -> bool {
    let r1 = fresh_lookup::<V, X>(pre.tier1().entries(), pre.tier1().deadlines(), key, now);
    let r2 = fresh_lookup::<V, X>(pre.tier2().entries(), pre.tier2().deadlines(), key, now);
    &&& (r1 is Some ==> r == r1 && get_rel(pre.tier1(), post.tier1(), r1, key, now)
        && post.tier2() == pre.tier2())
    &&& (r1 is None ==> r == r2 && get_rel(pre.tier2(), post.tier2(), r2, key, now))
    &&& (r1 is None && r2 is None ==> get_rel(pre.tier1(), post.tier1(), None::<V>, key, now))
    &&& (r1 is None && r2 is Some ==> exists|mid: Cache<V, E, X>, pr: Result<(), CacheError>|
        get_rel(pre.tier1(), mid, None::<V>, key, now) && #[trigger] set_rel(
            mid,
            post.tier1(),
            pr,
            key,
            r2.unwrap(),
            now,
        ))
}

/// Two tiers behind one front-end. Each tier owns its entries; promotion
/// copies a value from the second tier into the first.
pub struct LayeredCache<V, E: EvictionStrategy, X: ExpirationStrategy> {
    l1: Cache<V, E, X>,
    l2: Cache<V, E, X>,
}

impl<V: Copy, E: EvictionStrategy, X: ExpirationStrategy> LayeredCache<V, E, X> {
    /// The fast tier.
    pub closed spec fn tier1(&self) -> Cache<V, E, X> {
        self.l1
    }

    /// The slow tier.
    pub closed spec fn tier2(&self) -> Cache<V, E, X> {
        self.l2
    }

    pub open spec fn wf(&self) -> bool {
        self.tier1().wf() && self.tier2().wf()
    }

    pub fn new(l1: Cache<V, E, X>, l2: Cache<V, E, X>) -> (r: LayeredCache<V, E, X>)
        requires
            l1.wf(),
            l2.wf(),
        ensures
            r.wf(),
            r.tier1() == l1,
            r.tier2() == l2,
    {
        LayeredCache { l1, l2 }
    }

    /// Borrow the fast tier, for observation.
    pub fn fast_tier(&self) -> (r: &Cache<V, E, X>)
        ensures
            *r == self.tier1(),
    {
        &self.l1
    }

    /// Borrow the slow tier, for observation.
    pub fn slow_tier(&self) -> (r: &Cache<V, E, X>)
        ensures
            *r == self.tier2(),
    {
        &self.l2
    }

    /// Probe the fast tier; on a miss probe the slow tier and, on a hit
    /// there, promote the value into the fast tier with an ordinary `set`
    /// (which may evict there, and whose refusal is tolerated).
    #[verifier::rlimit(60)]
    pub fn get(&mut self, key: u64, now: u64) -> (r: Option<V>)
        requires
            old(self).wf(),
            old(self).tier1().counters().hits < usize::MAX,
            old(self).tier1().counters().misses < usize::MAX,
            old(self).tier1().counters().writes < usize::MAX,
            old(self).tier1().counters().evictions < usize::MAX,
            old(self).tier2().counters().hits < usize::MAX,
            old(self).tier2().counters().misses < usize::MAX,
        ensures
            final(self).wf(),
            layered_get_rel(*old(self), *final(self), r, key, now),
    {
        match self.l1.get(key, now) {
            Some(v) => {
                proof {
                    assert(layered_get_rel(*old(self), *self, Some(v), key, now));
                }
                Some(v)
            },
            None => {
                match self.l2.get(key, now) {
                    Some(v) => {
                        let ghost mid = self.l1;
                        let pr = self.l1.set(key, v, now);
                        proof {
                            let r2 = fresh_lookup::<V, X>(
                                old(self).tier2().entries(),
                                old(self).tier2().deadlines(),
                                key,
                                now,
                            );
                            assert(v == r2.unwrap());
                            assert(get_rel((*old(self)).tier1(), mid, None::<V>, key, now));
                            assert(set_rel(mid, (*self).tier1(), pr, key, r2.unwrap(), now));
                            assert(exists|m: Cache<V, E, X>, q: Result<(), CacheError>|
                                get_rel((*old(self)).tier1(), m, None::<V>, key, now)
                                    && #[trigger] set_rel(
                                    m,
                                    (*self).tier1(),
                                    q,
                                    key,
                                    r2.unwrap(),
                                    now,
                                ));
                            assert(layered_get_rel(*old(self), *self, Some(v), key, now));
                        }
                        Some(v)
                    },
                    None => {
                        proof {
                            assert(layered_get_rel(*old(self), *self, None::<V>, key, now));
                        }
                        None
                    },
                }
            },
        }
    }

    /// Write through: the fast tier first, then the slow tier. A refusal by
    /// the fast tier aborts before the slow tier is touched; a refusal by the
    /// slow tier surfaces as the error while the fast tier keeps the write.
    pub fn set(&mut self, key: u64, value: V, now: u64) -> (r: Result<(), CacheError>)
        requires
            old(self).wf(),
            old(self).tier1().counters().writes < usize::MAX,
            old(self).tier1().counters().evictions < usize::MAX,
            old(self).tier2().counters().writes < usize::MAX,
            old(self).tier2().counters().evictions < usize::MAX,
        ensures
            final(self).wf(),
            ({
                let ok1 = set_ok::<V, E, X>(old(self).tier1(), key);
                &&& (!ok1 ==> r is Err && set_rel(
                    old(self).tier1(),
                    final(self).tier1(),
                    r,
                    key,
                    value,
                    now,
                ) && final(self).tier2() == old(self).tier2())
                &&& (ok1 ==> set_rel(
                    old(self).tier1(),
                    final(self).tier1(),
                    Ok(()),
                    key,
                    value,
                    now,
                ) && set_rel(old(self).tier2(), final(self).tier2(), r, key, value, now))
            }),
    {
        match self.l1.set(key, value, now) {
            Err(e) => Err(e),
            Ok(()) => self.l2.set(key, value, now),
        }
    }

    /// Remove from every tier. The returned value prefers the slow tier's
    /// copy, since the fast tier may hold a stale promotion; when only the
    /// fast tier held the key, its value is returned. This rule is fixed.
    pub fn remove(&mut self, key: u64) -> (r: Option<V>)
        requires
            old(self).wf(),
            old(self).tier1().counters().removals < usize::MAX,
            old(self).tier2().counters().removals < usize::MAX,
        ensures
            final(self).wf(),
            ({
                let hit1 = old(self).tier1().entries().dom().contains(key);
                let hit2 = old(self).tier2().entries().dom().contains(key);
                &&& remove_rel(
                    old(self).tier1(),
                    final(self).tier1(),
                    (if hit1 {
                        Some(old(self).tier1().entries()[key])
                    } else {
                        None::<V>
                    }),
                    key,
                )
                &&& remove_rel(
                    old(self).tier2(),
                    final(self).tier2(),
                    (if hit2 {
                        Some(old(self).tier2().entries()[key])
                    } else {
                        None::<V>
                    }),
                    key,
                )
                &&& r == (if hit2 {
                    Some(old(self).tier2().entries()[key])
                } else if hit1 {
                    Some(old(self).tier1().entries()[key])
                } else {
                    None::<V>
                })
            }),
    {
        let a = self.l1.remove(key);
        let b = self.l2.remove(key);
        if b.is_some() {
            b
        } else {
            a
        }
    }
}

} // verus!
