//! The single-shard cache: a bounded map that integrates an eviction policy,
//! an expiration policy and operation counters behind one contract. Every
//! operation is all-or-nothing; the policies are invoked inside the
//! operation, so the data map and the policy state always agree.

use crate::errors::CacheError;
use crate::eviction::{EvictionStrategy, LruEvictionStrategy};
use crate::expiration::ExpirationStrategy;
use crate::metrics::{CacheMetrics, MetricsSnapshot};
use crate::store::{assoc_map, keys_of, KvMap};
use vstd::prelude::*;

verus! {

/// What a `get` of `key` at instant `now` answers on a shard whose entries
/// and deadlines are given: the stored value on a fresh hit, `None` on a miss
/// or on an expired entry.
pub open spec fn fresh_lookup<V, X: ExpirationStrategy>(
    entries: Map<u64, V>,
    dl: Map<u64, u64>,
    key: u64,
    now: u64,
) -> Option<V> {
    if entries.dom().contains(key) && !X::expired_at(dl, key, now) {
        Some(entries[key])
    } else {
        None
    }
}

/// The keys that have not expired by instant `now`.
pub open spec fn live_keys<X: ExpirationStrategy>(dl: Map<u64, u64>, now: u64) -> Set<u64> {
    Set::new(|k: u64| !X::expired_at(dl, k, now))
}

/// A bounded, policy-driven map from `u64` keys to copyable values.
pub struct Cache<V, E: EvictionStrategy, X: ExpirationStrategy> {
    data: KvMap<V>,
    eviction: E,
    expiration: X,
    metrics: CacheMetrics,
    capacity: usize,
    gets: Ghost<nat>,
    sets: Ghost<nat>,
    policy_victims: Ghost<nat>,
    remove_hits: Ghost<nat>,
}

impl<V: Copy, E: EvictionStrategy, X: ExpirationStrategy> Cache<V, E, X> {
    /// The stored entries.
    pub closed spec fn entries(&self) -> Map<u64, V> {
        self.data@
    }

    /// The eviction policy's key order.
    pub closed spec fn order(&self) -> Seq<u64> {
        self.eviction.order()
    }

    /// The expiration policy's deadline map.
    pub closed spec fn deadlines(&self) -> Map<u64, u64> {
        self.expiration.deadlines()
    }

    /// The expiration policy's fixed configuration.
    pub closed spec fn exp_config(&self) -> u64 {
        self.expiration.config()
    }

    /// The capacity bound fixed at construction.
    pub closed spec fn cap(&self) -> usize {
        self.capacity
    }

    /// The current counter values.
    pub closed spec fn counters(&self) -> MetricsSnapshot {
        MetricsSnapshot {
            hits: self.metrics.hits,
            misses: self.metrics.misses,
            writes: self.metrics.writes,
            evictions: self.metrics.evictions,
            removals: self.metrics.removals,
        }
    }

    /// How many `get` operations completed since the last reset.
    pub closed spec fn completed_gets(&self) -> nat {
        self.gets@
    }

    /// How many `set` operations completed successfully since the last reset.
    pub closed spec fn completed_sets(&self) -> nat {
        self.sets@
    }

    /// How many entries were removed by the eviction policy since the last
    /// reset.
    pub closed spec fn policy_removals(&self) -> nat {
        self.policy_victims@
    }

    /// How many explicit removes found their key since the last reset.
    pub closed spec fn explicit_remove_hits(&self) -> nat {
        self.remove_hits@
    }

    /// Well-formedness: the policies track exactly the stored keys, the
    /// shard respects its capacity, and each counter equals the number of
    /// operations it accounts for.
    pub closed spec fn wf(&self) -> bool {
        &&& self.data.wf()
        &&& self.eviction.wf()
        &&& self.expiration.wf()
        &&& self.eviction.order().to_set() == self.data@.dom()
        &&& self.data@.dom().finite()
        &&& self.data@.dom().len() <= self.capacity
        &&& 1 <= self.capacity
        &&& self.metrics.hits + self.metrics.misses == self.gets@
        &&& self.metrics.writes == self.sets@
        &&& self.metrics.evictions == self.policy_victims@
        &&& self.metrics.removals == self.remove_hits@
    }

    /// The observable state every `clear` leaves behind.
    pub open spec fn is_cleared(&self) -> bool {
        &&& self.entries() == Map::<u64, V>::empty()
        &&& self.order() == Seq::<u64>::empty()
        &&& self.deadlines() == Map::<u64, u64>::empty()
        &&& self.counters() == (MetricsSnapshot {
            hits: 0,
            misses: 0,
            writes: 0,
            evictions: 0,
            removals: 0,
        })
        &&& self.completed_gets() == 0
        &&& self.completed_sets() == 0
        &&& self.policy_removals() == 0
        &&& self.explicit_remove_hits() == 0
    }
}

/// How one `get` relates the shard state before the call, the state after it
/// and the returned value.
pub open spec fn get_rel<V: Copy, E: EvictionStrategy, X: ExpirationStrategy>(
    pre: Cache<V, E, X>,
    post: Cache<V, E, X>,
    r: Option<V>,
    key: u64,
    now: u64,
) -> bool {
    let hit = pre.entries().dom().contains(key);
    let stale = hit && X::expired_at(pre.deadlines(), key, now);
    let fresh = hit && !X::expired_at(pre.deadlines(), key, now);
    &&& post.wf()
    &&& post.cap() == pre.cap()
    &&& post.exp_config() == pre.exp_config()
    &&& r == fresh_lookup::<V, X>(pre.entries(), pre.deadlines(), key, now)
    &&& post.entries() == (if stale {
        pre.entries().remove(key)
    } else {
        pre.entries()
    })
    &&& post.order() == (if stale {
        E::pruned(pre.order(), key)
    } else if fresh {
        E::touched(pre.order(), key)
    } else {
        pre.order()
    })
    &&& post.deadlines() == (if stale {
        X::pruned(pre.deadlines(), key)
    } else if fresh {
        X::refreshed(pre.exp_config(), pre.deadlines(), key, now)
    } else {
        pre.deadlines()
    })
    &&& post.counters().hits == pre.counters().hits + (if fresh {
        1int
    } else {
        0int
    })
    &&& post.counters().misses == pre.counters().misses + (if fresh {
        0int
    } else {
        1int
    })
    &&& post.counters().writes == pre.counters().writes
    &&& post.counters().evictions == pre.counters().evictions
    &&& post.counters().removals == pre.counters().removals
    &&& post.completed_gets() == pre.completed_gets() + 1
    &&& post.completed_sets() == pre.completed_sets()
    &&& post.policy_removals() == pre.policy_removals()
    &&& post.explicit_remove_hits() == pre.explicit_remove_hits()
}

/// Whether a `set` of `key` must succeed: the key is already present, there
/// is room, or the eviction policy names a victim.
pub open spec fn set_ok<V: Copy, E: EvictionStrategy, X: ExpirationStrategy>(
    pre: Cache<V, E, X>,
    key: u64,
) -> bool {
    ||| pre.entries().dom().contains(key)
    ||| pre.entries().dom().len() < pre.cap()
    ||| E::victim_of(pre.order()) is Some
}

/// The entry a `set` of `key` evicts first, if any.
pub open spec fn set_victim<V: Copy, E: EvictionStrategy, X: ExpirationStrategy>(
    pre: Cache<V, E, X>,
    key: u64,
) -> Option<u64> {
    if pre.entries().dom().contains(key) || pre.entries().dom().len() < pre.cap() {
        None
    } else {
        E::victim_of(pre.order())
    }
}

/// How one `set` relates the shard state before the call, the state after it
/// and the returned result.
pub open spec fn set_rel<V: Copy, E: EvictionStrategy, X: ExpirationStrategy>(
    pre: Cache<V, E, X>,
    post: Cache<V, E, X>,
    r: Result<(), CacheError>,
    key: u64,
    value: V,
    now: u64,
) -> bool {
    let victim = set_victim::<V, E, X>(pre, key);
    let replaced = pre.entries().dom().contains(key);
    &&& post.wf()
    &&& post.cap() == pre.cap()
    &&& post.exp_config() == pre.exp_config()
    &&& (r is Ok <==> set_ok::<V, E, X>(pre, key))
    &&& (r is Err ==> r == Err::<(), CacheError>(CacheError::CacheFullError) && post == pre)
    &&& (r is Ok ==> {
        let base_entries = if victim is Some {
            pre.entries().remove(victim.unwrap())
        } else {
            pre.entries()
        };
        let base_order = if victim is Some {
            E::pruned(pre.order(), victim.unwrap())
        } else {
            pre.order()
        };
        let base_dl = if victim is Some {
            X::pruned(pre.deadlines(), victim.unwrap())
        } else {
            pre.deadlines()
        };
        &&& (victim is Some ==> victim.unwrap() != key && pre.entries().dom().contains(
            victim.unwrap(),
        ))
        &&& post.entries() == base_entries.insert(key, value)
        &&& post.order() == E::written(base_order, key, replaced)
        &&& post.deadlines() == X::written(pre.exp_config(), base_dl, key, now)
        &&& post.counters().writes == pre.counters().writes + 1
        &&& post.counters().evictions == pre.counters().evictions + (if victim is Some {
            1int
        } else {
            0int
        })
        &&& post.counters().hits == pre.counters().hits
        &&& post.counters().misses == pre.counters().misses
        &&& post.counters().removals == pre.counters().removals
        &&& post.completed_gets() == pre.completed_gets()
        &&& post.completed_sets() == pre.completed_sets() + 1
        &&& post.policy_removals() == pre.policy_removals() + (if victim is Some {
            1nat
        } else {
            0nat
        })
        &&& post.explicit_remove_hits() == pre.explicit_remove_hits()
    })
}

/// How one `remove` relates the shard state before the call, the state after
/// it and the returned previous value.
pub open spec fn remove_rel<V: Copy, E: EvictionStrategy, X: ExpirationStrategy>(
    pre: Cache<V, E, X>,
    post: Cache<V, E, X>,
    r: Option<V>,
    key: u64,
) -> bool {
    let hit = pre.entries().dom().contains(key);
    &&& post.wf()
    &&& post.cap() == pre.cap()
    &&& post.exp_config() == pre.exp_config()
    &&& r == (if hit {
        Some(pre.entries()[key])
    } else {
        None::<V>
    })
    &&& post.entries() == pre.entries().remove(key)
    &&& post.order() == E::pruned(pre.order(), key)
    &&& post.deadlines() == X::pruned(pre.deadlines(), key)
    &&& post.counters().removals == pre.counters().removals + (if hit {
        1int
    } else {
        0int
    })
    &&& post.counters().hits == pre.counters().hits
    &&& post.counters().misses == pre.counters().misses
    &&& post.counters().writes == pre.counters().writes
    &&& post.counters().evictions == pre.counters().evictions
    &&& post.completed_gets() == pre.completed_gets()
    &&& post.completed_sets() == pre.completed_sets()
    &&& post.policy_removals() == pre.policy_removals()
    &&& post.explicit_remove_hits() == pre.explicit_remove_hits() + (if hit {
        1nat
    } else {
        0nat
    })
}

impl<V: Copy, E: EvictionStrategy, X: ExpirationStrategy> Cache<V, E, X> {
    /// A fresh, empty shard. The supplied policies are reset so that they
    /// track no keys.
    pub fn new(eviction: E, expiration: X, capacity: usize) -> (r: Cache<V, E, X>)
        requires
            capacity >= 1,
            eviction.wf(),
            expiration.wf(),
        ensures
            r.wf(),
            r.is_cleared(),
            r.cap() == capacity,
            r.exp_config() == expiration.config(),
    {
        let mut ev = eviction;
        let mut ex = expiration;
        ev.reset();
        ex.reset();
        let r = Cache {
            data: KvMap::new(),
            eviction: ev,
            expiration: ex,
            metrics: CacheMetrics::new(),
            capacity,
            gets: Ghost(0),
            sets: Ghost(0),
            policy_victims: Ghost(0),
            remove_hits: Ghost(0),
        };
        proof {
            assert(Seq::<u64>::empty().to_set() =~= Map::<u64, V>::empty().dom());
        }
        r
    }

    /// Look `key` up at instant `now`. An expired entry is removed and
    /// answered as a miss; a fresh hit refreshes the policies and returns a
    /// copy of the value.
    pub fn get(&mut self, key: u64, now: u64) -> (r: Option<V>)
        requires
            old(self).wf(),
            old(self).counters().hits < usize::MAX,
            old(self).counters().misses < usize::MAX,
        ensures
            get_rel(*old(self), *final(self), r, key, now),
    {
        let present = self.data.contains_key(key);
        if present {
            if self.expiration.is_expired(key, now) {
                let _ = self.data.remove(key);
                self.eviction.on_remove(key);
                self.expiration.on_remove(key);
                self.metrics.increment_misses();
                proof {
                    self.gets@ = self.gets@ + 1;
                }
                None
            } else {
                let v = self.data.get(key);
                self.eviction.on_access(key);
                self.expiration.on_access(key, now);
                self.metrics.increment_hits();
                proof {
                    self.gets@ = self.gets@ + 1;
                }
                v
            }
        } else {
            self.metrics.increment_misses();
            proof {
                self.gets@ = self.gets@ + 1;
            }
            None
        }
    }

    /// Store `value` under `key` at instant `now`. A present key is
    /// replaced in place; a full shard first evicts the policy's victim; if
    /// the policy refuses, the call fails with `CacheFullError` and nothing
    /// changes.
    pub fn set(&mut self, key: u64, value: V, now: u64) -> (r: Result<(), CacheError>)
        requires
            old(self).wf(),
            old(self).counters().writes < usize::MAX,
            old(self).counters().evictions < usize::MAX,
        ensures
            set_rel(*old(self), *final(self), r, key, value, now),
    {
        let present = self.data.contains_key(key);
        if !present && self.data.len() >= self.capacity {
            match self.eviction.select_victim() {
                None => {
                    return Err(CacheError::CacheFullError);
                },
                Some(victim) => {
                    let _ = self.data.remove(victim);
                    self.eviction.on_remove(victim);
                    self.expiration.on_remove(victim);
                    self.metrics.increment_evictions();
                    proof {
                        self.policy_victims@ = self.policy_victims@ + 1;
                    }
                },
            }
        }
        self.data.insert(key, value);
        self.eviction.on_write(key, present);
        self.expiration.on_write(key, now);
        self.metrics.increment_writes();
        proof {
            self.sets@ = self.sets@ + 1;
        }
        Ok(())
    }

    /// Delete `key` if present, returning the stored value; both policies
    /// forget the key.
    pub fn remove(&mut self, key: u64) -> (r: Option<V>)
        requires
            old(self).wf(),
            old(self).counters().removals < usize::MAX,
        ensures
            remove_rel(*old(self), *final(self), r, key),
    {
        let r = self.data.remove(key);
        self.eviction.on_remove(key);
        self.expiration.on_remove(key);
        if r.is_some() {
            self.metrics.increment_removals();
            proof {
                self.remove_hits@ = self.remove_hits@ + 1;
            }
        }
        r
    }

    /// Drop every entry, reset both policies in bulk and reset the counters.
    pub fn clear(&mut self)
        requires
            old(self).wf(),
        ensures
            final(self).wf(),
            final(self).is_cleared(),
            final(self).cap() == old(self).cap(),
            final(self).exp_config() == old(self).exp_config(),
    {
        self.data.clear();
        self.eviction.reset();
        self.expiration.reset();
        self.metrics.reset();
        proof {
            self.gets@ = 0;
            self.sets@ = 0;
            self.policy_victims@ = 0;
            self.remove_hits@ = 0;
            assert(Seq::<u64>::empty().to_set() =~= Map::<u64, V>::empty().dom());
        }
    }

    /// How many entries the shard holds.
    pub fn len(&self) -> (r: usize)
        requires
            self.wf(),
        ensures
            r == self.entries().dom().len(),
    {
        self.data.len()
    }

    pub fn is_empty(&self) -> (r: bool)
        requires
            self.wf(),
        ensures
            r == (self.entries().dom().len() == 0),
    {
        self.len() == 0
    }

    /// The capacity bound fixed at construction.
    pub fn capacity(&self) -> (r: usize)
        ensures
            r == self.cap(),
    {
        self.capacity
    }

    /// One consistent reading of all five counters.
    pub fn metrics_snapshot(&self) -> (r: MetricsSnapshot)
        ensures
            r == self.counters(),
    {
        self.metrics.snapshot()
    }

    /// A copy of every live entry at instant `now`; expired entries are
    /// skipped but not removed. The pairs carry pairwise-distinct keys and
    /// describe exactly the unexpired part of the shard.
    pub fn snapshot_entries(&self, now: u64) -> (r: Vec<(u64, V)>)
        requires
            self.wf(),
        ensures
            keys_of(r@).no_duplicates(),
            assoc_map(r@) == self.entries().restrict(live_keys::<X>(self.deadlines(), now)),
    {
        let ghost live = live_keys::<X>(self.deadlines(), now);
        let all = self.data.entries();
        let n = all.len();
        let mut out: Vec<(u64, V)> = Vec::new();
        let mut i: usize = 0;
        proof {
            self.data.lemma_view_props();
        }
        while i < n
            invariant
                i <= n,
                n == all@.len(),
                self.wf(),
                live == live_keys::<X>(self.deadlines(), now),
                keys_of(all@).no_duplicates(),
                assoc_map(all@) == self.entries(),
                keys_of(out@).no_duplicates(),
                forall|x: u64|
                    keys_of(out@).contains(x) ==> keys_of(all@.take(i as int)).contains(x),
                assoc_map(out@) == assoc_map(all@.take(i as int)).restrict(live),
            decreases n - i,
        {
            let p = all[i];
            let ghost prefix = all@.take(i as int);
            proof {
                assert(all@.take(i + 1) =~= prefix.push(all@[i as int]));
                crate::store::lemma_assoc_map_push(prefix, p.0, p.1);
                assert(!keys_of(prefix).contains(p.0)) by {
                    if keys_of(prefix).contains(p.0) {
                        let j = choose|j: int|
                            0 <= j < keys_of(prefix).len() && keys_of(prefix)[j] == p.0;
                        assert(keys_of(all@)[j] == keys_of(all@)[i as int]);
                    }
                }
                crate::store::lemma_assoc_map_dom(prefix);
            }
            let stale = self.expiration.is_expired(p.0, now);
            if !stale {
                let ghost prev = out@;
                out.push(p);
                proof {
                    crate::store::lemma_assoc_map_push(prev, p.0, p.1);
                    assert(keys_of(prev.push(p)) =~= keys_of(prev).push(p.0));
                    assert(!keys_of(prev).contains(p.0));
                    assert(keys_of(prev.push(p)).no_duplicates()) by {
                        let ks = keys_of(prev).push(p.0);
                        assert forall|a: int, b: int|
                            0 <= a < ks.len() && 0 <= b < ks.len() && a != b implies ks[a]
                            != ks[b] by {
                            if a < keys_of(prev).len() && b < keys_of(prev).len() {
                                assert(keys_of(prev)[a] != keys_of(prev)[b]);
                            }
                        }
                    }
                    assert(live.contains(p.0));
                    assert(assoc_map(prefix).insert(p.0, p.1).restrict(live) =~= assoc_map(
                        prefix,
                    ).restrict(live).insert(p.0, p.1));
                    assert forall|x: u64| keys_of(prev.push(p)).contains(x) implies keys_of(
                        all@.take(i + 1),
                    ).contains(x) by {
                        assert(keys_of(all@.take(i + 1)) =~= keys_of(prefix).push(p.0));
                        if x == p.0 {
                            assert(keys_of(prefix).push(p.0)[keys_of(prefix).len() as int] == x);
                        } else {
                            let pushed = keys_of(prev).push(p.0);
                            let j = choose|j: int| 0 <= j < pushed.len() && pushed[j] == x;
                            assert(j < keys_of(prev).len());
                            assert(keys_of(prev)[j] == x);
                            assert(keys_of(prev).contains(x));
                            assert(keys_of(all@.take(i as int)).contains(x));
                            let m = choose|m: int|
                                0 <= m < keys_of(prefix).len() && keys_of(prefix)[m] == x;
                            assert(keys_of(prefix).push(p.0)[m] == x);
                        }
                    }
                }
            } else {
                proof {
                    assert(!live.contains(p.0));
                    assert(assoc_map(prefix).insert(p.0, p.1).restrict(live) =~= assoc_map(
                        prefix,
                    ).restrict(live));
                    assert forall|x: u64| keys_of(out@).contains(x) implies keys_of(
                        all@.take(i + 1),
                    ).contains(x) by {
                        assert(keys_of(all@.take(i + 1)) =~= keys_of(prefix).push(p.0));
                        assert(keys_of(all@.take(i as int)).contains(x));
                        let m = choose|m: int|
                            0 <= m < keys_of(prefix).len() && keys_of(prefix)[m] == x;
                        assert(keys_of(prefix).push(p.0)[m] == x);
                    }
                }
            }
            i = i + 1;
        }
        proof {
            assert(all@.take(n as int) =~= all@);
        }
        out
    }
}

/// Capacity invariant: a well-formed shard never holds more entries than its
/// capacity, after any completed operation.
pub proof fn lemma_capacity_bound<V: Copy, E: EvictionStrategy, X: ExpirationStrategy>(
    c: Cache<V, E, X>,
)
    requires
        c.wf(),
    ensures
        c.entries().dom().finite(),
        c.entries().dom().len() <= c.cap(),
{
}

/// A value just written is returned by the next `get` of the same key on the
/// same shard, unless the entry expired in between.
pub proof fn lemma_get_after_set<V: Copy, E: EvictionStrategy, X: ExpirationStrategy>(
    pre: Cache<V, E, X>,
    mid: Cache<V, E, X>,
    post: Cache<V, E, X>,
    r_set: Result<(), CacheError>,
    r_get: Option<V>,
    key: u64,
    value: V,
    now_w: u64,
    now_r: u64,
)
    requires
        set_rel(pre, mid, r_set, key, value, now_w),
        r_set is Ok,
        get_rel(mid, post, r_get, key, now_r),
        !X::expired_at(mid.deadlines(), key, now_r),
    ensures
        r_get == Some(value),
{
}

/// Removing the same key twice in a row: the second remove finds nothing.
pub proof fn lemma_remove_twice<V: Copy, E: EvictionStrategy, X: ExpirationStrategy>(
    pre: Cache<V, E, X>,
    mid: Cache<V, E, X>,
    post: Cache<V, E, X>,
    r1: Option<V>,
    r2: Option<V>,
    key: u64,
)
    requires
        remove_rel(pre, mid, r1, key),
        remove_rel(mid, post, r2, key),
    ensures
        r2 == None::<V>,
{
}

/// Metrics accounting: on a well-formed shard, hits plus misses equals the
/// number of completed gets, writes the number of completed sets, evictions
/// the number of policy-driven removals, and removals the number of explicit
/// removes that found their key — each since the last reset.
pub proof fn lemma_metrics_account<V: Copy, E: EvictionStrategy, X: ExpirationStrategy>(
    c: Cache<V, E, X>,
)
    requires
        c.wf(),
    ensures
        c.counters().hits + c.counters().misses == c.completed_gets(),
        c.counters().writes == c.completed_sets(),
        c.counters().evictions == c.policy_removals(),
        c.counters().removals == c.explicit_remove_hits(),
{
}

/// A run of fresh hits, one per key, front to back: `states[i + 1]` is
/// `states[i]` after a `get` of `keys[i]` at instant `now` that found an
/// unexpired entry.
pub open spec fn fresh_hit_chain<V: Copy, E: EvictionStrategy, X: ExpirationStrategy>(
    states: Seq<Cache<V, E, X>>,
    keys: Seq<u64>,
    now: u64,
) -> bool {
    &&& states.len() == keys.len() + 1
    &&& forall|i: int|
        0 <= i < keys.len() ==> {
            &&& (#[trigger] states[i]).entries().dom().contains(keys[i])
            &&& !X::expired_at(states[i].deadlines(), keys[i], now)
            &&& get_rel(
                states[i],
                states[i + 1],
                fresh_lookup::<V, X>(states[i].entries(), states[i].deadlines(), keys[i], now),
                keys[i],
                now,
            )
        }
}

/// A run of fresh hits on an LRU shard leaves the entries alone and touches
/// the order once per key, front to back.
proof fn lemma_fresh_hit_chain_order<V: Copy, X: ExpirationStrategy>(
    states: Seq<Cache<V, LruEvictionStrategy, X>>,
    keys: Seq<u64>,
    now: u64,
)
    requires
        fresh_hit_chain(states, keys, now),
    ensures
        states.last().order() == crate::eviction::order_touch_all(states[0].order(), keys),
        states.last().entries() == states[0].entries(),
        states.last().cap() == states[0].cap(),
    decreases keys.len(),
{
    if keys.len() == 0 {
        assert(states.last() == states[0]);
    } else {
        let states2 = states.drop_first();
        let keys2 = keys.drop_first();
        assert(states[0].entries().dom().contains(keys[0]));
        assert(fresh_hit_chain(states2, keys2, now)) by {
            assert forall|i: int| 0 <= i < keys2.len() implies {
                &&& (#[trigger] states2[i]).entries().dom().contains(keys2[i])
                &&& !X::expired_at(states2[i].deadlines(), keys2[i], now)
                &&& get_rel(
                    states2[i],
                    states2[i + 1],
                    fresh_lookup::<V, X>(
                        states2[i].entries(),
                        states2[i].deadlines(),
                        keys2[i],
                        now,
                    ),
                    keys2[i],
                    now,
                )
            } by {
                assert(states[i + 1].entries().dom().contains(keys[i + 1]));
                assert(states2[i] == states[i + 1]);
                assert(states2[i + 1] == states[i + 2]);
            }
        }
        lemma_fresh_hit_chain_order(states2, keys2, now);
        assert(states2[0] == states[1]);
        assert(states.last() == states2.last());
        assert(states[1].order() == crate::eviction::order_touch(states[0].order(), keys[0]));
    }
}

/// The LRU law at the shard level: on an LRU shard at capacity holding
/// exactly the distinct keys `keys`, after one fresh hit on each key, front
/// to back, a `set` of an absent key succeeds and evicts the first key hit.
pub proof fn lemma_lru_victim_after_hits<V: Copy, X: ExpirationStrategy>(
    states: Seq<Cache<V, LruEvictionStrategy, X>>,
    keys: Seq<u64>,
    now: u64,
    new_key: u64,
)
    requires
        fresh_hit_chain(states, keys, now),
        states[0].wf(),
        keys.no_duplicates(),
        keys.len() >= 1,
        states[0].entries().dom() == keys.to_set(),
        states[0].entries().dom().len() >= states[0].cap(),
        !keys.to_set().contains(new_key),
    ensures
        set_ok::<V, LruEvictionStrategy, X>(states.last(), new_key),
        set_victim::<V, LruEvictionStrategy, X>(states.last(), new_key) == Some(keys[0]),
{
    lemma_fresh_hit_chain_order(states, keys, now);
    crate::eviction::lemma_lru_order_distinct(states[0].eviction);
    crate::eviction::lemma_lru_victim_after_full_round(states[0].order(), keys);
}

/// Clearing twice is indistinguishable from clearing once: every observable
/// component of the state after a `clear` is a constant.
pub proof fn lemma_clear_idempotent<V: Copy, E: EvictionStrategy, X: ExpirationStrategy>(
    once: Cache<V, E, X>,
    twice: Cache<V, E, X>,
)
    requires
        once.is_cleared(),
        twice.is_cleared(),
    ensures
        once.entries() == twice.entries(),
        once.order() == twice.order(),
        once.deadlines() == twice.deadlines(),
        once.counters() == twice.counters(),
        once.completed_gets() == twice.completed_gets(),
{
}

} // verus!
