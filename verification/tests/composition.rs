use cachecore::cache::Cache;
use cachecore::events::CacheEvent;
use cachecore::eviction::LruEvictionStrategy;
use cachecore::expiration::NoExpirationStrategy;
use cachecore::layering::LayeredCache;
use cachecore::metrics::CacheMetrics;
use cachecore::sharding::ShardedCache;

fn lru_cache(capacity: usize) -> Cache<u64, LruEvictionStrategy, NoExpirationStrategy> {
    Cache::new(LruEvictionStrategy::new(), NoExpirationStrategy::new(), capacity)
}

#[test]
fn sharded_routing_is_stable() {
    let shards = vec![lru_cache(300), lru_cache(300), lru_cache(300), lru_cache(300)];
    let mut sc = ShardedCache::new(shards);
    assert_eq!(sc.num_shards(), 4);
    for k in 0..1000u64 {
        sc.set(k, k * 3, 0).unwrap();
    }
    assert_eq!(sc.num_shards(), 4);
    for k in 0..1000u64 {
        assert_eq!(sc.get(k, 0), Some(k * 3));
    }
    assert_eq!(sc.num_shards(), 4);
}

#[test]
fn sharded_remove_hits_the_same_shard() {
    let shards = vec![lru_cache(8), lru_cache(8), lru_cache(8)];
    let mut sc = ShardedCache::new(shards);
    sc.set(10, 100, 0).unwrap();
    sc.set(11, 110, 0).unwrap();
    assert_eq!(sc.remove(10), Some(100));
    assert_eq!(sc.remove(10), None);
    assert_eq!(sc.get(11, 0), Some(110));
}

#[test]
fn layered_promotion_on_slow_tier_hit() {
    let mut lc = LayeredCache::new(lru_cache(1), lru_cache(10));
    lc.set(1, 11, 0).unwrap();
    lc.set(2, 22, 0).unwrap();
    // key 1 was evicted from the fast tier by the second write
    let fast: Vec<(u64, u64)> = lc.fast_tier().snapshot_entries(0);
    assert_eq!(fast, vec![(2, 22)]);
    // a get promotes it back from the slow tier
    assert_eq!(lc.get(1, 0), Some(11));
    let fast: Vec<(u64, u64)> = lc.fast_tier().snapshot_entries(0);
    assert_eq!(fast, vec![(1, 11)]);
    let mut slow: Vec<(u64, u64)> = lc.slow_tier().snapshot_entries(0);
    slow.sort();
    assert_eq!(slow, vec![(1, 11), (2, 22)]);
}

#[test]
fn layered_remove_prefers_the_slow_tier_value() {
    let mut lc = LayeredCache::new(lru_cache(4), lru_cache(4));
    lc.set(5, 50, 0).unwrap();
    assert_eq!(lc.remove(5), Some(50));
    assert_eq!(lc.remove(5), None);
    assert_eq!(lc.get(5, 0), None);
}

#[test]
fn layered_get_misses_when_both_tiers_miss() {
    let mut lc = LayeredCache::new(lru_cache(2), lru_cache(2));
    assert_eq!(lc.get(42, 0), None);
}

#[test]
fn metrics_counters_work_standalone() {
    let mut m = CacheMetrics::new();
    m.increment_hits();
    m.increment_hits();
    m.increment_misses();
    m.increment_writes();
    m.increment_evictions();
    m.increment_removals();
    assert_eq!(m.get_hits(), 2);
    assert_eq!(m.get_misses(), 1);
    assert_eq!(m.get_writes(), 1);
    assert_eq!(m.get_evictions(), 1);
    assert_eq!(m.get_removals(), 1);
    let s = m.snapshot();
    assert_eq!(s.hits, 2);
    m.reset();
    assert_eq!(m.get_hits(), 0);
    assert_eq!(m.get_removals(), 0);
}

#[test]
fn event_shapes_carry_their_key() {
    assert_eq!(CacheEvent::Hit { key: 5 }.key(), Some(5));
    assert_eq!(CacheEvent::Write { key: 6, replaced: true }.key(), Some(6));
    assert_eq!(CacheEvent::Expire { key: 7 }.key(), Some(7));
    assert_eq!(CacheEvent::Clear.key(), None);
    assert_eq!(CacheEvent::Evict { key: 8 }, CacheEvent::Evict { key: 8 });
}

#[test]
fn sharded_global_len_and_clear() {
    let shards = vec![lru_cache(8), lru_cache(8)];
    let mut sc = ShardedCache::new(shards);
    for k in 0..10u64 {
        sc.set(k, k + 1, 0).unwrap();
    }
    assert_eq!(sc.len(), 10);
    sc.clear();
    assert_eq!(sc.len(), 0);
    assert_eq!(sc.get(3, 0), None);
}
