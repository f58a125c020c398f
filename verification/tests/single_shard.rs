use cachecore::cache::Cache;
use cachecore::errors::CacheError;
use cachecore::eviction::{LruEvictionStrategy, NoEvictionStrategy};
use cachecore::expiration::{
    AbsoluteTtlExpirationStrategy, NoExpirationStrategy, TtlExpirationStrategy,
};

fn lru_cache(capacity: usize) -> Cache<u64, LruEvictionStrategy, NoExpirationStrategy> {
    Cache::new(LruEvictionStrategy::new(), NoExpirationStrategy::new(), capacity)
}

#[test]
fn capacity_and_lru_eviction() {
    let mut c = lru_cache(2);
    c.set(1, 10, 0).unwrap();
    c.set(2, 20, 0).unwrap();
    assert_eq!(c.get(1, 0), Some(10));
    c.set(3, 30, 0).unwrap();
    assert_eq!(c.len(), 2);
    assert_eq!(c.get(1, 0), Some(10));
    assert_eq!(c.get(3, 0), Some(30));
    assert_eq!(c.get(2, 0), None);
    assert_eq!(c.metrics_snapshot().evictions, 1);
}

#[test]
fn idle_ttl_refreshes_on_access() {
    let mut c: Cache<u64, LruEvictionStrategy, TtlExpirationStrategy> =
        Cache::new(LruEvictionStrategy::new(), TtlExpirationStrategy::new(100), 10);
    c.set(7, 1, 0).unwrap();
    assert_eq!(c.get(7, 80), Some(1));
    assert_eq!(c.get(7, 150), Some(1));
    assert_eq!(c.get(7, 260), None);
    let m = c.metrics_snapshot();
    assert_eq!(m.misses, 1);
    assert_eq!(m.hits, 2);
    assert_eq!(c.len(), 0);
}

#[test]
fn absolute_ttl_does_not_refresh() {
    let mut c: Cache<u64, LruEvictionStrategy, AbsoluteTtlExpirationStrategy> =
        Cache::new(LruEvictionStrategy::new(), AbsoluteTtlExpirationStrategy::new(100), 10);
    c.set(7, 1, 0).unwrap();
    assert_eq!(c.get(7, 80), Some(1));
    assert_eq!(c.get(7, 99), Some(1));
    assert_eq!(c.get(7, 100), None);
}

#[test]
fn refusing_policy_reports_cache_full() {
    let mut c: Cache<u64, NoEvictionStrategy, NoExpirationStrategy> =
        Cache::new(NoEvictionStrategy::new(), NoExpirationStrategy::new(), 1);
    assert!(c.set(1, 10, 0).is_ok());
    let e = c.set(2, 20, 0).unwrap_err();
    assert!(matches!(e, CacheError::CacheFullError));
    assert_eq!(e.message(), "cache is full");
    assert_eq!(c.get(1, 0), Some(10));
    assert_eq!(c.metrics_snapshot().writes, 1);
}

#[test]
fn get_after_set_returns_value() {
    let mut c = lru_cache(4);
    c.set(5, 55, 0).unwrap();
    assert_eq!(c.get(5, 0), Some(55));
    c.set(5, 56, 0).unwrap();
    assert_eq!(c.get(5, 0), Some(56));
}

#[test]
fn remove_twice_second_returns_none() {
    let mut c = lru_cache(4);
    c.set(9, 90, 0).unwrap();
    assert_eq!(c.remove(9), Some(90));
    assert_eq!(c.remove(9), None);
    assert_eq!(c.metrics_snapshot().removals, 1);
}

#[test]
fn capacity_never_exceeded() {
    let mut c = lru_cache(3);
    for k in 0..50u64 {
        c.set(k, k * 2, 0).unwrap();
        assert!(c.len() <= 3);
    }
    assert_eq!(c.len(), 3);
}

#[test]
fn metrics_account_for_operations() {
    let mut c = lru_cache(8);
    c.set(1, 1, 0).unwrap();
    c.set(2, 2, 0).unwrap();
    c.get(1, 0);
    c.get(2, 0);
    c.get(3, 0);
    c.remove(2);
    c.remove(2);
    let m = c.metrics_snapshot();
    assert_eq!(m.hits + m.misses, 3);
    assert_eq!(m.hits, 2);
    assert_eq!(m.misses, 1);
    assert_eq!(m.writes, 2);
    assert_eq!(m.evictions, 0);
    assert_eq!(m.removals, 1);
}

#[test]
fn clear_is_idempotent() {
    let mut c = lru_cache(4);
    c.set(1, 10, 0).unwrap();
    c.get(1, 0);
    c.clear();
    let after_once = (c.len(), c.is_empty(), c.metrics_snapshot());
    c.clear();
    let after_twice = (c.len(), c.is_empty(), c.metrics_snapshot());
    assert_eq!(after_once, after_twice);
    assert_eq!(after_once.0, 0);
    assert!(after_once.1);
    assert_eq!(after_once.2.hits, 0);
    assert_eq!(after_once.2.writes, 0);
}

#[test]
fn lru_full_round_victim_is_first_touched() {
    let mut c = lru_cache(3);
    c.set(3, 30, 0).unwrap();
    c.set(1, 10, 0).unwrap();
    c.set(2, 20, 0).unwrap();
    // touch every key once: 1, 2, 3
    c.get(1, 0);
    c.get(2, 0);
    c.get(3, 0);
    // a new key now evicts the first key touched
    c.set(4, 40, 0).unwrap();
    assert_eq!(c.get(1, 0), None);
    assert_eq!(c.get(2, 0), Some(20));
    assert_eq!(c.get(3, 0), Some(30));
    assert_eq!(c.get(4, 0), Some(40));
}

#[test]
fn expired_entry_is_removed_on_get() {
    let mut c: Cache<u64, LruEvictionStrategy, TtlExpirationStrategy> =
        Cache::new(LruEvictionStrategy::new(), TtlExpirationStrategy::new(10), 4);
    c.set(1, 10, 0).unwrap();
    assert_eq!(c.len(), 1);
    assert_eq!(c.get(1, 10), None);
    assert_eq!(c.len(), 0);
}

#[test]
fn snapshot_skips_expired_entries() {
    let mut c: Cache<u64, LruEvictionStrategy, TtlExpirationStrategy> =
        Cache::new(LruEvictionStrategy::new(), TtlExpirationStrategy::new(100), 4);
    c.set(1, 10, 0).unwrap();
    c.set(2, 20, 50).unwrap();
    let mut snap = c.snapshot_entries(120);
    snap.sort();
    assert_eq!(snap, vec![(2, 20)]);
    // nothing was removed, only skipped
    assert_eq!(c.len(), 2);
}

#[test]
fn error_messages_are_stable() {
    assert_eq!(CacheError::InvalidKey.message(), "invalid key");
    assert_eq!(CacheError::Timeout.message(), "timed out");
    assert_eq!(
        CacheError::SerializationError(String::new()).message(),
        "serialization error"
    );
    assert_eq!(
        CacheError::DeserializationError(String::new()).message(),
        "deserialization error"
    );
    assert_eq!(
        CacheError::PersistenceError(String::new()).message(),
        "persistence error"
    );
}
