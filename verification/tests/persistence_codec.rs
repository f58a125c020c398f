use cachecore::cache::Cache;
use cachecore::errors::CacheError;
use cachecore::eviction::{LruEvictionStrategy, NoEvictionStrategy};
use cachecore::expiration::{NoExpirationStrategy, TtlExpirationStrategy};
use cachecore::persistence::{persist_snapshot, restore_from_text};

fn lru_cache(capacity: usize) -> Cache<u64, LruEvictionStrategy, NoExpirationStrategy> {
    Cache::new(LruEvictionStrategy::new(), NoExpirationStrategy::new(), capacity)
}

#[test]
fn persist_then_restore_round_trips() {
    let mut c = lru_cache(2);
    c.set(1, 100, 0).unwrap();
    c.set(2, 200, 0).unwrap();
    let image = persist_snapshot(&c, 0);

    let mut fresh = lru_cache(2);
    restore_from_text(&mut fresh, &image, 0).unwrap();
    let mut got = fresh.snapshot_entries(0);
    got.sort();
    assert_eq!(got, vec![(1, 100), (2, 200)]);
}

#[test]
fn restore_into_larger_cache_round_trips() {
    let mut c = lru_cache(4);
    for k in 1..=4u64 {
        c.set(k, k + 1000, 0).unwrap();
    }
    let image = persist_snapshot(&c, 0);
    let mut fresh = lru_cache(16);
    restore_from_text(&mut fresh, &image, 0).unwrap();
    let mut got = fresh.snapshot_entries(0);
    got.sort();
    let mut want = c.snapshot_entries(0);
    want.sort();
    assert_eq!(got, want);
}

#[test]
fn persisted_image_is_not_the_raw_entries() {
    // the codec really transforms: feeding it its own input back fails
    let mut fresh = lru_cache(4);
    let err = restore_from_text(&mut fresh, "definitely not an image", 0).unwrap_err();
    assert!(matches!(err, CacheError::DeserializationError(_)));
    assert_eq!(fresh.len(), 0);
}

#[test]
fn snapshot_excludes_expired_entries() {
    let mut c: Cache<u64, LruEvictionStrategy, TtlExpirationStrategy> =
        Cache::new(LruEvictionStrategy::new(), TtlExpirationStrategy::new(50), 4);
    c.set(1, 10, 0).unwrap();
    c.set(2, 20, 40).unwrap();
    let image = persist_snapshot(&c, 60);
    let mut fresh = lru_cache(4);
    restore_from_text(&mut fresh, &image, 0).unwrap();
    let got = fresh.snapshot_entries(0);
    assert_eq!(got, vec![(2, 20)]);
}

#[test]
fn restore_honors_capacity_and_policy() {
    let mut c = lru_cache(3);
    c.set(1, 10, 0).unwrap();
    c.set(2, 20, 0).unwrap();
    c.set(3, 30, 0).unwrap();
    let image = persist_snapshot(&c, 0);

    // an evicting target stays within its smaller bound
    let mut small = lru_cache(2);
    restore_from_text(&mut small, &image, 0).unwrap();
    assert_eq!(small.len(), 2);

    // a refusing target reports the overflow and keeps what fit
    let mut refusing: Cache<u64, NoEvictionStrategy, NoExpirationStrategy> =
        Cache::new(NoEvictionStrategy::new(), NoExpirationStrategy::new(), 2);
    let err = restore_from_text(&mut refusing, &image, 0).unwrap_err();
    assert!(matches!(err, CacheError::CacheFullError));
    assert_eq!(refusing.len(), 2);
}

#[test]
fn empty_cache_round_trips_to_empty() {
    let c = lru_cache(2);
    let image = persist_snapshot(&c, 0);
    let mut fresh = lru_cache(2);
    restore_from_text(&mut fresh, &image, 0).unwrap();
    assert!(fresh.is_empty());
}
