//! An in-process, bounded key/value caching engine.
//!
//! A single-shard [`cache::Cache`] combines a bounded map with a pluggable
//! eviction policy, a pluggable expiration policy and operation counters.
//! On top of it, [`sharding::ShardedCache`] partitions keys over independent
//! shards, [`layering::LayeredCache`] composes a fast and a slow tier, and
//! [`persistence`] snapshots and restores a cache's contents through a
//! byte-stream codec. Time is passed in by the caller as a plain instant in
//! milliseconds, so every operation is a deterministic function of its inputs.

pub mod cache;
pub mod errors;
pub mod events;
pub mod eviction;
pub mod expiration;
pub mod layering;
pub mod metrics;
pub mod persistence;
pub mod sharding;
pub mod store;
