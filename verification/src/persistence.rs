//! Snapshot and restore: a cache's live entries round-trip through a
//! self-describing text codec (JSON). This module only encodes, decodes and
//! re-inserts; reading and writing the persistence sink is the embedding
//! layer's business.

use crate::cache::{live_keys, Cache};
use crate::errors::CacheError;
use crate::eviction::EvictionStrategy;
use crate::expiration::ExpirationStrategy;
use crate::store::{assoc_map, keys_of, lemma_assoc_map_len, lemma_assoc_map_push};
use vstd::prelude::*;

verus! {

/// The text the codec produces for a given entry sequence.
pub uninterp spec fn entries_json(entries: Seq<(u64, u64)>) -> Seq<char>;

/// Relies on serde_json::to_string: the encoding depends on the entries
/// alone, and encoding a vector of integer pairs cannot fail (serde_json
/// fails only on erring Serialize impls and on maps with non-string keys).
#[verifier::external_body]
fn encode_entries(entries: &Vec<(u64, u64)>) -> (r: String)
    ensures
        r@ == entries_json(entries@),
{
    serde_json::to_string(entries).unwrap()
}

/// Relies on serde_json::from_str: decoding is a function of the text, and
/// decoding the codec's own encoding of an entry sequence yields exactly that
/// sequence; any other error is surfaced verbatim.
#[verifier::external_body]
fn decode_entries(text: &str) -> (r: Result<Vec<(u64, u64)>, CacheError>)
    ensures
        forall|es: Seq<(u64, u64)>| text@ == entries_json(es) ==> r is Ok && r->Ok_0@ == es,
{
    match serde_json::from_str::<Vec<(u64, u64)>>(text) {
        Ok(v) => Ok(v),
        Err(e) => Err(CacheError::DeserializationError(e.to_string())),
    }
}

/// Serialize the live entries of `cache` at instant `now`: the produced text
/// is the codec's encoding of an entry sequence with pairwise-distinct keys
/// that describes exactly the unexpired part of the cache.
pub fn persist_snapshot<E: EvictionStrategy, X: ExpirationStrategy>(
    cache: &Cache<u64, E, X>,
    now: u64,
) -> (r: String)
    requires
        cache.wf(),
    ensures
        exists|es: Seq<(u64, u64)>|
            {
                &&& r@ == #[trigger] entries_json(es)
                &&& keys_of(es).no_duplicates()
                &&& assoc_map(es) == cache.entries().restrict(
                    live_keys::<X>(cache.deadlines(), now),
                )
                &&& es.len() == assoc_map(es).dom().len()
            },
{
    let entries = cache.snapshot_entries(now);
    proof {
        lemma_assoc_map_len(entries@);
    }
    let r = encode_entries(&entries);
    proof {
        assert(r@ == entries_json(entries@));
    }
    r
}

/// Insert every entry into `cache`, front to back, with ordinary sets at
/// instant `now`: restore honors the capacity and the eviction policy, it is
/// no bypass. The first refused insert stops the restore, leaving the
/// already-restored entries in place. Restoring into an empty cache whose
/// capacity admits the whole sequence reproduces it exactly.
pub fn restore_entries<E: EvictionStrategy, X: ExpirationStrategy>(
    cache: &mut Cache<u64, E, X>,
    entries: &Vec<(u64, u64)>,
    now: u64,
) -> (r: Result<(), CacheError>)
    requires
        old(cache).wf(),
        old(cache).counters().writes + entries@.len() <= usize::MAX,
        old(cache).counters().evictions + entries@.len() <= usize::MAX,
    ensures
        final(cache).wf(),
        final(cache).cap() == old(cache).cap(),
        final(cache).exp_config() == old(cache).exp_config(),
        r is Err ==> r == Err::<(), CacheError>(CacheError::CacheFullError),
        (old(cache).entries() == Map::<u64, u64>::empty() && entries@.len() <= old(cache).cap())
            ==> r is Ok && final(cache).entries() == assoc_map(entries@),
{
    let n = entries.len();
    let mut i: usize = 0;
    while i < n
        invariant
            i <= n,
            n == entries@.len(),
            cache.wf(),
            cache.cap() == old(cache).cap(),
            cache.exp_config() == old(cache).exp_config(),
            cache.counters().writes <= old(cache).counters().writes + i,
            cache.counters().evictions <= old(cache).counters().evictions + i,
            old(cache).counters().writes + n <= usize::MAX,
            old(cache).counters().evictions + n <= usize::MAX,
            (old(cache).entries() == Map::<u64, u64>::empty() && n <= old(cache).cap()) ==> {
                &&& cache.entries() == assoc_map(entries@.take(i as int))
                &&& cache.entries().dom().len() <= i
            },
        decreases n - i,
    {
        let p = entries[i];
        let ghost before = *cache;
        let ghost prefix = entries@.take(i as int);
        match cache.set(p.0, p.1, now) {
            Ok(()) => {},
            Err(e) => {
                proof {
                    if old(cache).entries() == Map::<u64, u64>::empty() && n <= old(
                        cache,
                    ).cap() {
                        // there was room, so the set cannot have been refused
                        assert(before.entries().dom().len() < before.cap());
                        assert(false);
                    }
                }
                return Err(e);
            },
        }
        proof {
            if old(cache).entries() == Map::<u64, u64>::empty() && n <= old(cache).cap() {
                assert(entries@.take(i + 1) =~= prefix.push(p));
                lemma_assoc_map_push(prefix, p.0, p.1);
                // no eviction happened: the shard had room
                assert(before.entries().dom().len() < before.cap());
                assert(cache.entries() == before.entries().insert(p.0, p.1));
                crate::cache::lemma_capacity_bound(before);
                vstd::set::axiom_set_insert_len(before.entries().dom(), p.0);
            }
        }
        i = i + 1;
    }
    proof {
        assert(entries@.take(n as int) =~= entries@);
    }
    Ok(())
}

/// Decode a persisted image and restore it into `cache`. Decode errors and
/// refused inserts surface as errors; an image too large for the counters to
/// account for is rejected before anything changes.
pub fn restore_from_text<E: EvictionStrategy, X: ExpirationStrategy>(
    cache: &mut Cache<u64, E, X>,
    text: &str,
    now: u64,
) -> (r: Result<(), CacheError>)
    requires
        old(cache).wf(),
    ensures
        final(cache).wf(),
        final(cache).cap() == old(cache).cap(),
        final(cache).exp_config() == old(cache).exp_config(),
        forall|es: Seq<(u64, u64)>|
            {
                &&& #[trigger] entries_json(es) == text@
                &&& old(cache).entries() == Map::<u64, u64>::empty()
                &&& es.len() <= old(cache).cap()
                &&& old(cache).counters().writes + es.len() <= usize::MAX
                &&& old(cache).counters().evictions + es.len() <= usize::MAX
            } ==> r is Ok && final(cache).entries() == assoc_map(es),
{
    let decoded = decode_entries(text);
    match decoded {
        Err(e) => Err(e),
        Ok(entries) => {
            let m = cache.metrics_snapshot();
            if entries.len() > usize::MAX - m.writes || entries.len() > usize::MAX - m.evictions {
                return Err(CacheError::PersistenceError("image exceeds counter range".to_owned()));
            }
            restore_entries(cache, &entries, now)
        },
    }
}

} // verus!
