//! Horizontal partitioning: each key routes to one of N independent shards
//! through a pure function of the key, so the routing is stable for the
//! cache's whole lifetime.

use crate::cache::{get_rel, remove_rel, set_rel, Cache};
use crate::errors::CacheError;
use crate::eviction::EvictionStrategy;
use crate::expiration::ExpirationStrategy;
use vstd::prelude::*;

verus! {

/// The shard index a key routes to, for a given shard count.
pub open spec fn shard_of(key: u64, shard_count: int) -> int
    recommends
        shard_count >= 1,
{
    key as int % shard_count
}

/// Routing always lands on an existing shard.
pub proof fn lemma_shard_of_in_range(key: u64, shard_count: int)
    requires
        shard_count >= 1,
    ensures
        0 <= shard_of(key, shard_count) < shard_count,
{
}

/// Routing is a pure function of the key: two caches with the same shard
/// count route every key alike, so a key's shard never changes while the
/// shard count stands.
pub proof fn lemma_routing_stable(key: u64, count_before: int, count_after: int)
    requires
        count_before == count_after,
    ensures
        shard_of(key, count_before) == shard_of(key, count_after),
{
}

/// The number of entries across a sequence of shards.
pub open spec fn total_len<V: Copy, E: EvictionStrategy, X: ExpirationStrategy>(
    shards: Seq<Cache<V, E, X>>,
) -> int
    decreases shards.len(),
{
    if shards.len() == 0 {
        0
    } else {
        total_len(shards.drop_last()) + shards.last().entries().dom().len()
    }
}

proof fn lemma_total_len_nonneg<V: Copy, E: EvictionStrategy, X: ExpirationStrategy>(
    shards: Seq<Cache<V, E, X>>,
)
    ensures
        total_len(shards) >= 0,
    decreases shards.len(),
{
    if shards.len() > 0 {
        lemma_total_len_nonneg(shards.drop_last());
    }
}

proof fn lemma_total_len_first<V: Copy, E: EvictionStrategy, X: ExpirationStrategy>(
    shards: Seq<Cache<V, E, X>>,
)
    requires
        shards.len() >= 1,
    ensures
        total_len(shards) == shards[0].entries().dom().len() + total_len(shards.drop_first()),
    decreases shards.len(),
{
    if shards.len() == 1 {
        assert(shards.drop_first() =~= Seq::<Cache<V, E, X>>::empty());
        assert(shards.drop_last() =~= Seq::<Cache<V, E, X>>::empty());
    } else {
        let dl = shards.drop_last();
        lemma_total_len_first(dl);
        assert(shards.drop_first().drop_last() =~= dl.drop_first());
        assert(shards.drop_first().last() == shards.last());
    }
}

proof fn lemma_total_len_split<V: Copy, E: EvictionStrategy, X: ExpirationStrategy>(
    shards: Seq<Cache<V, E, X>>,
    i: int,
)
    requires
        0 <= i <= shards.len(),
    ensures
        total_len(shards.take(i)) + total_len(shards.skip(i)) == total_len(shards),
    decreases shards.len(),
{
    if i == shards.len() {
        assert(shards.take(i) =~= shards);
        assert(shards.skip(i) =~= Seq::<Cache<V, E, X>>::empty());
    } else {
        let dl = shards.drop_last();
        lemma_total_len_split(dl, i);
        assert(shards.take(i) =~= dl.take(i));
        assert(shards.skip(i).drop_last() =~= dl.skip(i));
        assert(shards.skip(i).last() == shards.last());
    }
}

/// N independent shards behind one front-end. Operations forward to the
/// routed shard; the other shards are untouched.
pub struct ShardedCache<V, E: EvictionStrategy, X: ExpirationStrategy> {
    shards: Vec<Cache<V, E, X>>,
}

impl<V: Copy, E: EvictionStrategy, X: ExpirationStrategy> ShardedCache<V, E, X> {
    /// The shards, in routing order.
    pub closed spec fn shards_view(&self) -> Seq<Cache<V, E, X>> {
        self.shards@
    }

    pub open spec fn shard_count(&self) -> int {
        self.shards_view().len() as int
    }

    /// The shard index `key` routes to.
    pub open spec fn route(&self, key: u64) -> int {
        shard_of(key, self.shard_count())
    }

    pub open spec fn wf(&self) -> bool {
        &&& self.shard_count() >= 1
        &&& forall|i: int| 0 <= i < self.shard_count() ==> (#[trigger] self.shards_view()[i]).wf()
    }

    /// Assemble a front-end over at least one shard; the shard count and the
    /// routing are fixed from here on.
    pub fn new(shards: Vec<Cache<V, E, X>>) -> (r: ShardedCache<V, E, X>)
        requires
            shards@.len() >= 1,
            forall|i: int| 0 <= i < shards@.len() ==> (#[trigger] shards@[i]).wf(),
        ensures
            r.wf(),
            r.shards_view() == shards@,
    {
        ShardedCache { shards }
    }

    pub fn num_shards(&self) -> (r: usize)
        ensures
            r == self.shard_count(),
    {
        self.shards.len()
    }

    /// The routed index, as executed: always `shard_of` of the key.
    fn shard_index(&self, key: u64) -> (r: usize)
        requires
            self.wf(),
        ensures
            r == self.route(key),
            0 <= r < self.shard_count(),
    {
        let n = self.shards.len();
        let i = key % (n as u64);
        proof {
            lemma_shard_of_in_range(key, n as int);
        }
        i as usize
    }

    /// Drop every entry of every shard and reset each shard's policies and
    /// counters. Shards are cleared one after another, not atomically.
    pub fn clear(&mut self)
        requires
            old(self).wf(),
        ensures
            final(self).wf(),
            final(self).shard_count() == old(self).shard_count(),
            forall|j: int|
                0 <= j < old(self).shard_count() ==> {
                    &&& (#[trigger] final(self).shards_view()[j]).is_cleared()
                    &&& final(self).shards_view()[j].cap() == old(self).shards_view()[j].cap()
                    &&& final(self).shards_view()[j].exp_config()
                        == old(self).shards_view()[j].exp_config()
                },
    {
        let n = self.shards.len();
        let mut i: usize = 0;
        while i < n
            invariant
                i <= n,
                n == self.shards@.len(),
                n == old(self).shards_view().len(),
                forall|j: int| 0 <= j < n ==> (#[trigger] self.shards@[j]).wf(),
                forall|j: int|
                    0 <= j < i ==> {
                        &&& (#[trigger] self.shards@[j]).is_cleared()
                        &&& self.shards@[j].cap() == old(self).shards_view()[j].cap()
                        &&& self.shards@[j].exp_config()
                            == old(self).shards_view()[j].exp_config()
                    },
                forall|j: int|
                    i <= j < n ==> #[trigger] self.shards@[j] == old(self).shards_view()[j],
            decreases n - i,
        {
            let ghost before = self.shards@;
            let mut shard = self.shards.remove(i);
            shard.clear();
            let ghost updated = shard;
            self.shards.insert(i, shard);
            proof {
                assert(self.shards@ =~= before.update(i as int, updated));
            }
            i = i + 1;
        }
    }

    /// The sum of all shard lengths, gathered shard by shard: consistent per
    /// shard, not atomic across shards.
    pub fn len(&self) -> (r: usize)
        requires
            self.wf(),
            total_len(self.shards_view()) <= usize::MAX,
        ensures
            r == total_len(self.shards_view()),
    {
        let n = self.shards.len();
        let mut sum: usize = 0;
        let mut i: usize = 0;
        proof {
            lemma_total_len_split(self.shards@, 0);
        }
        while i < n
            invariant
                i <= n,
                n == self.shards@.len(),
                self.wf(),
                total_len(self.shards@) <= usize::MAX,
                sum == total_len(self.shards@.take(i as int)),
                total_len(self.shards@.take(i as int)) + total_len(self.shards@.skip(i as int))
                    == total_len(self.shards@),
            decreases n - i,
        {
            let shard = &self.shards[i];
            proof {
                lemma_total_len_split(self.shards@, i as int);
                lemma_total_len_split(self.shards@, i + 1);
                assert(self.shards@.take(i + 1).drop_last() =~= self.shards@.take(i as int));
                assert(self.shards@.skip(i as int)[0] == self.shards@[i as int]);
                lemma_total_len_nonneg(self.shards@.skip(i + 1));
                lemma_total_len_first(self.shards@.skip(i as int));
                assert(self.shards@.skip(i as int).drop_first() =~= self.shards@.skip(i + 1));
            }
            sum = sum + shard.len();
            i = i + 1;
        }
        proof {
            assert(self.shards@.take(n as int) =~= self.shards@);
        }
        sum
    }

    /// Forward a `get` to the routed shard; every other shard is untouched.
    pub fn get(&mut self, key: u64, now: u64) -> (r: Option<V>)
        requires
            old(self).wf(),
            old(self).shards_view()[old(self).route(key)].counters().hits < usize::MAX,
            old(self).shards_view()[old(self).route(key)].counters().misses < usize::MAX,
        ensures
            final(self).wf(),
            final(self).shard_count() == old(self).shard_count(),
            get_rel(
                old(self).shards_view()[old(self).route(key)],
                final(self).shards_view()[old(self).route(key)],
                r,
                key,
                now,
            ),
            forall|j: int|
                0 <= j < old(self).shard_count() && j != old(self).route(key)
                    ==> final(self).shards_view()[j] == old(self).shards_view()[j],
    {
        let i = self.shard_index(key);
        let mut shard = self.shards.remove(i);
        let r = shard.get(key, now);
        let ghost updated = shard;
        self.shards.insert(i, shard);
        proof {
            assert(self.shards@ =~= old(self).shards@.update(i as int, updated));
        }
        r
    }

    /// Forward a `set` to the routed shard; every other shard is untouched.
    pub fn set(&mut self, key: u64, value: V, now: u64) -> (r: Result<(), CacheError>)
        requires
            old(self).wf(),
            old(self).shards_view()[old(self).route(key)].counters().writes < usize::MAX,
            old(self).shards_view()[old(self).route(key)].counters().evictions < usize::MAX,
        ensures
            final(self).wf(),
            final(self).shard_count() == old(self).shard_count(),
            set_rel(
                old(self).shards_view()[old(self).route(key)],
                final(self).shards_view()[old(self).route(key)],
                r,
                key,
                value,
                now,
            ),
            forall|j: int|
                0 <= j < old(self).shard_count() && j != old(self).route(key)
                    ==> final(self).shards_view()[j] == old(self).shards_view()[j],
    {
        let i = self.shard_index(key);
        let mut shard = self.shards.remove(i);
        let r = shard.set(key, value, now);
        let ghost updated = shard;
        self.shards.insert(i, shard);
        proof {
            assert(self.shards@ =~= old(self).shards@.update(i as int, updated));
        }
        r
    }

    /// Forward a `remove` to the routed shard; every other shard is
    /// untouched.
    pub fn remove(&mut self, key: u64) -> (r: Option<V>)
        requires
            old(self).wf(),
            old(self).shards_view()[old(self).route(key)].counters().removals < usize::MAX,
        ensures
            final(self).wf(),
            final(self).shard_count() == old(self).shard_count(),
            remove_rel(
                old(self).shards_view()[old(self).route(key)],
                final(self).shards_view()[old(self).route(key)],
                r,
                key,
            ),
            forall|j: int|
                0 <= j < old(self).shard_count() && j != old(self).route(key)
                    ==> final(self).shards_view()[j] == old(self).shards_view()[j],
    {
        let i = self.shard_index(key);
        let mut shard = self.shards.remove(i);
        let r = shard.remove(key);
        let ghost updated = shard;
        self.shards.insert(i, shard);
        proof {
            assert(self.shards@ =~= old(self).shards@.update(i as int, updated));
        }
        r
    }
}

} // verus!
