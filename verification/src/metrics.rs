//! Monotonic operation counters for one cache shard.

use vstd::prelude::*;

verus! {

/// A single consistent reading of all five counters.
#[derive(Clone, Copy, PartialEq, Eq, Structural, Debug)]
pub struct MetricsSnapshot {
    pub hits: usize,
    pub misses: usize,
    pub writes: usize,
    pub evictions: usize,
    pub removals: usize,
}

/// Five monotonically increasing counters: `hits`, `misses`, `writes`,
/// `evictions` and `removals`. `reset` is the only non-monotonic operation;
/// it returns every counter to zero.
pub struct CacheMetrics {
    pub hits: usize,
    pub misses: usize,
    pub writes: usize,
    pub evictions: usize,
    pub removals: usize,
}

impl CacheMetrics {
    /// All counters start at zero.
    pub fn new() -> (r: CacheMetrics)
        ensures
            r.hits == 0,
            r.misses == 0,
            r.writes == 0,
            r.evictions == 0,
            r.removals == 0,
    {
        CacheMetrics { hits: 0, misses: 0, writes: 0, evictions: 0, removals: 0 }
    }

    pub fn increment_hits(&mut self)
        requires
            old(self).hits < usize::MAX,
        ensures
            final(self).hits == old(self).hits + 1,
            final(self).misses == old(self).misses,
            final(self).writes == old(self).writes,
            final(self).evictions == old(self).evictions,
            final(self).removals == old(self).removals,
    {
        self.hits = self.hits + 1;
    }

    pub fn increment_misses(&mut self)
        requires
            old(self).misses < usize::MAX,
        ensures
            final(self).misses == old(self).misses + 1,
            final(self).hits == old(self).hits,
            final(self).writes == old(self).writes,
            final(self).evictions == old(self).evictions,
            final(self).removals == old(self).removals,
    {
        self.misses = self.misses + 1;
    }

    pub fn increment_writes(&mut self)
        requires
            old(self).writes < usize::MAX,
        ensures
            final(self).writes == old(self).writes + 1,
            final(self).hits == old(self).hits,
            final(self).misses == old(self).misses,
            final(self).evictions == old(self).evictions,
            final(self).removals == old(self).removals,
    {
        self.writes = self.writes + 1;
    }

    pub fn increment_evictions(&mut self)
        requires
            old(self).evictions < usize::MAX,
        ensures
            final(self).evictions == old(self).evictions + 1,
            final(self).hits == old(self).hits,
            final(self).misses == old(self).misses,
            final(self).writes == old(self).writes,
            final(self).removals == old(self).removals,
    {
        self.evictions = self.evictions + 1;
    }

    pub fn increment_removals(&mut self)
        requires
            old(self).removals < usize::MAX,
        ensures
            final(self).removals == old(self).removals + 1,
            final(self).hits == old(self).hits,
            final(self).misses == old(self).misses,
            final(self).writes == old(self).writes,
            final(self).evictions == old(self).evictions,
    {
        self.removals = self.removals + 1;
    }

    /// Returns every counter to zero.
    pub fn reset(&mut self)
        ensures
            final(self).hits == 0,
            final(self).misses == 0,
            final(self).writes == 0,
            final(self).evictions == 0,
            final(self).removals == 0,
    {
        self.hits = 0;
        self.misses = 0;
        self.writes = 0;
        self.evictions = 0;
        self.removals = 0;
    }

    pub fn get_hits(&self) -> (r: usize)
        ensures
            r == self.hits,
    {
        self.hits
    }

    pub fn get_misses(&self) -> (r: usize)
        ensures
            r == self.misses,
    {
        self.misses
    }

    pub fn get_writes(&self) -> (r: usize)
        ensures
            r == self.writes,
    {
        self.writes
    }

    pub fn get_evictions(&self) -> (r: usize)
        ensures
            r == self.evictions,
    {
        self.evictions
    }

    pub fn get_removals(&self) -> (r: usize)
        ensures
            r == self.removals,
    {
        self.removals
    }

    /// All five counters in one reading.
    pub fn snapshot(&self) -> (r: MetricsSnapshot)
        ensures
            r.hits == self.hits,
            r.misses == self.misses,
            r.writes == self.writes,
            r.evictions == self.evictions,
            r.removals == self.removals,
    {
        MetricsSnapshot {
            hits: self.hits,
            misses: self.misses,
            writes: self.writes,
            evictions: self.evictions,
            removals: self.removals,
        }
    }
}

} // verus!
