//! Pluggable eviction: policies observe accesses and writes, and name the
//! victim when a full shard must make room.

use vstd::prelude::*;

verus! {

/// Move the first occurrence of `key` to the most-recent end, or append it.
pub open spec fn order_touch(order: Seq<u64>, key: u64) -> Seq<u64> {
    if order.contains(key) {
        order.remove(order.index_of(key)).push(key)
    } else {
        order.push(key)
    }
}

/// Drop the first occurrence of `key`, if any.
pub open spec fn order_prune(order: Seq<u64>, key: u64) -> Seq<u64> {
    if order.contains(key) {
        order.remove(order.index_of(key))
    } else {
        order
    }
}

/// Append `key` only if it is not yet tracked; recency is left alone.
pub open spec fn order_note(order: Seq<u64>, key: u64) -> Seq<u64> {
    if order.contains(key) {
        order
    } else {
        order.push(key)
    }
}

/// The least recently used key: the front of the order.
pub open spec fn lru_victim(order: Seq<u64>) -> Option<u64> {
    if order.len() == 0 {
        None
    } else {
        Some(order[0])
    }
}

/// An eviction capability. The policy keeps a duplicate-free order of the
/// keys it has observed; the shard keeps that order's membership equal to its
/// own key set. Each operation's effect on the order is pinned to the
/// policy's own spec-level description, so a concrete policy's behaviour is
/// fully known to callers.
pub trait EvictionStrategy: Sized {
    /// The tracked keys, in the policy's preference order: victim candidates
    /// come first.
    spec fn order(&self) -> Seq<u64>;

    spec fn wf(&self) -> bool;

    /// What observing a hit on `key` does to the order.
    spec fn touched(order: Seq<u64>, key: u64) -> Seq<u64>;

    /// What observing a write of `key` does to the order.
    spec fn written(order: Seq<u64>, key: u64, replaced: bool) -> Seq<u64>;

    /// What removing `key` does to the order.
    spec fn pruned(order: Seq<u64>, key: u64) -> Seq<u64>;

    /// The victim the policy names for a given order, or `None` to refuse.
    spec fn victim_of(order: Seq<u64>) -> Option<u64>;

    /// Called after a hit on `key`, inside the shard's critical section.
    fn on_access(&mut self, key: u64)
        requires
            old(self).wf(),
            old(self).order().contains(key),
        ensures
            final(self).wf(),
            final(self).order() == Self::touched(old(self).order(), key),
            final(self).order().to_set() == old(self).order().to_set(),
    ;

    /// Called after a set of `key`; `replaced` says whether the key was
    /// already present.
    fn on_write(&mut self, key: u64, replaced: bool)
        requires
            old(self).wf(),
            replaced == old(self).order().contains(key),
        ensures
            final(self).wf(),
            final(self).order() == Self::written(old(self).order(), key, replaced),
            final(self).order().to_set() == old(self).order().to_set().insert(key),
    ;

    /// Asked only when the shard is at capacity: a key currently tracked, or
    /// `None` if the policy refuses to evict.
    fn select_victim(&self) -> (r: Option<u64>)
        requires
            self.wf(),
        ensures
            r == Self::victim_of(self.order()),
            r matches Some(k) ==> self.order().contains(k),
    ;

    /// Called after any removal of `key` (explicit, evicted or expired).
    fn on_remove(&mut self, key: u64)
        requires
            old(self).wf(),
        ensures
            final(self).wf(),
            final(self).order() == Self::pruned(old(self).order(), key),
            final(self).order().to_set() == old(self).order().to_set().remove(key),
    ;

    /// Bulk reset, used when the shard is cleared.
    fn reset(&mut self)
        ensures
            final(self).wf(),
            final(self).order() == Seq::<u64>::empty(),
    ;
}

/// Facts about a move-to-back step on a duplicate-free order.
pub proof fn lemma_order_touch(order: Seq<u64>, key: u64, i: int)
    requires
        order.no_duplicates(),
        0 <= i < order.len(),
        order[i] == key,
    ensures
        order.index_of(key) == i,
        order_touch(order, key) == order.remove(i).push(key),
        order_touch(order, key).no_duplicates(),
        order_touch(order, key).to_set() == order.to_set(),
        order_touch(order, key).len() == order.len(),
{
    assert(order.contains(key));
    let j = order.index_of(key);
    assert(0 <= j < order.len() && order[j] == key);
    assert(j == i);
    order.remove_ensures(i);
    let rem = order.remove(i);
    assert(!rem.contains(key)) by {
        if rem.contains(key) {
            let m = choose|m: int| 0 <= m < rem.len() && rem[m] == key;
            if m < i {
                assert(order[m] == order[i]);
            } else {
                assert(order[m + 1] == order[i]);
            }
        }
    }
    assert(rem.no_duplicates()) by {
        assert forall|a: int, b: int|
            0 <= a < rem.len() && 0 <= b < rem.len() && a != b implies rem[a] != rem[b] by {
            let sa: int = if a < i {
                a
            } else {
                a + 1
            };
            let sb: int = if b < i {
                b
            } else {
                b + 1
            };
            assert(rem[a] == order[sa] && rem[b] == order[sb]);
        }
    }
    let res = rem.push(key);
    assert(res.no_duplicates()) by {
        assert forall|a: int, b: int|
            0 <= a < res.len() && 0 <= b < res.len() && a != b implies res[a] != res[b] by {
            if a < rem.len() && b < rem.len() {
                assert(rem[a] != rem[b]);
            } else if a < rem.len() {
                assert(res[b] == key && !rem.contains(key) && rem[a] == res[a]);
            } else {
                assert(res[a] == key && !rem.contains(key) && rem[b] == res[b]);
            }
        }
    }
    assert forall|x: u64| res.contains(x) implies order.contains(x) by {
        let m = choose|m: int| 0 <= m < res.len() && res[m] == x;
        if m == rem.len() {
            assert(order[i] == x);
        } else if m < i {
            assert(order[m] == x);
        } else {
            assert(order[m + 1] == x);
        }
    }
    assert forall|x: u64| order.contains(x) implies res.contains(x) by {
        let m = choose|m: int| 0 <= m < order.len() && order[m] == x;
        if m == i {
            assert(res[rem.len() as int] == x);
        } else if m < i {
            assert(res[m] == x);
        } else {
            assert(res[m - 1] == x);
        }
    }
    assert(res.to_set() =~= order.to_set());
}

/// Facts about dropping a present key from a duplicate-free order.
pub proof fn lemma_order_prune(order: Seq<u64>, key: u64, i: int)
    requires
        order.no_duplicates(),
        0 <= i < order.len(),
        order[i] == key,
    ensures
        order.index_of(key) == i,
        order_prune(order, key) == order.remove(i),
        order_prune(order, key).no_duplicates(),
        order_prune(order, key).to_set() == order.to_set().remove(key),
        order_prune(order, key).len() == order.len() - 1,
{
    assert(order.contains(key));
    let j = order.index_of(key);
    assert(0 <= j < order.len() && order[j] == key);
    assert(j == i);
    order.remove_ensures(i);
    let rem = order.remove(i);
    assert(rem.no_duplicates()) by {
        assert forall|a: int, b: int|
            0 <= a < rem.len() && 0 <= b < rem.len() && a != b implies rem[a] != rem[b] by {
            let sa: int = if a < i {
                a
            } else {
                a + 1
            };
            let sb: int = if b < i {
                b
            } else {
                b + 1
            };
            assert(rem[a] == order[sa] && rem[b] == order[sb]);
        }
    }
    assert forall|x: u64| rem.contains(x) implies order.to_set().remove(key).contains(x) by {
        let m = choose|m: int| 0 <= m < rem.len() && rem[m] == x;
        if m < i {
            assert(order[m] == x);
        } else {
            assert(order[m + 1] == x);
        }
        if x == key {
            let s: int = if m < i {
                m
            } else {
                m + 1
            };
            assert(order[s] == order[i]);
        }
    }
    assert forall|x: u64| order.to_set().remove(key).contains(x) implies rem.contains(x) by {
        let m = choose|m: int| 0 <= m < order.len() && order[m] == x;
        if m < i {
            assert(rem[m] == x);
        } else {
            assert(m != i);
            assert(rem[m - 1] == x);
        }
    }
    assert(rem.to_set() =~= order.to_set().remove(key));
}

/// The same facts when the key is absent: pruning changes nothing.
pub proof fn lemma_order_prune_absent(order: Seq<u64>, key: u64)
    requires
        !order.contains(key),
    ensures
        order_prune(order, key) == order,
        order.to_set().remove(key) == order.to_set(),
{
    assert(order.to_set().remove(key) =~= order.to_set());
}

/// Find the position of `key` in `list`, if any.
fn find_key(list: &Vec<u64>, key: u64) -> (r: Option<usize>)
    ensures
        match r {
            Some(i) => i < list@.len() && list@[i as int] == key,
            None => !list@.contains(key),
        },
{
    let n = list.len();
    let mut i: usize = 0;
    while i < n
        invariant
            i <= n,
            n == list@.len(),
            forall|j: int| 0 <= j < i ==> list@[j] != key,
        decreases n - i,
    {
        if list[i] == key {
            return Some(i);
        }
        i = i + 1;
    }
    None
}

/// Least-recently-used eviction: every access or write moves the key to the
/// most-recent end, and the victim is the front of the order.
pub struct LruEvictionStrategy {
    recency: Vec<u64>,
}

impl LruEvictionStrategy {
    pub fn new() -> (r: LruEvictionStrategy)
        ensures
            r.wf(),
            r.order() == Seq::<u64>::empty(),
    {
        LruEvictionStrategy { recency: Vec::new() }
    }
}

impl EvictionStrategy for LruEvictionStrategy {
    closed spec fn order(&self) -> Seq<u64> {
        self.recency@
    }

    closed spec fn wf(&self) -> bool {
        self.recency@.no_duplicates()
    }

    open spec fn touched(order: Seq<u64>, key: u64) -> Seq<u64> {
        order_touch(order, key)
    }

    open spec fn written(order: Seq<u64>, key: u64, replaced: bool) -> Seq<u64> {
        order_touch(order, key)
    }

    open spec fn pruned(order: Seq<u64>, key: u64) -> Seq<u64> {
        order_prune(order, key)
    }

    open spec fn victim_of(order: Seq<u64>) -> Option<u64> {
        lru_victim(order)
    }

    fn on_access(&mut self, key: u64) {
        match find_key(&self.recency, key) {
            Some(i) => {
                proof {
                    lemma_order_touch(self.recency@, key, i as int);
                }
                self.recency.remove(i);
                self.recency.push(key);
            },
            None => {
                proof {
                    assert(false);
                }
            },
        }
    }

    fn on_write(&mut self, key: u64, replaced: bool) {
        match find_key(&self.recency, key) {
            Some(i) => {
                proof {
                    lemma_order_touch(self.recency@, key, i as int);
                    assert(self.recency@.to_set().insert(key) =~= self.recency@.to_set());
                }
                self.recency.remove(i);
                self.recency.push(key);
            },
            None => {
                let ghost before = self.recency@;
                self.recency.push(key);
                proof {
                    assert forall|x: u64| before.push(key).contains(x) implies before.to_set().insert(
                        key,
                    ).contains(x) by {
                        let m = choose|m: int|
                            0 <= m < before.push(key).len() && before.push(key)[m] == x;
                        if m < before.len() {
                            assert(before[m] == x);
                        }
                    }
                    assert forall|x: u64|
                        before.to_set().insert(key).contains(x) implies before.push(key).contains(
                        x,
                    ) by {
                        if x == key {
                            assert(before.push(key)[before.len() as int] == x);
                        } else {
                            let m = choose|m: int| 0 <= m < before.len() && before[m] == x;
                            assert(before.push(key)[m] == x);
                        }
                    }
                    assert(before.push(key).to_set() =~= before.to_set().insert(key));
                    assert(before.push(key).no_duplicates()) by {
                        assert forall|a: int, b: int|
                            0 <= a < before.push(key).len() && 0 <= b < before.push(key).len() && a
                                != b implies before.push(key)[a] != before.push(key)[b] by {
                            if a < before.len() && b < before.len() {
                                assert(before[a] != before[b]);
                            } else if a < before.len() {
                                assert(before[a] == before.push(key)[a]);
                            } else {
                                assert(before[b] == before.push(key)[b]);
                            }
                        }
                    }
                }
            },
        }
    }

    fn select_victim(&self) -> (r: Option<u64>) {
        if self.recency.len() == 0 {
            None
        } else {
            Some(self.recency[0])
        }
    }

    fn on_remove(&mut self, key: u64) {
        match find_key(&self.recency, key) {
            Some(i) => {
                proof {
                    lemma_order_prune(self.recency@, key, i as int);
                }
                self.recency.remove(i);
            },
            None => {
                proof {
                    lemma_order_prune_absent(self.recency@, key);
                }
            },
        }
    }

    fn reset(&mut self) {
        self.recency.clear();
    }
}

/// An eviction policy that refuses to evict: it tracks keys but never names a
/// victim, so a full shard rejects new keys with `CacheFullError`.
pub struct NoEvictionStrategy {
    tracked_keys: Vec<u64>,
}

impl NoEvictionStrategy {
    pub fn new() -> (r: NoEvictionStrategy)
        ensures
            r.wf(),
            r.order() == Seq::<u64>::empty(),
    {
        NoEvictionStrategy { tracked_keys: Vec::new() }
    }
}

impl EvictionStrategy for NoEvictionStrategy {
    closed spec fn order(&self) -> Seq<u64> {
        self.tracked_keys@
    }

    closed spec fn wf(&self) -> bool {
        self.tracked_keys@.no_duplicates()
    }

    open spec fn touched(order: Seq<u64>, key: u64) -> Seq<u64> {
        order
    }

    open spec fn written(order: Seq<u64>, key: u64, replaced: bool) -> Seq<u64> {
        order_note(order, key)
    }

    open spec fn pruned(order: Seq<u64>, key: u64) -> Seq<u64> {
        order_prune(order, key)
    }

    open spec fn victim_of(order: Seq<u64>) -> Option<u64> {
        None
    }

    fn on_access(&mut self, key: u64) {
    }

    fn on_write(&mut self, key: u64, replaced: bool) {
        match find_key(&self.tracked_keys, key) {
            Some(i) => {
                proof {
                    assert(self.tracked_keys@.contains(key));
                    assert(self.tracked_keys@.to_set().insert(key) =~= self.tracked_keys@.to_set());
                }
            },
            None => {
                let ghost before = self.tracked_keys@;
                self.tracked_keys.push(key);
                proof {
                    assert forall|x: u64| before.push(key).contains(x) implies before.to_set().insert(
                        key,
                    ).contains(x) by {
                        let m = choose|m: int|
                            0 <= m < before.push(key).len() && before.push(key)[m] == x;
                        if m < before.len() {
                            assert(before[m] == x);
                        }
                    }
                    assert forall|x: u64|
                        before.to_set().insert(key).contains(x) implies before.push(key).contains(
                        x,
                    ) by {
                        if x == key {
                            assert(before.push(key)[before.len() as int] == x);
                        } else {
                            let m = choose|m: int| 0 <= m < before.len() && before[m] == x;
                            assert(before.push(key)[m] == x);
                        }
                    }
                    assert(before.push(key).to_set() =~= before.to_set().insert(key));
                    assert(before.push(key).no_duplicates()) by {
                        assert forall|a: int, b: int|
                            0 <= a < before.push(key).len() && 0 <= b < before.push(key).len() && a
                                != b implies before.push(key)[a] != before.push(key)[b] by {
                            if a < before.len() && b < before.len() {
                                assert(before[a] != before[b]);
                            } else if a < before.len() {
                                assert(before[a] == before.push(key)[a]);
                            } else {
                                assert(before[b] == before.push(key)[b]);
                            }
                        }
                    }
                }
            },
        }
    }

    fn select_victim(&self) -> (r: Option<u64>) {
        None
    }

    fn on_remove(&mut self, key: u64) {
        match find_key(&self.tracked_keys, key) {
            Some(i) => {
                proof {
                    lemma_order_prune(self.tracked_keys@, key, i as int);
                }
                self.tracked_keys.remove(i);
            },
            None => {
                proof {
                    lemma_order_prune_absent(self.tracked_keys@, key);
                }
            },
        }
    }

    fn reset(&mut self) {
        self.tracked_keys.clear();
    }
}

/// A well-formed LRU policy keeps a duplicate-free order.
pub proof fn lemma_lru_order_distinct(p: LruEvictionStrategy)
    requires
        p.wf(),
    ensures
        p.order().no_duplicates(),
{
}

/// Touch the keys of `keys` in order, front to back.
pub open spec fn order_touch_all(order: Seq<u64>, keys: Seq<u64>) -> Seq<u64>
    decreases keys.len(),
{
    if keys.len() == 0 {
        order
    } else {
        order_touch_all(order_touch(order, keys[0]), keys.drop_first())
    }
}

proof fn lemma_lru_rounds(front: Seq<u64>, done: Seq<u64>, keys: Seq<u64>)
    requires
        (front + done).no_duplicates(),
        keys.no_duplicates(),
        front.to_set() == keys.to_set(),
        forall|x: u64| done.contains(x) ==> !keys.contains(x),
    ensures
        order_touch_all(front + done, keys) == done + keys,
    decreases keys.len(),
{
    if keys.len() == 0 {
        assert(keys.to_set() =~= Set::<u64>::empty());
        assert(front.len() == 0) by {
            if front.len() > 0 {
                assert(front.contains(front[0]));
                assert(front.to_set().contains(front[0]));
            }
        }
        assert(front + done =~= done);
        assert(done + keys =~= done);
    } else {
        let k0 = keys[0];
        let cur = front + done;
        assert(keys.contains(k0));
        assert(front.to_set().contains(k0));
        let i = choose|i: int| 0 <= i < front.len() && front[i] == k0;
        assert(cur[i] == k0);
        lemma_order_touch(cur, k0, i);
        cur.remove_ensures(i);
        let front2 = front.remove(i);
        let done2 = done.push(k0);
        let keys2 = keys.drop_first();
        assert(cur.remove(i).push(k0) =~= front2 + done2) by {
            front.remove_ensures(i);
        }
        assert((front2 + done2).no_duplicates());
        assert(keys2.no_duplicates()) by {
            assert forall|a: int, b: int|
                0 <= a < keys2.len() && 0 <= b < keys2.len() && a != b implies keys2[a]
                != keys2[b] by {
                assert(keys2[a] == keys[a + 1] && keys2[b] == keys[b + 1]);
            }
        }
        assert(front2.to_set() == keys2.to_set()) by {
            assert(front.no_duplicates()) by {
                assert forall|a: int, b: int|
                    0 <= a < front.len() && 0 <= b < front.len() && a != b implies front[a]
                    != front[b] by {
                    assert(front[a] == cur[a] && front[b] == cur[b]);
                }
            }
            lemma_order_prune(front, k0, i);
            assert(order_prune(front, k0) == front.remove(i)) by {
                assert(front.contains(k0));
            }
            assert forall|x: u64| keys2.contains(x) implies keys.to_set().remove(k0).contains(x) by {
                let m = choose|m: int| 0 <= m < keys2.len() && keys2[m] == x;
                assert(keys[m + 1] == x);
                assert(x != k0);
            }
            assert forall|x: u64| keys.to_set().remove(k0).contains(x) implies keys2.contains(x) by {
                let m = choose|m: int| 0 <= m < keys.len() && keys[m] == x;
                assert(m != 0);
                assert(keys2[m - 1] == x);
            }
            assert(keys2.to_set() =~= keys.to_set().remove(k0));
        }
        assert(forall|x: u64| done2.contains(x) ==> !keys2.contains(x)) by {
            assert forall|x: u64| done2.contains(x) implies !keys2.contains(x) by {
                let m = choose|m: int| 0 <= m < done2.len() && done2[m] == x;
                if m < done.len() {
                    assert(done[m] == x);
                    assert(!keys.contains(x));
                    if keys2.contains(x) {
                        let t = choose|t: int| 0 <= t < keys2.len() && keys2[t] == x;
                        assert(keys[t + 1] == x);
                    }
                } else {
                    assert(x == k0);
                    if keys2.contains(x) {
                        let t = choose|t: int| 0 <= t < keys2.len() && keys2[t] == x;
                        assert(keys[t + 1] == keys[0]);
                    }
                }
            }
        }
        lemma_lru_rounds(front2, done2, keys2);
        assert(order_touch_all(cur, keys) == order_touch_all(order_touch(cur, k0), keys2));
        assert(order_touch(cur, k0) == front2 + done2);
        assert(done2 + keys2 =~= done + keys);
    }
}

/// The LRU law: on a policy tracking exactly the distinct keys `keys`, after
/// touching each of them once, front of `keys` first, the order equals `keys`
/// and the named victim is the first key touched.
pub proof fn lemma_lru_victim_after_full_round(order: Seq<u64>, keys: Seq<u64>)
    requires
        order.no_duplicates(),
        keys.no_duplicates(),
        order.to_set() == keys.to_set(),
        keys.len() >= 1,
    ensures
        order_touch_all(order, keys) == keys,
        lru_victim(order_touch_all(order, keys)) == Some(keys[0]),
{
    assert(order + Seq::<u64>::empty() =~= order);
    assert(Seq::<u64>::empty() + keys =~= keys);
    lemma_lru_rounds(order, Seq::empty(), keys);
}

} // verus!
