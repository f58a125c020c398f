//! A bounded-size map from `u64` keys to values, stored as an association
//! list with pairwise-distinct keys. It backs both a shard's data map and the
//! expiration policy's deadline table.

use vstd::prelude::*;

verus! {

/// The keys of an association list, in storage order.
pub open spec fn keys_of<V>(s: Seq<(u64, V)>) -> Seq<u64> {
    s.map_values(|p: (u64, V)| p.0)
}

/// The mathematical map described by an association list; on duplicate keys
/// the later pair wins.
pub open spec fn assoc_map<V>(s: Seq<(u64, V)>) -> Map<u64, V>
    decreases s.len(),
{
    if s.len() == 0 {
        Map::empty()
    } else {
        assoc_map(s.drop_last()).insert(s.last().0, s.last().1)
    }
}

pub proof fn lemma_assoc_map_dom<V>(s: Seq<(u64, V)>)
    ensures
        assoc_map(s).dom() == keys_of(s).to_set(),
    decreases s.len(),
{
    if s.len() == 0 {
        assert(assoc_map(s).dom() =~= keys_of(s).to_set());
    } else {
        lemma_assoc_map_dom(s.drop_last());
        assert(keys_of(s.drop_last()) =~= keys_of(s).drop_last());
        assert forall|x: u64| keys_of(s).to_set().contains(x) implies assoc_map(s).dom().contains(
            x,
        ) by {
            let i = choose|i: int| 0 <= i < keys_of(s).len() && keys_of(s)[i] == x;
            if i < s.len() - 1 {
                assert(keys_of(s).drop_last()[i] == x);
                assert(keys_of(s.drop_last()).to_set().contains(x));
            }
        }
        assert forall|x: u64| assoc_map(s).dom().contains(x) implies keys_of(s).to_set().contains(
            x,
        ) by {
            if x == s.last().0 {
                assert(keys_of(s)[s.len() - 1] == x);
            } else {
                let i = choose|i: int|
                    0 <= i < keys_of(s.drop_last()).len() && keys_of(s.drop_last())[i] == x;
                assert(keys_of(s)[i] == x);
            }
        }
        assert(assoc_map(s).dom() =~= keys_of(s).to_set());
    }
}

pub proof fn lemma_assoc_map_len<V>(s: Seq<(u64, V)>)
    requires
        keys_of(s).no_duplicates(),
    ensures
        assoc_map(s).dom().finite(),
        assoc_map(s).dom().len() == s.len(),
    decreases s.len(),
{
    lemma_assoc_map_dom(s);
    if s.len() == 0 {
        assert(assoc_map(s).dom() =~= Set::<u64>::empty());
    } else {
        assert(keys_of(s.drop_last()) =~= keys_of(s).drop_last());
        lemma_assoc_map_len(s.drop_last());
        lemma_assoc_map_dom(s.drop_last());
        // the last key is new, so the insert grows the domain by one
        assert(!keys_of(s).drop_last().contains(s.last().0)) by {
            if keys_of(s).drop_last().contains(s.last().0) {
                let i = choose|i: int|
                    0 <= i < s.len() - 1 && keys_of(s).drop_last()[i] == s.last().0;
                assert(keys_of(s)[i] == keys_of(s)[s.len() - 1]);
            }
        }
        assert(!assoc_map(s.drop_last()).dom().contains(s.last().0));
    }
}

pub proof fn lemma_assoc_map_index<V>(s: Seq<(u64, V)>, i: int)
    requires
        keys_of(s).no_duplicates(),
        0 <= i < s.len(),
    ensures
        assoc_map(s).dom().contains(s[i].0),
        assoc_map(s)[s[i].0] == s[i].1,
    decreases s.len(),
{
    assert(keys_of(s)[i] == s[i].0);
    if i == s.len() - 1 {
    } else {
        assert(keys_of(s.drop_last()) =~= keys_of(s).drop_last());
        lemma_assoc_map_index(s.drop_last(), i);
        // the key at i differs from the last key, so the final insert keeps it
        assert(keys_of(s)[i] != keys_of(s)[s.len() - 1]);
    }
}

pub proof fn lemma_assoc_map_push<V>(s: Seq<(u64, V)>, k: u64, v: V)
    ensures
        assoc_map(s.push((k, v))) == assoc_map(s).insert(k, v),
{
    assert(s.push((k, v)).drop_last() =~= s);
    assert(s.push((k, v)).last() == (k, v));
}

pub proof fn lemma_assoc_map_remove_at<V>(s: Seq<(u64, V)>, i: int)
    requires
        keys_of(s).no_duplicates(),
        0 <= i < s.len(),
    ensures
        assoc_map(s.remove(i)) == assoc_map(s).remove(s[i].0),
        keys_of(s.remove(i)) =~= keys_of(s).remove(i),
    decreases s.len(),
{
    let k = s[i].0;
    assert(keys_of(s.remove(i)) =~= keys_of(s).remove(i));
    if i == s.len() - 1 {
        assert(s.remove(i) =~= s.drop_last());
        lemma_assoc_map_dom(s.drop_last());
        assert(keys_of(s.drop_last()) =~= keys_of(s).drop_last());
        assert(!keys_of(s).drop_last().contains(k)) by {
            if keys_of(s).drop_last().contains(k) {
                let j = choose|j: int| 0 <= j < s.len() - 1 && keys_of(s).drop_last()[j] == k;
                assert(keys_of(s)[j] == keys_of(s)[s.len() - 1]);
            }
        }
        assert(!assoc_map(s.drop_last()).dom().contains(k));
        assert(assoc_map(s.drop_last()) =~= assoc_map(s.drop_last()).insert(k, s[i].1).remove(k));
    } else {
        let t = s.drop_last();
        assert(keys_of(t) =~= keys_of(s).drop_last());
        lemma_assoc_map_remove_at(t, i);
        assert(s.remove(i).len() == s.len() - 1);
        assert(s.remove(i).drop_last() =~= t.remove(i));
        assert(s.remove(i).last() == s.last()) by {
            s.remove_ensures(i);
        }
        // removing key k commutes with inserting the distinct last key
        assert(keys_of(s)[i] != keys_of(s)[s.len() - 1]);
        assert(assoc_map(t).remove(k).insert(s.last().0, s.last().1) =~= assoc_map(t).insert(
            s.last().0,
            s.last().1,
        ).remove(k));
    }
}

/// A map from `u64` keys to copyable values with a bounded, exact view.
pub struct KvMap<V> {
    pairs: Vec<(u64, V)>,
}

impl<V> View for KvMap<V> {
    type V = Map<u64, V>;

    closed spec fn view(&self) -> Map<u64, V> {
        assoc_map(self.pairs@)
    }
}

impl<V: Copy> KvMap<V> {
    /// The stored pairs; their keys are pairwise distinct whenever `wf` holds.
    pub closed spec fn pairs_seq(&self) -> Seq<(u64, V)> {
        self.pairs@
    }

    pub closed spec fn wf(&self) -> bool {
        keys_of(self.pairs@).no_duplicates()
    }

    pub proof fn lemma_view_props(&self)
        requires
            self.wf(),
        ensures
            self@.dom().finite(),
            self@.dom().len() == self.pairs_seq().len(),
            self@ == assoc_map(self.pairs_seq()),
            keys_of(self.pairs_seq()).no_duplicates(),
    {
        lemma_assoc_map_len(self.pairs@);
    }

    pub fn new() -> (r: KvMap<V>)
        ensures
            r.wf(),
            r@ == Map::<u64, V>::empty(),
            r.pairs_seq() == Seq::<(u64, V)>::empty(),
    {
        KvMap { pairs: Vec::new() }
    }

    pub fn len(&self) -> (r: usize)
        requires
            self.wf(),
        ensures
            r == self@.dom().len(),
    {
        proof {
            lemma_assoc_map_len(self.pairs@);
        }
        self.pairs.len()
    }

    /// The index holding `key`, if any.
    fn find(&self, key: u64) -> (r: Option<usize>)
        ensures
            match r {
                Some(i) => i < self.pairs_seq().len() && self.pairs_seq()[i as int].0 == key,
                None => !keys_of(self.pairs_seq()).contains(key),
            },
    {
        let n = self.pairs.len();
        let mut i: usize = 0;
        while i < n
            invariant
                i <= n,
                n == self.pairs_seq().len(),
                forall|j: int| 0 <= j < i ==> self.pairs_seq()[j].0 != key,
            decreases n - i,
        {
            if self.pairs[i].0 == key {
                return Some(i);
            }
            i = i + 1;
        }
        proof {
            assert forall|j: int| 0 <= j < keys_of(self.pairs@).len() implies keys_of(self.pairs@)[j]
                != key by {
                assert(self.pairs@[j].0 != key);
            }
        }
        None
    }

    pub fn contains_key(&self, key: u64) -> (r: bool)
        requires
            self.wf(),
        ensures
            r == self@.dom().contains(key),
    {
        proof {
            lemma_assoc_map_dom(self.pairs@);
        }
        match self.find(key) {
            Some(i) => {
                proof {
                    assert(keys_of(self.pairs@)[i as int] == key);
                }
                true
            },
            None => false,
        }
    }

    pub fn get(&self, key: u64) -> (r: Option<V>)
        requires
            self.wf(),
        ensures
            r == (if self@.dom().contains(key) {
                Some(self@[key])
            } else {
                None::<V>
            }),
    {
        proof {
            lemma_assoc_map_dom(self.pairs@);
        }
        match self.find(key) {
            Some(i) => {
                proof {
                    lemma_assoc_map_index(self.pairs@, i as int);
                }
                Some(self.pairs[i].1)
            },
            None => None,
        }
    }

    pub fn insert(&mut self, key: u64, value: V)
        requires
            old(self).wf(),
        ensures
            final(self).wf(),
            final(self)@ == old(self)@.insert(key, value),
    {
        proof {
            lemma_assoc_map_dom(self.pairs@);
        }
        match self.find(key) {
            Some(i) => {
                let ghost before = self.pairs@;
                self.pairs.remove(i);
                proof {
                    lemma_assoc_map_remove_at(before, i as int);
                    keys_of(before).remove_ensures(i as int);
                    assert(keys_of(self.pairs@).no_duplicates());
                }
                let ghost mid = self.pairs@;
                self.pairs.push((key, value));
                proof {
                    lemma_assoc_map_push(mid, key, value);
                    lemma_assoc_map_dom(mid);
                    // the key was removed, so pushing it back keeps keys distinct
                    assert(keys_of(mid.push((key, value))) =~= keys_of(mid).push(key));
                    assert(!keys_of(mid).contains(key)) by {
                        if keys_of(mid).contains(key) {
                            let j = choose|j: int|
                                0 <= j < keys_of(mid).len() && keys_of(mid)[j] == key;
                            assert(keys_of(before).remove(i as int)[j] == key);
                            keys_of(before).remove_ensures(i as int);
                            if j < i {
                                assert(keys_of(before)[j] == keys_of(before)[i as int]);
                            } else {
                                assert(keys_of(before)[j + 1] == keys_of(before)[i as int]);
                            }
                        }
                    }
                    assert(assoc_map(before).remove(key).insert(key, value) =~= assoc_map(
                        before,
                    ).insert(key, value));
                }
            },
            None => {
                let ghost before = self.pairs@;
                self.pairs.push((key, value));
                proof {
                    lemma_assoc_map_push(before, key, value);
                    assert(keys_of(before.push((key, value))) =~= keys_of(before).push(key));
                }
            },
        }
    }

    pub fn remove(&mut self, key: u64) -> (r: Option<V>)
        requires
            old(self).wf(),
        ensures
            final(self).wf(),
            final(self)@ == old(self)@.remove(key),
            r == (if old(self)@.dom().contains(key) {
                Some(old(self)@[key])
            } else {
                None::<V>
            }),
    {
        proof {
            lemma_assoc_map_dom(self.pairs@);
        }
        match self.find(key) {
            Some(i) => {
                proof {
                    lemma_assoc_map_index(self.pairs@, i as int);
                    lemma_assoc_map_remove_at(self.pairs@, i as int);
                    keys_of(self.pairs@).remove_ensures(i as int);
                }
                let p = self.pairs.remove(i);
                Some(p.1)
            },
            None => {
                proof {
                    assert(self@ =~= self@.remove(key));
                }
                None
            },
        }
    }

    pub fn clear(&mut self)
        ensures
            final(self).wf(),
            final(self)@ == Map::<u64, V>::empty(),
    {
        self.pairs.clear();
    }

    /// A copy of all stored pairs, in storage order.
    pub fn entries(&self) -> (r: Vec<(u64, V)>)
        requires
            self.wf(),
        ensures
            r@ == self.pairs_seq(),
            keys_of(r@).no_duplicates(),
            assoc_map(r@) == self@,
    {
        let n = self.pairs.len();
        let mut out: Vec<(u64, V)> = Vec::new();
        let mut i: usize = 0;
        while i < n
            invariant
                i <= n,
                n == self.pairs_seq().len(),
                out@ == self.pairs_seq().take(i as int),
            decreases n - i,
        {
            out.push(self.pairs[i]);
            proof {
                assert(self.pairs@.take(i + 1) =~= self.pairs@.take(i as int).push(
                    self.pairs@[i as int],
                ));
            }
            i = i + 1;
        }
        proof {
            assert(self.pairs@.take(n as int) =~= self.pairs@);
        }
        out
    }
}

} // verus!
