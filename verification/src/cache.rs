//! A least-recently-used cache of parsed clusters, keyed by cluster number.
use vstd::prelude::*;
use crate::cluster::Cluster;
use std::collections::{HashMap, VecDeque};

verus! {

/// The keys of cache entries, in the same order.
pub open spec fn key_seq(e: Seq<(usize, Cluster)>) -> Seq<usize> {
    e.map_values(|p: (usize, Cluster)| p.0)
}

/// The cluster stored under `idx`, if any.
pub open spec fn spec_lookup(e: Seq<(usize, Cluster)>, idx: usize) -> Option<Cluster> {
    if key_seq(e).contains(idx) {
        Some(e[key_seq(e).index_of(idx)].1)
    } else {
        None
    }
}

/// The entries after `idx` is used: its entry moves to the most recently used end.
pub open spec fn spec_touched(e: Seq<(usize, Cluster)>, idx: usize) -> Seq<(usize, Cluster)> {
    if key_seq(e).contains(idx) {
        let p = key_seq(e).index_of(idx);
        e.remove(p).push(e[p])
    } else {
        e
    }
}

/// The entries after storing `c` under `idx`: an entry for `idx` is replaced and
/// becomes the most recently used; when the cache then holds more than `cap`
/// entries, the least recently used one is dropped.
pub open spec fn spec_put(e: Seq<(usize, Cluster)>, cap: nat, idx: usize, c: Cluster) -> Seq<(usize, Cluster)> {
    let e1 = if key_seq(e).contains(idx) {
        e.remove(key_seq(e).index_of(idx)).push((idx, c))
    } else {
        e.push((idx, c))
    };
    if e1.len() > cap {
        e1.drop_first()
    } else {
        e1
    }
}

/// The entries that a recency order of cluster numbers and a map from
/// cluster numbers to clusters stand for, in the order's order.
pub open spec fn entries_of(order: Seq<usize>, m: Map<usize, Cluster>) -> Seq<(usize, Cluster)> {
    order.map_values(|k: usize| (k, m[k]))
}

/// A cache of at most `capacity` clusters that evicts the least recently used one.
#[derive(Debug)]
pub struct ClusterCache {
    capacity: usize,
    map: HashMap<usize, Cluster>,
    /// Cluster numbers, least recently used first.
    order: VecDeque<usize>,
}

impl ClusterCache {
    /// The largest number of clusters the cache holds.
    pub closed spec fn spec_capacity(&self) -> nat {
        self.capacity as nat
    }

    /// The cached entries, least recently used first.
    pub closed spec fn entries(&self) -> Seq<(usize, Cluster)> {
        entries_of(self.order@, self.map@)
    }

    /// The cached cluster numbers, least recently used first.
    pub open spec fn keys(&self) -> Seq<usize> {
        key_seq(self.entries())
    }

    /// The map holds exactly the clusters whose numbers the recency order holds.
    pub closed spec fn map_matches_order(&self) -> bool {
        self.map@.dom() == self.order@.to_set()
    }

    /// The capacity is at least one, each cluster number occurs once, the
    /// cache holds no more entries than its capacity, and its map and its
    /// recency order hold the same cluster numbers.
    pub open spec fn wf(&self) -> bool {
        &&& self.spec_capacity() >= 1
        &&& self.keys().no_duplicates()
        &&& self.entries().len() <= self.spec_capacity()
        &&& self.map_matches_order()
    }

    /// An empty cache; a capacity of zero is raised to one.
    pub fn new(capacity: usize) -> (res: Self)
        ensures
            res.wf(),
            res.spec_capacity() == if capacity == 0 { 1 } else { capacity as nat },
            res.entries() == Seq::<(usize, Cluster)>::empty(),
    {
        let res = ClusterCache {
            capacity: if capacity == 0 { 1 } else { capacity },
            map: HashMap::new(),
            order: VecDeque::new(),
        };
        proof {
            lemma_keys_of_entries(res.order@, res.map@);
            assert(res.map@.dom() =~= res.order@.to_set());
            assert(res.entries() =~= Seq::<(usize, Cluster)>::empty());
        }
        res
    }

    /// Whether cluster `idx` is cached.
    pub fn contains(&self, idx: usize) -> (res: bool)
        requires
            self.wf(),
        ensures
            res == self.keys().contains(idx),
    {
        proof {
            lemma_keys_of_entries(self.order@, self.map@);
        }
        self.map.contains_key(&idx)
    }

    /// Number of cached clusters.
    pub fn len(&self) -> (n: usize)
        requires
            self.wf(),
        ensures
            n == self.entries().len(),
    {
        proof {
            lemma_keys_of_entries(self.order@, self.map@);
            lemma_map_len(self.order@, self.map@);
        }
        self.map.len()
    }

    /// The cached cluster `idx`, which becomes the most recently used one.
    pub fn get(&mut self, idx: usize) -> (res: Option<&Cluster>)
        requires
            old(self).wf(),
        ensures
            final(self).wf(),
            final(self).spec_capacity() == old(self).spec_capacity(),
            final(self).entries() == spec_touched(old(self).entries(), idx),
            match res {
                Some(c) => spec_lookup(old(self).entries(), idx) == Some(*c),
                None => spec_lookup(old(self).entries(), idx) is None,
            },
    {
        let ghost o = self.order@;
        let ghost m = self.map@;
        proof {
            lemma_keys_of_entries(o, m);
        }
        if self.map.contains_key(&idx) {
            let p = self.touch(idx);
            proof {
                lemma_index_of_unique(o, p as int, idx);
                lemma_touch_entries(o, m, p as int);
                lemma_remove_push_no_duplicates(o, p as int);
                lemma_remove_push_same_set(o, p as int);
                lemma_keys_of_entries(self.order@, self.map@);
            }
            self.map.get(&idx)
        } else {
            None
        }
    }

    /// Moves cluster number `idx` to the most recently used end of the
    /// recency order, and gives the position it had.
    fn touch(&mut self, idx: usize) -> (p: usize)
        requires
            old(self).order@.no_duplicates(),
            old(self).order@.contains(idx),
        ensures
            p < old(self).order@.len(),
            old(self).order@[p as int] == idx,
            final(self).order@ == old(self).order@.remove(p as int).push(idx),
            final(self).map@ == old(self).map@,
            final(self).capacity == old(self).capacity,
    {
        let ghost o = self.order@;
        let mut i: usize = 0;
        while i < self.order.len()
            invariant
                self.order@ == o,
                o == old(self).order@,
                self.map@ == old(self).map@,
                self.capacity == old(self).capacity,
                o.contains(idx),
                i <= o.len(),
                forall|j: int| 0 <= j < i ==> o[j] != idx,
            decreases o.len() - i,
        {
            if self.order[i] == idx {
                self.order.remove(i);
                self.order.push_back(idx);
                return i;
            }
            i = i + 1;
        }
        proof {
            let q = choose|q: int| 0 <= q < o.len() && o[q] == idx;
            assert(o[q] == idx);
        }
        i
    }

    /// Stores `cluster` under `idx`; it becomes the most recently used entry,
    /// and when the cache is over capacity the least recently used entry is dropped.
    pub fn put(&mut self, idx: usize, cluster: Cluster)
        requires
            old(self).wf(),
        ensures
            final(self).wf(),
            final(self).spec_capacity() == old(self).spec_capacity(),
            final(self).entries() == spec_put(old(self).entries(), old(self).spec_capacity(), idx, cluster),
    {
        let ghost o = self.order@;
        let ghost m = self.map@;
        let ghost e = entries_of(o, m);
        let ghost cap = self.capacity as nat;
        proof {
            lemma_keys_of_entries(o, m);
            lemma_map_len(o, m);
        }
        let ghost c = cluster;
        let previous = self.map.insert(idx, cluster);
        if previous.is_some() {
            assert(m.contains_key(idx));
            assert(self.map@ == m.insert(idx, c));
            let p = self.touch(idx);
            proof {
                assert(m.insert(idx, c).dom() =~= m.dom());
                lemma_index_of_unique(o, p as int, idx);
                lemma_replace_entries(o, m, p as int, c);
                lemma_remove_push_no_duplicates(o, p as int);
                lemma_remove_push_same_set(o, p as int);
                assert(self.map@.dom() =~= self.order@.to_set());
            }
        } else {
            self.order.push_back(idx);
            proof {
                lemma_add_entry(o, m, idx, c);
                lemma_push_no_duplicates(o, idx);
                lemma_push_set(o, idx);
                assert(self.map@.dom() =~= self.order@.to_set());
            }
        }
        let ghost e1 = self.entries();
        proof {
            lemma_keys_of_entries(self.order@, self.map@);
            lemma_map_len(self.order@, self.map@);
            assert(e1 == if key_seq(e).contains(idx) {
                e.remove(key_seq(e).index_of(idx)).push((idx, c))
            } else {
                e.push((idx, c))
            });
        }
        while self.map.len() > self.capacity
            invariant
                self.capacity == cap,
                cap >= 1,
                e1.len() <= cap + 1,
                self.order@.no_duplicates(),
                self.map@.dom() == self.order@.to_set(),
                self.map@.len() == self.order@.len(),
                self.entries() == e1 || (e1.len() > cap && self.entries() == e1.drop_first()),
            decreases self.order@.len(),
        {
            let ghost o2 = self.order@;
            let ghost m2 = self.map@;
            if let Some(first) = self.order.pop_front() {
                self.map.remove(&first);
                proof {
                    lemma_drop_first_entries(o2, m2);
                    lemma_drop_first_no_duplicates(o2);
                    assert(self.order@ =~= o2.drop_first());
                    lemma_drop_first_set(o2);
                    lemma_map_len(self.order@, self.map@);
                }
            }
        }
        proof {
            lemma_keys_of_entries(self.order@, self.map@);
        }
    }
}

/// The cached cluster numbers, least recently used first, after cluster
/// `idx` is used in a cache of capacity `cap`: a cached number moves to the
/// most recently used end; another one is added there, and the least
/// recently used number is dropped when the cache would exceed its capacity.
pub open spec fn spec_use_keys(k: Seq<usize>, cap: nat, idx: usize) -> Seq<usize> {
    if k.contains(idx) {
        k.remove(k.index_of(idx)).push(idx)
    } else if k.len() + 1 > cap {
        k.push(idx).drop_first()
    } else {
        k.push(idx)
    }
}

/// Law: using a cluster never makes the cache exceed its capacity, and the
/// used cluster is then the most recently used one.
pub proof fn lemma_use_keys_bounded(k: Seq<usize>, cap: nat, idx: usize)
    requires
        cap >= 1,
        k.len() <= cap,
    ensures
        spec_use_keys(k, cap, idx).len() <= cap,
        spec_use_keys(k, cap, idx).len() > 0,
        spec_use_keys(k, cap, idx).last() == idx,
{
}

/// The cached cluster numbers after clusters `ks` are used one after the
/// other, starting from an empty cache of capacity `cap`.
pub open spec fn keys_after_uses(cap: nat, ks: Seq<usize>) -> Seq<usize>
    decreases ks.len(),
{
    if ks.len() == 0 {
        Seq::empty()
    } else {
        spec_use_keys(keys_after_uses(cap, ks.drop_last()), cap, ks.last())
    }
}

/// Law: using `k` distinct clusters, starting from an empty cache, leaves
/// `min(k, cap)` of them cached, all of them among those used.
pub proof fn lemma_distinct_uses(cap: nat, ks: Seq<usize>)
    requires
        cap >= 1,
        ks.no_duplicates(),
    ensures
        keys_after_uses(cap, ks).len() == if ks.len() < cap { ks.len() } else { cap },
        forall|x: usize| keys_after_uses(cap, ks).contains(x) ==> ks.contains(x),
    decreases ks.len(),
{
    if ks.len() > 0 {
        let init = ks.drop_last();
        assert(init.no_duplicates()) by {
            assert forall|i: int, j: int| 0 <= i < init.len() && 0 <= j < init.len() && i != j implies init[i] != init[j] by {
                assert(init[i] == ks[i] && init[j] == ks[j]);
            }
        }
        lemma_distinct_uses(cap, init);
        let r = keys_after_uses(cap, init);
        let x = ks.last();
        assert(!r.contains(x)) by {
            if r.contains(x) {
                assert(init.contains(x));
                let j = choose|j: int| 0 <= j < init.len() && init[j] == x;
                assert(ks[j] == ks[ks.len() - 1]);
            }
        }
        let r1 = r.push(x);
        let res = keys_after_uses(cap, ks);
        assert(res == if r1.len() > cap { r1.drop_first() } else { r1 });
        assert forall|y: usize| res.contains(y) implies ks.contains(y) by {
            let j = choose|j: int| 0 <= j < res.len() && res[j] == y;
            let jj = if r1.len() > cap { j + 1 } else { j };
            assert(r1[jj] == y);
            if jj == r.len() {
                assert(y == x);
                assert(ks[ks.len() - 1] == y);
            } else {
                assert(r[jj] == y);
                assert(r.contains(y));
                assert(init.contains(y));
                let m = choose|m: int| 0 <= m < init.len() && init[m] == y;
                assert(ks[m] == y);
            }
        }
    }
}

/// Using a cached cluster moves its number to the most recently used end.
pub proof fn lemma_touched_keys(e: Seq<(usize, Cluster)>, cap: nat, idx: usize)
    requires
        key_seq(e).contains(idx),
    ensures
        key_seq(spec_touched(e, idx)) == spec_use_keys(key_seq(e), cap, idx),
{
    let k = key_seq(e);
    let p = k.index_of(idx);
    lemma_key_seq_len(e);
    lemma_key_seq_remove(e, p);
    lemma_key_seq_push(e.remove(p), e[p]);
}

/// Storing a cluster that is not cached adds its number at the most recently
/// used end, dropping the least recently used one when over capacity.
pub proof fn lemma_put_fresh_keys(e: Seq<(usize, Cluster)>, cap: nat, idx: usize, c: Cluster)
    requires
        !key_seq(e).contains(idx),
    ensures
        key_seq(spec_put(e, cap, idx, c)) == spec_use_keys(key_seq(e), cap, idx),
{
    lemma_key_seq_len(e);
    lemma_key_seq_push(e, (idx, c));
    if e.len() + 1 > cap {
        lemma_key_seq_drop_first(e.push((idx, c)));
    }
}

/// Using the most recently used entry leaves the entries as they are.
pub proof fn lemma_touch_last(e: Seq<(usize, Cluster)>, idx: usize)
    requires
        key_seq(e).no_duplicates(),
        e.len() > 0,
        e.last().0 == idx,
    ensures
        spec_touched(e, idx) == e,
{
    lemma_key_seq_len(e);
    lemma_index_of_unique(key_seq(e), e.len() - 1, idx);
    assert(e.remove(e.len() - 1).push(e[e.len() - 1]) =~= e);
}

/// The entry at position `p` is what a lookup of its key finds.
pub proof fn lemma_lookup_at(e: Seq<(usize, Cluster)>, p: int)
    requires
        key_seq(e).no_duplicates(),
        0 <= p < e.len(),
    ensures
        spec_lookup(e, e[p].0) == Some(e[p].1),
{
    lemma_key_seq_len(e);
    lemma_index_of_unique(key_seq(e), p, e[p].0);
}

/// Storing into a well-formed cache gives a well-formed cache of the same capacity.
pub proof fn lemma_put_wf(e: Seq<(usize, Cluster)>, cap: nat, idx: usize, c: Cluster)
    requires
        cap >= 1,
        key_seq(e).no_duplicates(),
        e.len() <= cap,
    ensures
        key_seq(spec_put(e, cap, idx, c)).no_duplicates(),
        spec_put(e, cap, idx, c).len() <= cap,
        spec_put(e, cap, idx, c).len() > 0,
        spec_put(e, cap, idx, c).last() == (idx, c),
{
    let k = key_seq(e);
    lemma_key_seq_len(e);
    let e1 = if k.contains(idx) {
        e.remove(k.index_of(idx)).push((idx, c))
    } else {
        e.push((idx, c))
    };
    if k.contains(idx) {
        let p = k.index_of(idx);
        lemma_key_seq_remove(e, p);
        lemma_key_seq_push(e.remove(p), (idx, c));
        lemma_remove_push_no_duplicates(k, p);
        assert(k[p] == idx);
    } else {
        lemma_key_seq_push(e, (idx, c));
        lemma_push_no_duplicates(k, idx);
    }
    assert(key_seq(e1).no_duplicates());
    if e1.len() > cap {
        lemma_key_seq_drop_first(e1);
        lemma_drop_first_no_duplicates(key_seq(e1));
    }
}

/// Law: after a cluster is stored, looking up its number gives that cluster back.
pub proof fn lemma_put_then_lookup(e: Seq<(usize, Cluster)>, cap: nat, idx: usize, c: Cluster)
    requires
        cap >= 1,
        key_seq(e).no_duplicates(),
        e.len() <= cap,
    ensures
        spec_lookup(spec_put(e, cap, idx, c), idx) == Some(c),
{
    lemma_put_wf(e, cap, idx, c);
    let r = spec_put(e, cap, idx, c);
    lemma_lookup_at(r, r.len() - 1);
}

/// Every entry after a store is either the new entry or an entry that was
/// cached before, at some position.
pub proof fn lemma_put_entries_from(e: Seq<(usize, Cluster)>, cap: nat, idx: usize, c: Cluster, q: int) -> (q0: int)
    requires
        cap >= 1,
        key_seq(e).no_duplicates(),
        e.len() <= cap,
        0 <= q < spec_put(e, cap, idx, c).len(),
        spec_put(e, cap, idx, c)[q].0 != idx,
    ensures
        0 <= q0 < e.len(),
        e[q0] == spec_put(e, cap, idx, c)[q],
{
    let k = key_seq(e);
    lemma_key_seq_len(e);
    let e1 = if k.contains(idx) {
        e.remove(k.index_of(idx)).push((idx, c))
    } else {
        e.push((idx, c))
    };
    let q1 = if e1.len() > cap { q + 1 } else { q };
    assert(spec_put(e, cap, idx, c)[q] == e1[q1]);
    if k.contains(idx) {
        let p = k.index_of(idx);
        if q1 < p { q1 } else { q1 + 1 }
    } else {
        q1
    }
}

/// Law: storing a cluster leaves what a lookup of any other cluster number
/// finds unchanged, unless that entry was evicted.
pub proof fn lemma_put_keeps_others(e: Seq<(usize, Cluster)>, cap: nat, idx: usize, c: Cluster, k: usize)
    requires
        cap >= 1,
        key_seq(e).no_duplicates(),
        e.len() <= cap,
        k != idx,
        spec_lookup(spec_put(e, cap, idx, c), k) is Some,
    ensures
        spec_lookup(spec_put(e, cap, idx, c), k) == spec_lookup(e, k),
{
    lemma_put_wf(e, cap, idx, c);
    let r = spec_put(e, cap, idx, c);
    lemma_key_seq_len(r);
    let q = key_seq(r).index_of(k);
    assert(r[q].0 == k);
    let q0 = lemma_put_entries_from(e, cap, idx, c, q);
    lemma_lookup_at(e, q0);
}

/// Law: storing a new cluster number in a full cache evicts exactly the least
/// recently used entry, and the new number becomes the most recently used.
pub proof fn lemma_put_evicts_lru(e: Seq<(usize, Cluster)>, cap: nat, idx: usize, c: Cluster)
    requires
        cap >= 1,
        key_seq(e).no_duplicates(),
        e.len() == cap,
        !key_seq(e).contains(idx),
    ensures
        key_seq(spec_put(e, cap, idx, c)) == key_seq(e).drop_first().push(idx),
{
    lemma_key_seq_push(e, (idx, c));
    lemma_key_seq_drop_first(e.push((idx, c)));
    assert(key_seq(e).push(idx).drop_first() =~= key_seq(e).drop_first().push(idx));
}

/// Law: using a cached cluster changes no lookup, and makes it the most
/// recently used entry.
pub proof fn lemma_touch_keeps_lookups(e: Seq<(usize, Cluster)>, idx: usize, k: usize)
    requires
        key_seq(e).no_duplicates(),
    ensures
        spec_lookup(spec_touched(e, idx), k) == spec_lookup(e, k),
        key_seq(e).contains(idx) ==> key_seq(spec_touched(e, idx)).last() == idx,
        key_seq(spec_touched(e, idx)).to_set() == key_seq(e).to_set(),
{
    let ks = key_seq(e);
    lemma_key_seq_len(e);
    if ks.contains(idx) {
        let p = ks.index_of(idx);
        let r = spec_touched(e, idx);
        lemma_key_seq_remove(e, p);
        lemma_key_seq_push(e.remove(p), e[p]);
        lemma_remove_push_no_duplicates(ks, p);
        lemma_key_seq_len(r);
        assert(key_seq(r) == ks.remove(p).push(ks[p]));
        // the same keys, and each entry of r is an entry of e
        assert forall|x: usize| key_seq(r).contains(x) <==> ks.contains(x) by {
            if ks.contains(x) {
                let i = ks.index_of(x);
                if i < p {
                    assert(key_seq(r)[i] == x);
                } else if i == p {
                    assert(key_seq(r)[r.len() - 1] == x);
                } else {
                    assert(key_seq(r)[i - 1] == x);
                }
            }
            if key_seq(r).contains(x) {
                let i = key_seq(r).index_of(x);
                if i < p {
                    assert(ks[i] == x);
                } else if i == r.len() - 1 {
                    assert(ks[p] == x);
                } else {
                    assert(ks[i + 1] == x);
                }
            }
        }
        assert(key_seq(r).to_set() =~= ks.to_set());
        if ks.contains(k) {
            let i = ks.index_of(k);
            lemma_lookup_at(e, i);
            let j = if i < p { i } else if i == p { r.len() - 1 } else { i - 1 };
            assert(r[j] == e[i]);
            lemma_lookup_at(r, j);
        } else {
            assert(!key_seq(r).contains(k));
        }
    }
}

/// Every entry after a use is an entry that was cached before.
pub proof fn lemma_touched_entries_from(e: Seq<(usize, Cluster)>, idx: usize, q: int) -> (q0: int)
    requires
        0 <= q < spec_touched(e, idx).len(),
    ensures
        0 <= q0 < e.len(),
        e[q0] == spec_touched(e, idx)[q],
{
    lemma_key_seq_len(e);
    if key_seq(e).contains(idx) {
        let p = key_seq(e).index_of(idx);
        if q == e.len() - 1 {
            p
        } else if q < p {
            q
        } else {
            q + 1
        }
    } else {
        q
    }
}

/// Two entries with the same key in entries without duplicate keys are the same entry.
pub proof fn lemma_key_seq_unique_entry(e: Seq<(usize, Cluster)>, i: int, j: int)
    requires
        key_seq(e).no_duplicates(),
        0 <= i < e.len(),
        0 <= j < e.len(),
        e[i].0 == e[j].0,
    ensures
        i == j,
{
    lemma_key_seq_len(e);
    if i != j {
        assert(key_seq(e)[i] == key_seq(e)[j]);
    }
}

/// In a sequence without duplicates, `index_of` finds the one position of an element.
pub proof fn lemma_index_of_unique(k: Seq<usize>, p: int, idx: usize)
    requires
        k.no_duplicates(),
        0 <= p < k.len(),
        k[p] == idx,
    ensures
        k.contains(idx),
        k.index_of(idx) == p,
{
    assert(k.contains(idx));
    let q = k.index_of(idx);
    assert(0 <= q < k.len() && k[q] == idx);
}

pub proof fn lemma_key_seq_len(e: Seq<(usize, Cluster)>)
    ensures
        key_seq(e).len() == e.len(),
        forall|i: int| 0 <= i < e.len() ==> #[trigger] key_seq(e)[i] == e[i].0,
{
}

proof fn lemma_key_seq_push(e: Seq<(usize, Cluster)>, x: (usize, Cluster))
    ensures
        key_seq(e.push(x)) == key_seq(e).push(x.0),
{
    assert(key_seq(e.push(x)) =~= key_seq(e).push(x.0));
}

proof fn lemma_key_seq_remove(e: Seq<(usize, Cluster)>, p: int)
    requires
        0 <= p < e.len(),
    ensures
        key_seq(e.remove(p)) == key_seq(e).remove(p),
{
    assert(key_seq(e.remove(p)) =~= key_seq(e).remove(p));
}

proof fn lemma_key_seq_drop_first(e: Seq<(usize, Cluster)>)
    requires
        e.len() > 0,
    ensures
        key_seq(e.drop_first()) == key_seq(e).drop_first(),
{
    assert(key_seq(e.drop_first()) =~= key_seq(e).drop_first());
}

proof fn lemma_push_no_duplicates(k: Seq<usize>, x: usize)
    requires
        k.no_duplicates(),
        !k.contains(x),
    ensures
        k.push(x).no_duplicates(),
{
    assert forall|i: int, j: int| 0 <= i < k.push(x).len() && 0 <= j < k.push(x).len() && i != j
        implies k.push(x)[i] != k.push(x)[j] by {
        if i < k.len() && j < k.len() {
        } else if i < k.len() {
            assert(k.contains(k[i]));
        } else {
            assert(k.contains(k[j]));
        }
    }
}

proof fn lemma_remove_push_no_duplicates(k: Seq<usize>, p: int)
    requires
        k.no_duplicates(),
        0 <= p < k.len(),
    ensures
        k.remove(p).push(k[p]).no_duplicates(),
        !k.remove(p).contains(k[p]),
{
    let r = k.remove(p);
    assert(r.no_duplicates()) by {
        assert forall|i: int, j: int| 0 <= i < r.len() && 0 <= j < r.len() && i != j implies r[i] != r[j] by {
            let ii = if i < p { i } else { i + 1 };
            let jj = if j < p { j } else { j + 1 };
            assert(r[i] == k[ii] && r[j] == k[jj]);
        }
    }
    assert(!r.contains(k[p])) by {
        if r.contains(k[p]) {
            let i = choose|i: int| 0 <= i < r.len() && r[i] == k[p];
            let ii = if i < p { i } else { i + 1 };
            assert(r[i] == k[ii]);
        }
    }
    lemma_push_no_duplicates(r, k[p]);
}

proof fn lemma_drop_first_no_duplicates(k: Seq<usize>)
    requires
        k.no_duplicates(),
        k.len() > 0,
    ensures
        k.drop_first().no_duplicates(),
{
    let r = k.drop_first();
    assert forall|i: int, j: int| 0 <= i < r.len() && 0 <= j < r.len() && i != j implies r[i] != r[j] by {
        assert(r[i] == k[i + 1] && r[j] == k[j + 1]);
    }
}

proof fn lemma_keys_of_entries(o: Seq<usize>, m: Map<usize, Cluster>)
    ensures
        entries_of(o, m).len() == o.len(),
        key_seq(entries_of(o, m)) == o,
        forall|i: int| 0 <= i < o.len() ==> #[trigger] entries_of(o, m)[i] == (o[i], m[o[i]]),
{
    assert(key_seq(entries_of(o, m)) =~= o);
}

proof fn lemma_map_len(o: Seq<usize>, m: Map<usize, Cluster>)
    requires
        o.no_duplicates(),
        m.dom() == o.to_set(),
    ensures
        m.len() == o.len(),
{
    o.unique_seq_to_set();
}

proof fn lemma_remove_push_same_set(o: Seq<usize>, p: int)
    requires
        0 <= p < o.len(),
    ensures
        o.remove(p).push(o[p]).to_set() == o.to_set(),
{
    let r = o.remove(p).push(o[p]);
    assert forall|x: usize| o.contains(x) implies r.contains(x) by {
        let i = choose|i: int| 0 <= i < o.len() && o[i] == x;
        if i < p {
            assert(r[i] == x);
        } else if i == p {
            assert(r[r.len() - 1] == x);
        } else {
            assert(r[i - 1] == x);
        }
    }
    assert forall|x: usize| r.contains(x) implies o.contains(x) by {
        let i = choose|i: int| 0 <= i < r.len() && r[i] == x;
        if i == r.len() - 1 {
            assert(o[p] == x);
        } else if i < p {
            assert(o[i] == x);
        } else {
            assert(o[i + 1] == x);
        }
    }
    assert(r.to_set() =~= o.to_set());
}

proof fn lemma_touch_entries(o: Seq<usize>, m: Map<usize, Cluster>, p: int)
    requires
        0 <= p < o.len(),
    ensures
        entries_of(o.remove(p).push(o[p]), m) == entries_of(o, m).remove(p).push(entries_of(o, m)[p]),
{
    lemma_keys_of_entries(o, m);
    lemma_keys_of_entries(o.remove(p).push(o[p]), m);
    assert(entries_of(o.remove(p).push(o[p]), m) =~= entries_of(o, m).remove(p).push(entries_of(o, m)[p]));
}

proof fn lemma_replace_entries(o: Seq<usize>, m: Map<usize, Cluster>, p: int, c: Cluster)
    requires
        o.no_duplicates(),
        0 <= p < o.len(),
    ensures
        entries_of(o.remove(p).push(o[p]), m.insert(o[p], c)) == entries_of(o, m).remove(p).push((o[p], c)),
{
    let r = o.remove(p).push(o[p]);
    let m1 = m.insert(o[p], c);
    lemma_keys_of_entries(o, m);
    lemma_keys_of_entries(r, m1);
    assert forall|i: int| 0 <= i < r.len() - 1 implies #[trigger] m1[r[i]] == m[r[i]] by {
        let ii = if i < p { i } else { i + 1 };
        assert(r[i] == o[ii]);
        assert(ii != p);
    }
    assert(entries_of(r, m1) =~= entries_of(o, m).remove(p).push((o[p], c)));
}

proof fn lemma_add_entry(o: Seq<usize>, m: Map<usize, Cluster>, idx: usize, c: Cluster)
    requires
        !o.contains(idx),
    ensures
        entries_of(o.push(idx), m.insert(idx, c)) == entries_of(o, m).push((idx, c)),
{
    let m1 = m.insert(idx, c);
    lemma_keys_of_entries(o, m);
    lemma_keys_of_entries(o.push(idx), m1);
    assert forall|i: int| 0 <= i < o.len() implies #[trigger] m1[o[i]] == m[o[i]] by {
        assert(o[i] != idx);
    }
    assert(entries_of(o.push(idx), m1) =~= entries_of(o, m).push((idx, c)));
}

proof fn lemma_drop_first_entries(o: Seq<usize>, m: Map<usize, Cluster>)
    requires
        o.no_duplicates(),
        o.len() > 0,
    ensures
        entries_of(o.drop_first(), m.remove(o[0])) == entries_of(o, m).drop_first(),
{
    let m1 = m.remove(o[0]);
    lemma_keys_of_entries(o, m);
    lemma_keys_of_entries(o.drop_first(), m1);
    assert forall|i: int| 0 <= i < o.len() - 1 implies #[trigger] m1[o[i + 1]] == m[o[i + 1]] by {
        assert(o[i + 1] != o[0]);
    }
    assert(entries_of(o.drop_first(), m1) =~= entries_of(o, m).drop_first());
}

proof fn lemma_drop_first_set(o: Seq<usize>)
    requires
        o.no_duplicates(),
        o.len() > 0,
    ensures
        o.drop_first().to_set() == o.to_set().remove(o[0]),
{
    let r = o.drop_first();
    assert forall|x: usize| r.contains(x) implies o.contains(x) && x != o[0] by {
        let i = choose|i: int| 0 <= i < r.len() && r[i] == x;
        assert(o[i + 1] == x);
    }
    assert forall|x: usize| o.contains(x) && x != o[0] implies r.contains(x) by {
        let i = choose|i: int| 0 <= i < o.len() && o[i] == x;
        assert(r[i - 1] == x);
    }
    assert(r.to_set() =~= o.to_set().remove(o[0]));
}

proof fn lemma_push_set(o: Seq<usize>, x: usize)
    ensures
        o.push(x).to_set() == o.to_set().insert(x),
{
    let r = o.push(x);
    assert forall|y: usize| o.contains(y) implies r.contains(y) by {
        let i = choose|i: int| 0 <= i < o.len() && o[i] == y;
        assert(r[i] == y);
    }
    assert(r[o.len() as int] == x);
    assert forall|y: usize| r.contains(y) implies o.contains(y) || y == x by {
        let i = choose|i: int| 0 <= i < r.len() && r[i] == y;
        if i < o.len() {
            assert(o[i] == y);
        }
    }
    assert(r.to_set() =~= o.to_set().insert(x));
}

} // verus!
