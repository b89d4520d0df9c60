//! A keyed store whose memory is bounded by the aggregate weight of its
//! entries, with an optional absolute expiry per entry.
//!
//! Entries are kept in insertion order; when a new entry would push the total
//! weight over capacity, the oldest entries are evicted first.

use vstd::prelude::*;

verus! {

/// A key that can be compared and copied with a stated meaning.
pub trait CacheKey: View + Sized {
    fn same_key(&self, other: &Self) -> (r: bool)
        ensures
            r == (self@ == other@);

    fn copy_key(&self) -> (r: Self)
        ensures
            r@ == self@;
}

impl CacheKey for String {
    fn same_key(&self, other: &Self) -> (r: bool) {
        *self == *other
    }

    fn copy_key(&self) -> (r: Self) {
        self.clone()
    }
}

/// One stored value with its weight and optional absolute expiry instant.
pub struct CacheEntry<K, V> {
    pub key: K,
    pub value: V,
    pub weight: u64,
    pub expires: Option<u64>,
}

/// Whether an entry is still valid at instant `now`.
pub open spec fn is_live<K, V>(e: CacheEntry<K, V>, now: u64) -> bool {
    match e.expires {
        None => true,
        Some(t) => now < t,
    }
}

/// The aggregate weight of a sequence of entries.
pub open spec fn sum_weights<K, V>(s: Seq<CacheEntry<K, V>>) -> int
    decreases s.len(),
{
    if s.len() == 0 {
        0
    } else {
        sum_weights(s.drop_last()) + s.last().weight
    }
}

/// The sequence with every entry whose key is `k` left out.
pub open spec fn without_key<K: View, V>(s: Seq<CacheEntry<K, V>>, k: K::V) -> Seq<CacheEntry<K, V>> {
    s.filter(|e: CacheEntry<K, V>| e.key@ != k)
}

/// The entries that remain after the oldest `n` of `rest` are evicted and a
/// new entry of weight `w` is admitted under capacity `cap`: `n` is the fewest
/// evictions that make room.
pub open spec fn evicts_fewest<K, V>(rest: Seq<CacheEntry<K, V>>, n: int, w: int, cap: int) -> bool {
    &&& 0 <= n <= rest.len()
    &&& sum_weights(rest.subrange(n, rest.len() as int)) + w <= cap
    &&& n > 0 ==> sum_weights(rest.subrange(n - 1, rest.len() as int)) + w > cap
}

pub proof fn lemma_sum_nonneg<K, V>(s: Seq<CacheEntry<K, V>>)
    ensures
        sum_weights(s) >= 0,
    decreases s.len(),
{
    if s.len() > 0 {
        lemma_sum_nonneg(s.drop_last());
    }
}

pub proof fn lemma_sum_remove<K, V>(s: Seq<CacheEntry<K, V>>, i: int)
    requires
        0 <= i < s.len(),
    ensures
        sum_weights(s.remove(i)) == sum_weights(s) - s[i].weight,
    decreases s.len(),
{
    if i == s.len() - 1 {
        assert(s.remove(i) =~= s.drop_last());
    } else {
        lemma_sum_remove(s.drop_last(), i);
        assert(s.remove(i).drop_last() =~= s.drop_last().remove(i));
        assert(s.remove(i).last() == s.last());
    }
}

pub proof fn lemma_sum_push<K, V>(s: Seq<CacheEntry<K, V>>, e: CacheEntry<K, V>)
    ensures
        sum_weights(s.push(e)) == sum_weights(s) + e.weight,
{
    assert(s.push(e).drop_last() =~= s);
}

/// A weight-bounded cache.
pub struct WeightedCache<K, V> {
    entries: Vec<CacheEntry<K, V>>,
    capacity: u64,
    total: u64,
}

impl<K: CacheKey, V> WeightedCache<K, V> {
    /// The stored entries, oldest first.
    pub closed spec fn entries(&self) -> Seq<CacheEntry<K, V>> {
        self.entries@
    }

    pub closed spec fn spec_capacity(&self) -> u64 {
        self.capacity
    }

    /// The weight accounted to the stored entries.
    pub closed spec fn spec_total(&self) -> u64 {
        self.total
    }

    /// Aggregate weight is tracked exactly, never exceeds capacity, and each
    /// key is stored at most once.
    pub closed spec fn wf(&self) -> bool {
        &&& self.total as int == sum_weights(self.entries@)
        &&& self.total <= self.capacity
        &&& forall|i: int, j: int|
            0 <= i < j < self.entries@.len() ==> self.entries@[i].key@ != self.entries@[j].key@
    }

    pub fn new(capacity: u64) -> (r: Self)
        ensures
            r.wf(),
            r.entries().len() == 0,
            r.spec_capacity() == capacity,
            r.spec_total() == 0,
    {
        WeightedCache { entries: Vec::new(), capacity, total: 0 }
    }

    pub fn capacity(&self) -> (r: u64)
        ensures
            r == self.spec_capacity(),
    {
        self.capacity
    }

    pub fn total_weight(&self) -> (r: u64)
        requires
            self.wf(),
        ensures
            r == self.spec_total(),
            r as int == sum_weights(self.entries()),
            r <= self.spec_capacity(),
    {
        self.total
    }

    pub fn len(&self) -> (r: usize)
        ensures
            r == self.entries().len(),
    {
        self.entries.len()
    }

    fn find(&self, key: &K) -> (r: Option<usize>)
        requires
            self.wf(),
        ensures
            match r {
                Some(i) => i < self.entries@.len() && self.entries@[i as int].key@ == key@,
                None => forall|i: int| 0 <= i < self.entries@.len() ==> self.entries@[i].key@ != key@,
            },
    {
        let mut i: usize = 0;
        while i < self.entries.len()
            invariant
                0 <= i <= self.entries@.len(),
                forall|j: int| 0 <= j < i ==> self.entries@[j].key@ != key@,
            decreases self.entries@.len() - i,
        {
            if self.entries[i].key.same_key(key) {
                return Some(i);
            }
            i = i + 1;
        }
        None
    }

    /// The value stored under `key`, unless absent or expired at `now`. Never
    /// changes the cache.
    pub fn get(&self, key: &K, now: u64) -> (r: Option<&V>)
        requires
            self.wf(),
        ensures
            r.is_some() <==> exists|i: int|
                0 <= i < self.entries().len() && self.entries()[i].key@ == key@ && is_live(
                    self.entries()[i],
                    now,
                ),
            r matches Some(v) ==> exists|i: int|
                0 <= i < self.entries().len() && self.entries()[i].key@ == key@ && is_live(
                    self.entries()[i],
                    now,
                ) && v == &self.entries()[i].value,
    {
        match self.find(key) {
            Some(i) => {
                let e = &self.entries[i];
                let live = match e.expires {
                    None => true,
                    Some(t) => now < t,
                };
                if live {
                    Some(&e.value)
                } else {
                    None
                }
            },
            None => None,
        }
    }

    /// Removes the entry stored under `key`, if any.
    pub fn remove(&mut self, key: &K)
        requires
            old(self).wf(),
        ensures
            final(self).wf(),
            final(self).spec_capacity() == old(self).spec_capacity(),
            final(self).entries() =~= without_key(old(self).entries(), key@),
    {
        match self.find(key) {
            Some(i) => {
                proof {
                    let s = self.entries@;
                    lemma_sum_remove(s, i as int);
                    lemma_sum_nonneg(s.remove(i as int));
                    assert(without_key(s, key@) =~= s.remove(i as int)) by {
                        lemma_filter_remove_unique(s, key@, i as int);
                    }
                }
                let e = self.entries.remove(i);
                self.total = self.total - e.weight;
            },
            None => {
                proof {
                    lemma_filter_none(self.entries@, key@);
                }
            },
        }
    }

    /// Inserts an entry that never expires.
    pub fn insert(&mut self, key: K, value: V, weight: u64)
        requires
            old(self).wf(),
        ensures
            final(self).wf(),
            final(self).spec_capacity() == old(self).spec_capacity(),
            inserted(old(self).entries(), final(self).entries(), key@, weight, None, old(self).spec_capacity()),
            weight <= old(self).spec_capacity() ==> final(self).entries().last().value == value,
    {
        self.insert_with_expiry(key, value, weight, None)
    }

    /// Inserts an entry valid until `expires` (if given). Any entry already
    /// stored under the key is replaced; the oldest entries are evicted, fewest
    /// first, until the new weight fits. An entry heavier than the whole
    /// capacity is not admitted.
    pub fn insert_with_expiry(&mut self, key: K, value: V, weight: u64, expires: Option<u64>)
        requires
            old(self).wf(),
        ensures
            final(self).wf(),
            final(self).spec_capacity() == old(self).spec_capacity(),
            inserted(old(self).entries(), final(self).entries(), key@, weight, expires, old(self).spec_capacity()),
            weight <= old(self).spec_capacity() ==> final(self).entries().last().value == value,
    {
        let ghost old_entries = self.entries@;
        self.remove(&key);
        let ghost rest = self.entries@;
        if weight > self.capacity {
            return;
        }
        let ghost mut n: int = 0;
        while self.total > self.capacity - weight
            invariant
                self.wf(),
                self.capacity == old(self).capacity,
                weight <= self.capacity,
                0 <= n <= rest.len(),
                self.entries@ =~= rest.subrange(n, rest.len() as int),
                n > 0 ==> sum_weights(rest.subrange(n - 1, rest.len() as int)) + weight > self.capacity,
            decreases self.entries@.len(),
        {
            proof {
                lemma_sum_nonneg(self.entries@);
                if self.entries@.len() == 0 {
                    assert(false);
                }
                lemma_sum_remove(self.entries@, 0);
                lemma_sum_nonneg(self.entries@.remove(0));
                assert(self.entries@.remove(0) =~= rest.subrange(n + 1, rest.len() as int));
            }
            let e = self.entries.remove(0);
            self.total = self.total - e.weight;
            proof {
                n = n + 1;
            }
        }
        proof {
            lemma_sum_push(self.entries@, CacheEntry { key, value, weight, expires });
            assert(evicts_fewest(rest, n, weight as int, self.capacity as int));
        }
        self.entries.push(CacheEntry { key, value, weight, expires });
        self.total = self.total + weight;
        proof {
            assert(self.entries@.drop_last() =~= rest.subrange(n, rest.len() as int));
        }
    }

    /// Drops every entry that has expired at `now`.
    pub fn purge_expired(&mut self, now: u64)
        requires
            old(self).wf(),
        ensures
            final(self).wf(),
            final(self).spec_capacity() == old(self).spec_capacity(),
            final(self).entries() =~= old(self).entries().filter(|e: CacheEntry<K, V>| is_live(e, now)),
    {
        let ghost s0 = self.entries@;
        let mut i: usize = 0;
        let ghost mut kept: Seq<CacheEntry<K, V>> = Seq::empty();
        while i < self.entries.len()
            invariant
                self.wf(),
                self.capacity == old(self).capacity,
                0 <= i <= self.entries@.len(),
                self.entries@.subrange(0, i as int) =~= s0.subrange(
                    0,
                    (s0.len() - (self.entries@.len() - i)) as int,
                ).filter(|e: CacheEntry<K, V>| is_live(e, now)),
                self.entries@.subrange(i as int, self.entries@.len() as int) =~= s0.subrange(
                    (s0.len() - (self.entries@.len() - i)) as int,
                    s0.len() as int,
                ),
                self.entries@.len() - i <= s0.len(),
            decreases self.entries@.len() - i,
        {
            let live = match self.entries[i].expires {
                None => true,
                Some(t) => now < t,
            };
            let ghost consumed = (s0.len() - (self.entries@.len() - i)) as int;
            let ghost s = self.entries@;
            proof {
                let e = s0[consumed];
                assert(s0.subrange(0, consumed + 1) =~= s0.subrange(0, consumed).push(e));
                assert(s[i as int] == e) by {
                    assert(s.subrange(i as int, s.len() as int)[0] == s[i as int]);
                    assert(s0.subrange(consumed, s0.len() as int)[0] == e);
                }
                assert(s0.subrange(consumed + 1, s0.len() as int) =~= s.subrange(
                    i + 1,
                    s.len() as int,
                )) by {
                    assert(s0.subrange(consumed + 1, s0.len() as int) =~= s0.subrange(
                        consumed,
                        s0.len() as int,
                    ).subrange(1, s0.len() - consumed));
                    assert(s.subrange(i + 1, s.len() as int) =~= s.subrange(
                        i as int,
                        s.len() as int,
                    ).subrange(1, s.len() - i));
                }
                lemma_filter_push(s0.subrange(0, consumed), e, now);
            }
            if live {
                proof {
                    assert(s.subrange(0, i + 1) =~= s.subrange(0, i as int).push(s[i as int]));
                }
                i = i + 1;
            } else {
                proof {
                    lemma_sum_remove(s, i as int);
                    lemma_sum_nonneg(s.remove(i as int));
                    assert(s.remove(i as int).subrange(0, i as int) =~= s.subrange(0, i as int));
                    assert(s.remove(i as int).subrange(i as int, s.len() - 1) =~= s.subrange(
                        i + 1,
                        s.len() as int,
                    ));
                }
                let e = self.entries.remove(i);
                self.total = self.total - e.weight;
            }
        }
        proof {
            assert(s0.subrange(0, s0.len() as int) =~= s0);
            assert(self.entries@.subrange(0, i as int) =~= self.entries@);
        }
    }
}

/// How a cache's entries change when `key` is inserted with `weight` and
/// `expires` under capacity `cap`.
pub open spec fn inserted<K: View, V>(
    before: Seq<CacheEntry<K, V>>,
    after: Seq<CacheEntry<K, V>>,
    key: K::V,
    weight: u64,
    expires: Option<u64>,
    cap: u64,
) -> bool {
    let rest = without_key(before, key);
    if weight > cap {
        after == rest
    } else {
        exists|n: int|
            #![trigger rest.subrange(n, rest.len() as int)]
            evicts_fewest(rest, n, weight as int, cap as int) && after.drop_last() == rest.subrange(
                n,
                rest.len() as int,
            ) && after.len() > 0 && after.last().key@ == key && after.last().weight == weight
                && after.last().expires == expires
    }
}

proof fn lemma_filter_none<K: View, V>(s: Seq<CacheEntry<K, V>>, k: K::V)
    requires
        forall|i: int| 0 <= i < s.len() ==> s[i].key@ != k,
    ensures
        without_key(s, k) =~= s,
    decreases s.len(),
{
    reveal(Seq::filter);
    if s.len() > 0 {
        lemma_filter_none(s.drop_last(), k);
    }
}

proof fn lemma_filter_remove_unique<K: View, V>(s: Seq<CacheEntry<K, V>>, k: K::V, i: int)
    requires
        0 <= i < s.len(),
        s[i].key@ == k,
        forall|a: int, b: int| 0 <= a < b < s.len() ==> s[a].key@ != s[b].key@,
    ensures
        without_key(s, k) =~= s.remove(i),
    decreases s.len(),
{
    reveal(Seq::filter);
    if i == s.len() - 1 {
        lemma_filter_none(s.drop_last(), k);
        assert(s.remove(i) =~= s.drop_last());
    } else {
        lemma_filter_remove_unique(s.drop_last(), k, i);
        assert(s.remove(i).drop_last() =~= s.drop_last().remove(i));
        assert(s.remove(i) =~= s.drop_last().remove(i).push(s.last()));
    }
}

proof fn lemma_filter_push<K, V>(s: Seq<CacheEntry<K, V>>, e: CacheEntry<K, V>, now: u64)
    ensures
        s.push(e).filter(|x: CacheEntry<K, V>| is_live(x, now)) =~= if is_live(e, now) {
            s.filter(|x: CacheEntry<K, V>| is_live(x, now)).push(e)
        } else {
            s.filter(|x: CacheEntry<K, V>| is_live(x, now))
        },
{
    reveal(Seq::filter);
    assert(s.push(e).drop_last() =~= s);
}

/// However many entries were inserted, a well-formed cache weighs no more
/// than its capacity.
pub proof fn lemma_total_within_capacity<K: CacheKey, V>(c: WeightedCache<K, V>)
    requires
        c.wf(),
    ensures
        sum_weights(c.entries()) <= c.spec_capacity(),
        c.spec_total() as int == sum_weights(c.entries()),
{
}

/// However many entries were inserted, a well-formed cache weighs no more
/// than its capacity, and a lookup finds only entries that have not expired.
pub proof fn lemma_weight_within_capacity<K: CacheKey, V>(c: WeightedCache<K, V>, now: u64, i: int)
    requires
        c.wf(),
        0 <= i < c.entries().len(),
        !is_live(c.entries()[i], now),
    ensures
        sum_weights(c.entries()) <= c.spec_capacity(),
        c.entries()[i].expires matches Some(t) && t <= now,
{
}

} // verus!
