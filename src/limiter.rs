//! Admission control: per-key rate windows and concurrency permits, held in a
//! map sharded by the keys' lookup hash.

use crate::throttle::{le_u64_prefix, ThrottleKey};
use vstd::prelude::*;

verus! {

/// A scoped permit for one in-flight operation under `key`. It is not
/// copyable: handing it back to the map that issued it releases it once.
#[derive(Debug)]
pub struct InFlight {
    key: ThrottleKey,
}

impl InFlight {
    pub closed spec fn key_view(&self) -> Seq<u8> {
        self.key.hash@
    }

    pub fn key(&self) -> (r: &ThrottleKey)
        ensures
            r.hash@ == self.key_view(),
    {
        &self.key
    }
}

/// A slot of a concurrency limiter. It cannot be copied: handing it back
/// frees the slot once.
#[derive(Debug)]
pub struct Permit {
    _slot: (),
}

/// Caps the number of simultaneous in-flight operations.
#[derive(Debug)]
pub struct ConcurrencyLimiter {
    max_concurrent: u64,
    concurrent: u64,
}

impl ConcurrencyLimiter {
    pub closed spec fn max(&self) -> u64 {
        self.max_concurrent
    }

    pub closed spec fn current(&self) -> u64 {
        self.concurrent
    }

    pub fn new(max_concurrent: u64) -> (r: Self)
        ensures
            r.max() == max_concurrent,
            r.current() == 0,
    {
        ConcurrencyLimiter { max_concurrent, concurrent: 0 }
    }

    /// Takes a slot if one is free; never waits.
    fn take_slot(&mut self) -> (r: bool)
        ensures
            r == (old(self).current() < old(self).max()),
            final(self).max() == old(self).max(),
            final(self).current() == if r {
                old(self).current() + 1
            } else {
                old(self).current() as int
            },
    {
        if self.concurrent < self.max_concurrent {
            self.concurrent = self.concurrent + 1;
            true
        } else {
            false
        }
    }

    /// Gives a slot back.
    fn give_slot(&mut self)
        ensures
            final(self).max() == old(self).max(),
            final(self).current() == if old(self).current() > 0 {
                old(self).current() - 1
            } else {
                0
            },
    {
        if self.concurrent > 0 {
            self.concurrent = self.concurrent - 1;
        }
    }

    /// Takes a slot if one is free, as a permit; never waits. Existing
    /// holders are untouched by a refusal.
    pub fn try_acquire(&mut self) -> (r: Option<Permit>)
        ensures
            r.is_some() == (old(self).current() < old(self).max()),
            final(self).max() == old(self).max(),
            final(self).current() == if r.is_some() {
                old(self).current() + 1
            } else {
                old(self).current() as int
            },
    {
        if self.take_slot() {
            Some(Permit { _slot: () })
        } else {
            None
        }
    }

    /// Hands a permit back: its slot is free again.
    pub fn release(&mut self, permit: Permit)
        ensures
            final(self).max() == old(self).max(),
            final(self).current() == if old(self).current() > 0 {
                old(self).current() - 1
            } else {
                0
            },
    {
        self.give_slot();
    }

    /// Whether an operation is in flight.
    pub fn is_active(&self) -> (r: bool)
        ensures
            r == (self.current() > 0),
    {
        self.concurrent > 0
    }
}

/// The two concurrency limits of one account: requests and uploads.
#[derive(Debug)]
pub struct ConcurrencyLimiters {
    pub concurrent_requests: ConcurrencyLimiter,
    pub concurrent_uploads: ConcurrencyLimiter,
}

impl ConcurrencyLimiters {
    pub fn is_active(&self) -> (r: bool)
        ensures
            r == (self.concurrent_requests.current() > 0 || self.concurrent_uploads.current() > 0),
    {
        self.concurrent_requests.is_active() || self.concurrent_uploads.is_active()
    }
}

/// At most `requests` events in each window of `period` time units.
#[derive(Debug, Clone, Copy, PartialEq, Eq, Structural)]
pub struct Rate {
    pub requests: u64,
    pub period: u64,
}

/// A fixed-window event counter.
#[derive(Debug, Clone, Copy, PartialEq, Eq, Structural)]
pub struct RateLimiter {
    pub rate: Rate,
    pub window_start: u64,
    pub count: u64,
}

/// Whether the window that began at `start` has closed by `now`.
pub open spec fn window_closed(start: u64, period: u64, now: u64) -> bool {
    now >= start && now - start >= period
}

/// The counter as it stands at `now`, before any event is counted.
pub open spec fn rate_at(r: RateLimiter, now: u64) -> RateLimiter {
    if window_closed(r.window_start, r.rate.period, now) {
        RateLimiter { rate: r.rate, window_start: now, count: 0 }
    } else {
        r
    }
}

/// Whether an event at `now` is within the rate.
pub open spec fn rate_admits(r: RateLimiter, now: u64) -> bool {
    rate_at(r, now).count < r.rate.requests
}

/// The counter after an event at `now` was offered.
pub open spec fn rate_after(r: RateLimiter, now: u64) -> RateLimiter {
    let w = rate_at(r, now);
    if rate_admits(r, now) {
        RateLimiter { count: (w.count + 1) as u64, ..w }
    } else {
        w
    }
}

impl RateLimiter {
    pub fn new(rate: Rate, now: u64) -> (r: Self)
        ensures
            r == (RateLimiter { rate, window_start: now, count: 0 }),
    {
        RateLimiter { rate, window_start: now, count: 0 }
    }

    /// Counts an event at `now` if the rate allows it.
    pub fn is_allowed(&mut self, now: u64) -> (r: bool)
        ensures
            r == rate_admits(*old(self), now),
            *final(self) == rate_after(*old(self), now),
    {
        if now >= self.window_start && now - self.window_start >= self.rate.period {
            self.window_start = now;
            self.count = 0;
        }
        if self.count < self.rate.requests {
            self.count = self.count + 1;
            true
        } else {
            false
        }
    }

    /// Whether the current window still holds counted events.
    pub fn is_active(&self, now: u64) -> (r: bool)
        ensures
            r == (self.count > 0 && !window_closed(self.window_start, self.rate.period, now)),
    {
        self.count > 0 && !(now >= self.window_start && now - self.window_start >= self.rate.period)
    }
}

/// What a throttle rule asks of one key: a concurrency cap, a rate, or both.
#[derive(Debug, Clone, Copy, PartialEq, Eq, Structural)]
pub struct ThrottleRule {
    pub concurrency: Option<u64>,
    pub rate: Option<Rate>,
}

/// Why an admission was refused.
#[derive(Debug, Clone, Copy, PartialEq, Eq, Structural)]
pub enum LimitKind {
    Concurrency,
    Rate,
}

/// The state of one key, as plain values: (cap, in flight) and the rate counter.
pub struct LimiterModel {
    pub concurrency: Option<(u64, u64)>,
    pub rate: Option<RateLimiter>,
}

/// The state a key starts in under `rule`, created at `now`.
pub open spec fn fresh_model(rule: ThrottleRule, now: u64) -> LimiterModel {
    LimiterModel {
        concurrency: match rule.concurrency {
            Some(m) => Some((m, 0u64)),
            None => None,
        },
        rate: match rule.rate {
            Some(r) => Some(RateLimiter { rate: r, window_start: now, count: 0 }),
            None => None,
        },
    }
}

/// Why an operation at `now` would be refused, if it would be. The
/// concurrency cap is consulted first.
pub open spec fn decision(m: LimiterModel, now: u64) -> Option<LimitKind> {
    if m.concurrency matches Some((max, cur)) && cur >= max {
        Some(LimitKind::Concurrency)
    } else if m.rate matches Some(r) && !rate_admits(r, now) {
        Some(LimitKind::Rate)
    } else {
        None
    }
}

/// The state after an operation at `now` was offered: a refusal by the cap
/// changes nothing; a refusal by the rate only rolls its window forward.
pub open spec fn model_after(m: LimiterModel, now: u64) -> LimiterModel {
    match decision(m, now) {
        Some(LimitKind::Concurrency) => m,
        Some(LimitKind::Rate) => LimiterModel {
            concurrency: m.concurrency,
            rate: match m.rate {
                Some(r) => Some(rate_at(r, now)),
                None => None,
            },
        },
        None => LimiterModel {
            concurrency: match m.concurrency {
                Some((max, cur)) => Some((max, (cur + 1) as u64)),
                None => None,
            },
            rate: match m.rate {
                Some(r) => Some(rate_after(r, now)),
                None => None,
            },
        },
    }
}

/// The state after one permit is handed back.
pub open spec fn model_released(m: LimiterModel) -> LimiterModel {
    LimiterModel {
        concurrency: match m.concurrency {
            Some((max, cur)) => Some((max, if cur > 0 { (cur - 1) as u64 } else { 0u64 })),
            None => None,
        },
        rate: m.rate,
    }
}

/// Whether a key still constrains admissions at `now`.
pub open spec fn model_active(m: LimiterModel, now: u64) -> bool {
    (m.concurrency matches Some((_, cur)) && cur > 0) || (m.rate matches Some(r) && r.count > 0
        && !window_closed(r.window_start, r.rate.period, now))
}

/// The limiters of one key.
#[derive(Debug)]
pub struct ThrottleEntry {
    key: ThrottleKey,
    concurrency: Option<ConcurrencyLimiter>,
    rate: Option<RateLimiter>,
}

impl ThrottleEntry {
    pub closed spec fn model(&self) -> LimiterModel {
        LimiterModel {
            concurrency: match self.concurrency {
                Some(c) => Some((c.max(), c.current())),
                None => None,
            },
            rate: self.rate,
        }
    }

    fn new(key: ThrottleKey, rule: &ThrottleRule, now: u64) -> (r: Self)
        ensures
            r.key == key,
            r.model() == fresh_model(*rule, now),
    {
        let concurrency = match rule.concurrency {
            Some(m) => Some(ConcurrencyLimiter::new(m)),
            None => None,
        };
        let rate = match rule.rate {
            Some(r) => Some(RateLimiter::new(r, now)),
            None => None,
        };
        ThrottleEntry { key, concurrency, rate }
    }

    fn offer(&mut self, now: u64) -> (r: Result<bool, LimitKind>)
        ensures
            final(self).key == old(self).key,
            final(self).model() == model_after(old(self).model(), now),
            match decision(old(self).model(), now) {
                Some(kind) => r == Err::<bool, LimitKind>(kind),
                None => r == Ok::<bool, LimitKind>(old(self).model().concurrency.is_some()),
            },
    {
        if let Some(c) = &self.concurrency {
            if c.concurrent >= c.max_concurrent {
                return Err(LimitKind::Concurrency);
            }
        }
        if let Some(mut r) = self.rate {
            let ok = r.is_allowed(now);
            self.rate = Some(r);
            if !ok {
                return Err(LimitKind::Rate);
            }
        }
        match &mut self.concurrency {
            Some(c) => {
                c.take_slot();
                Ok(true)
            },
            None => Ok(false),
        }
    }

    fn release(&mut self)
        ensures
            final(self).key == old(self).key,
            final(self).model() == model_released(old(self).model()),
    {
        match &mut self.concurrency {
            Some(c) => c.give_slot(),
            None => {},
        }
    }

    fn is_active(&self, now: u64) -> (r: bool)
        ensures
            r == model_active(self.model(), now),
    {
        let busy = match &self.concurrency {
            Some(c) => c.is_active(),
            None => false,
        };
        let counting = match &self.rate {
            Some(r) => r.is_active(now),
            None => false,
        };
        busy || counting
    }
}

/// The shard that holds key `k` among `n` shards.
pub open spec fn shard_index(k: Seq<u8>, n: int) -> int {
    le_u64_prefix(k) % n
}

/// Whether `sh` holds an entry for key `k`.
pub closed spec fn holds_key(sh: Seq<ThrottleEntry>, k: Seq<u8>) -> bool {
    exists|i: int| 0 <= i < sh.len() && #[trigger] sh[i].key.hash@ == k
}

/// The state held for key `k` in shard `sh`, if any.
pub closed spec fn model_in(sh: Seq<ThrottleEntry>, k: Seq<u8>) -> Option<LimiterModel> {
    if holds_key(sh, k) {
        Some(sh[choose|i: int| 0 <= i < sh.len() && #[trigger] sh[i].key.hash@ == k].model())
    } else {
        None
    }
}

/// No two entries of `sh` share a key.
pub closed spec fn unique_keys(sh: Seq<ThrottleEntry>) -> bool {
    forall|i: int, j: int|
        0 <= i < j < sh.len() ==> #[trigger] sh[i].key.hash@ != #[trigger] sh[j].key.hash@
}

proof fn lemma_model_at(sh: Seq<ThrottleEntry>, k: Seq<u8>, i: int)
    requires
        unique_keys(sh),
        0 <= i < sh.len(),
        sh[i].key.hash@ == k,
    ensures
        model_in(sh, k) == Some(sh[i].model()),
{
    assert(holds_key(sh, k));
    let j = choose|j: int| 0 <= j < sh.len() && #[trigger] sh[j].key.hash@ == k;
    if j < i {
        assert(sh[j].key.hash@ != sh[i].key.hash@);
    } else if i < j {
        assert(sh[i].key.hash@ != sh[j].key.hash@);
    }
}

/// Replacing or appending the entry of `key` leaves every other key's state alone.
proof fn lemma_other_keys(
    sh0: Seq<ThrottleEntry>,
    sh1: Seq<ThrottleEntry>,
    idx: int,
    key: Seq<u8>,
    k2: Seq<u8>,
)
    requires
        unique_keys(sh0),
        unique_keys(sh1),
        sh0.len() <= sh1.len() <= sh0.len() + 1,
        0 <= idx < sh1.len(),
        sh1[idx].key.hash@ == key,
        idx < sh0.len() ==> sh0[idx].key.hash@ == key,
        sh1.len() > sh0.len() ==> idx == sh0.len(),
        forall|j: int| 0 <= j < sh0.len() && j != idx ==> sh1[j] == sh0[j],
        k2 != key,
    ensures
        model_in(sh0, k2) == model_in(sh1, k2),
{
    if holds_key(sh0, k2) {
        let j = choose|j: int| 0 <= j < sh0.len() && #[trigger] sh0[j].key.hash@ == k2;
        lemma_model_at(sh0, k2, j);
        lemma_model_at(sh1, k2, j);
    } else if holds_key(sh1, k2) {
        let j = choose|j: int| 0 <= j < sh1.len() && #[trigger] sh1[j].key.hash@ == k2;
        if j < sh0.len() {
            assert(sh0[j].key.hash@ == k2);
        }
    }
}

/// Per-key limiter state, in shards chosen by the keys' lookup hash.
pub struct ThrottleMap {
    shards: Vec<Vec<ThrottleEntry>>,
}

impl ThrottleMap {
    pub closed spec fn shard_count(&self) -> int {
        self.shards@.len() as int
    }

    /// The state held for key `k`, if any.
    pub closed spec fn model_of(&self, k: Seq<u8>) -> Option<LimiterModel> {
        model_in(self.shards@[shard_index(k, self.shards@.len() as int)]@, k)
    }

    /// Each key sits in its own shard, at most once.
    pub closed spec fn wf(&self) -> bool {
        &&& self.shards@.len() > 0
        &&& forall|s: int, i: int|
            #![trigger self.shards@[s]@[i]]
            0 <= s < self.shards@.len() && 0 <= i < self.shards@[s]@.len() ==> shard_index(
                self.shards@[s]@[i].key.hash@,
                self.shards@.len() as int,
            ) == s
        &&& forall|s: int| 0 <= s < self.shards@.len() ==> unique_keys(#[trigger] self.shards@[s]@)
    }

    /// An empty map with `shard_amount` shards, each sized for its part of
    /// `capacity`.
    pub fn new(capacity: usize, shard_amount: usize) -> (r: Self)
        requires
            shard_amount > 0,
        ensures
            r.wf(),
            r.shard_count() == shard_amount,
            forall|k: Seq<u8>| r.model_of(k).is_none(),
    {
        let mut shards: Vec<Vec<ThrottleEntry>> = Vec::with_capacity(shard_amount);
        let per_shard = capacity / shard_amount;
        let mut i: usize = 0;
        while i < shard_amount
            invariant
                0 <= i <= shard_amount,
                shards@.len() == i,
                forall|s: int| 0 <= s < i ==> (#[trigger] shards@[s])@.len() == 0,
            decreases shard_amount - i,
        {
            shards.push(Vec::with_capacity(per_shard));
            i = i + 1;
        }
        ThrottleMap { shards }
    }

    fn shard_of(&self, key: &ThrottleKey) -> (r: usize)
        requires
            self.wf(),
        ensures
            r == shard_index(key.hash@, self.shards@.len() as int),
            r < self.shards@.len(),
    {
        (key.fast_hash() % (self.shards.len() as u64)) as usize
    }

    fn find_in(sh: &Vec<ThrottleEntry>, key: &ThrottleKey) -> (r: Option<usize>)
        ensures
            match r {
                Some(i) => i < sh@.len() && sh@[i as int].key.hash@ == key.hash@,
                None => !holds_key(sh@, key.hash@),
            },
    {
        let mut i: usize = 0;
        while i < sh.len()
            invariant
                0 <= i <= sh@.len(),
                forall|j: int| 0 <= j < i ==> sh@[j].key.hash@ != key.hash@,
            decreases sh@.len() - i,
        {
            if sh[i].key.eq(key) {
                return Some(i);
            }
            i = i + 1;
        }
        None
    }

    /// Offers an operation under `key` at `now`. The key's state is created
    /// from `rule` on first use. On success a permit is returned when the key
    /// has a concurrency cap; a refusal never waits.
    pub fn acquire(&mut self, key: &ThrottleKey, rule: &ThrottleRule, now: u64) -> (r: Result<
        Option<InFlight>,
        LimitKind,
    >)
        requires
            old(self).wf(),
        ensures
            final(self).wf(),
            final(self).shard_count() == old(self).shard_count(),
            ({
                let m0 = match old(self).model_of(key.hash@) {
                    Some(m) => m,
                    None => fresh_model(*rule, now),
                };
                &&& final(self).model_of(key.hash@) == Some(model_after(m0, now))
                &&& match decision(m0, now) {
                    Some(kind) => r matches Err(k) && k == kind,
                    None => r matches Ok(p) && p.is_some() == m0.concurrency.is_some() && (p matches Some(
                        f,
                    ) ==> f.key_view() == key.hash@),
                }
            }),
            forall|k: Seq<u8>| k != key.hash@ ==> final(self).model_of(k) == old(self).model_of(k),
    {
        let s = self.shard_of(key);
        let ghost shards0 = self.shards@;
        let mut sh = self.shards.remove(s);
        let ghost sh0 = sh@;
        let idx = match Self::find_in(&sh, key) {
            Some(i) => i,
            None => {
                let e = ThrottleEntry::new(key.copy(), rule, now);
                let ghost eg = e;
                sh.push(e);
                proof {
                    assert(sh@ =~= sh0.push(eg));
                    assert(unique_keys(shards0[s as int]@));
                    assert(shards0[s as int]@ == sh0);
                    assert forall|i: int, j: int|
                        0 <= i < j < sh@.len() implies #[trigger] sh@[i].key.hash@
                        != #[trigger] sh@[j].key.hash@ by {
                        assert(sh@[i] == sh0[i]);
                        if j == sh@.len() - 1 {
                            assert(sh@[j] == eg);
                            if sh0[i].key.hash@ == key.hash@ {
                                assert(holds_key(sh0, key.hash@));
                            }
                        } else {
                            assert(sh@[j] == sh0[j]);
                        }
                    }
                    assert(unique_keys(sh@));
                }
                (sh.len() - 1) as usize
            },
        };
        let ghost sh_mid = sh@;
        let mut e = sh.remove(idx);
        let ghost m0 = e.model();
        let res = e.offer(now);
        sh.insert(idx, e);
        proof {
            assert(sh@ =~= sh_mid.update(idx as int, e));
            let sh1 = sh@;
            assert forall|i: int, j: int|
                0 <= i < j < sh1.len() implies #[trigger] sh1[i].key.hash@ != #[trigger] sh1[j].key.hash@ by {
                assert(sh1[i].key.hash@ == sh_mid[i].key.hash@);
                assert(sh1[j].key.hash@ == sh_mid[j].key.hash@);
            }
            lemma_model_at(sh1, key.hash@, idx as int);
            if idx < sh0.len() {
                lemma_model_at(sh0, key.hash@, idx as int);
            }
            assert forall|k: Seq<u8>| k != key.hash@ implies model_in(sh0, k) == model_in(sh1, k) by {
                lemma_other_keys(sh0, sh1, idx as int, key.hash@, k);
            }
        }
        let ghost sh_fin = sh;
        self.shards.insert(s, sh);
        proof {
            assert(self.shards@ =~= shards0.update(s as int, sh_fin));
            assert forall|t: int, i: int|
                0 <= t < self.shards@.len() && 0 <= i < self.shards@[t]@.len() implies shard_index(
                #[trigger] self.shards@[t]@[i].key.hash@,
                self.shards@.len() as int,
            ) == t by {
                if t != s {
                    assert(self.shards@[t] == shards0[t]);
                } else {
                    if i != idx {
                        assert(self.shards@[t]@[i] == sh_mid[i]);
                        if i < sh0.len() {
                            assert(sh_mid[i] == shards0[t]@[i]);
                        }
                    }
                }
            }
            assert forall|k: Seq<u8>| k != key.hash@ implies self.model_of(k) == old(self).model_of(k) by {
                let t = shard_index(k, self.shards@.len() as int);
                if t != s {
                    assert(self.shards@[t] == shards0[t]);
                }
            }
        }
        match res {
            Ok(true) => Ok(Some(InFlight { key: key.copy() })),
            Ok(false) => Ok(None),
            Err(kind) => Err(kind),
        }
    }

    /// Hands a permit back: the key's in-flight count drops by one.
    pub fn release(&mut self, permit: InFlight)
        requires
            old(self).wf(),
        ensures
            final(self).wf(),
            final(self).shard_count() == old(self).shard_count(),
            final(self).model_of(permit.key_view()) == match old(self).model_of(permit.key_view()) {
                Some(m) => Some(model_released(m)),
                None => None,
            },
            forall|k: Seq<u8>|
                k != permit.key_view() ==> final(self).model_of(k) == old(self).model_of(k),
    {
        let key = &permit.key;
        let s = self.shard_of(key);
        let ghost shards0 = self.shards@;
        let mut sh = self.shards.remove(s);
        let ghost sh0 = sh@;
        match Self::find_in(&sh, key) {
            Some(idx) => {
                let mut e = sh.remove(idx);
                e.release();
                sh.insert(idx, e);
                proof {
                    assert(sh@ =~= sh0.update(idx as int, e));
                    let sh1 = sh@;
                    assert forall|i: int, j: int|
                        0 <= i < j < sh1.len() implies #[trigger] sh1[i].key.hash@
                        != #[trigger] sh1[j].key.hash@ by {
                        assert(sh1[i].key.hash@ == sh0[i].key.hash@);
                        assert(sh1[j].key.hash@ == sh0[j].key.hash@);
                    }
                    lemma_model_at(sh1, key.hash@, idx as int);
                    lemma_model_at(sh0, key.hash@, idx as int);
                    assert forall|k: Seq<u8>| k != key.hash@ implies model_in(sh0, k) == model_in(
                        sh1,
                        k,
                    ) by {
                        lemma_other_keys(sh0, sh1, idx as int, key.hash@, k);
                    }
                }
            },
            None => {},
        }
        let ghost sh_fin = sh;
        self.shards.insert(s, sh);
        proof {
            assert(self.shards@ =~= shards0.update(s as int, sh_fin));
            assert forall|t: int, i: int|
                0 <= t < self.shards@.len() && 0 <= i < self.shards@[t]@.len() implies shard_index(
                #[trigger] self.shards@[t]@[i].key.hash@,
                self.shards@.len() as int,
            ) == t by {
                if t != s {
                    assert(self.shards@[t] == shards0[t]);
                } else {
                    assert(self.shards@[t]@[i].key.hash@ == sh0[i].key.hash@);
                }
            }
            assert forall|k: Seq<u8>| k != key.hash@ implies self.model_of(k) == old(self).model_of(k) by {
                let t = shard_index(k, self.shards@.len() as int);
                if t != s {
                    assert(self.shards@[t] == shards0[t]);
                }
            }
        }
    }

    /// Reclaims every key that no longer constrains admissions at `now`: no
    /// permit in flight and no counted event in an open window.
    pub fn sweep(&mut self, now: u64)
        requires
            old(self).wf(),
        ensures
            final(self).wf(),
            final(self).shard_count() == old(self).shard_count(),
            forall|k: Seq<u8>| #[trigger] final(self).model_of(k) == swept(old(self).model_of(k), now),
    {
        let n = self.shards.len();
        let mut t: usize = 0;
        while t < n
            invariant
                self.wf(),
                n == self.shards@.len(),
                self.shard_count() == old(self).shard_count(),
                0 <= t <= n,
                forall|k: Seq<u8>| #[trigger] self.model_of(k) == if shard_index(k, n as int) < t {
                    swept(old(self).model_of(k), now)
                } else {
                    old(self).model_of(k)
                },
            decreases n - t,
        {
            let ghost shards0 = self.shards@;
            proof {
                assert forall|k: Seq<u8>| #[trigger] model_in(shards0[shard_index(k, n as int)]@, k) == if shard_index(k, n as int) < t {
                    swept(old(self).model_of(k), now)
                } else {
                    old(self).model_of(k)
                } by {
                    assert(self.model_of(k) == model_in(shards0[shard_index(k, n as int)]@, k));
                }
            }
            let sh = self.shards.remove(t);
            proof {
                assert(unique_keys(shards0[t as int]@));
            }
            let ghost sh0 = sh@;
            let kept = sweep_shard(sh, now);
            let ghost kept_v = kept;
            self.shards.insert(t, kept);
            proof {
                assert(self.shards@ =~= shards0.update(t as int, kept_v));
                assert forall|u: int, i: int|
                    0 <= u < self.shards@.len() && 0 <= i < self.shards@[u]@.len() implies shard_index(
                    #[trigger] self.shards@[u]@[i].key.hash@,
                    self.shards@.len() as int,
                ) == u by {
                    if u != t {
                        assert(self.shards@[u] == shards0[u]);
                    } else {
                        assert(holds_key(sh0, kept_v@[i].key.hash@));
                        let x = choose|x: int| 0 <= x < sh0.len() && #[trigger] sh0[x].key.hash@ == kept_v@[i].key.hash@;
                        assert(shards0[u]@[x] == sh0[x]);
                    }
                }
                assert forall|u: int| 0 <= u < self.shards@.len() implies unique_keys(#[trigger] self.shards@[u]@) by {
                    if u != t {
                        assert(self.shards@[u] == shards0[u]);
                    }
                }
                assert forall|k: Seq<u8>| #[trigger] self.model_of(k) == if shard_index(k, n as int) < t + 1 {
                    swept(old(self).model_of(k), now)
                } else {
                    old(self).model_of(k)
                } by {
                    let u = shard_index(k, n as int);
                    assert(model_in(shards0[u]@, k) == if u < t {
                        swept(old(self).model_of(k), now)
                    } else {
                        old(self).model_of(k)
                    });
                    if u != t {
                        assert(self.shards@[u] == shards0[u]);
                    } else {
                        assert(self.shards@[u] == kept_v);
                        assert(shards0[u]@ == sh0);
                    }
                }
            }
            t = t + 1;
        }
    }

    /// Whether key `key` currently constrains admissions at `now`.
    pub fn is_active(&self, key: &ThrottleKey, now: u64) -> (r: bool)
        requires
            self.wf(),
        ensures
            r == (self.model_of(key.hash@) matches Some(m) && model_active(m, now)),
    {
        let s = self.shard_of(key);
        let sh = &self.shards[s];
        match Self::find_in(sh, key) {
            Some(i) => {
                proof {
                    lemma_model_at(sh@, key.hash@, i as int);
                }
                sh[i].is_active(now)
            },
            None => false,
        }
    }
}

/// What sweeping leaves of a key's state: active keys stay, idle ones go.
pub open spec fn swept(m: Option<LimiterModel>, now: u64) -> Option<LimiterModel> {
    match m {
        Some(x) => if model_active(x, now) {
            Some(x)
        } else {
            None
        },
        None => None,
    }
}

/// Keeps the entries of one shard that are still active at `now`.
fn sweep_shard(entries: Vec<ThrottleEntry>, now: u64) -> (r: Vec<ThrottleEntry>)
    requires
        unique_keys(entries@),
    ensures
        unique_keys(r@),
        forall|j: int| 0 <= j < r@.len() ==> holds_key(entries@, #[trigger] r@[j].key.hash@),
        forall|k: Seq<u8>| #[trigger] model_in(r@, k) == swept(model_in(entries@, k), now),
{
    let mut sh = entries;
    let ghost sh0 = sh@;
    let mut kept: Vec<ThrottleEntry> = Vec::new();
    let ghost mut src: Seq<int> = Seq::empty();
    while sh.len() > 0
        invariant
            sh@ == sh0.subrange(0, sh@.len() as int),
            sh@.len() <= sh0.len(),
            unique_keys(sh0),
            src.len() == kept@.len(),
            forall|j: int| 0 <= j < src.len() ==> sh@.len() <= #[trigger] src[j] < sh0.len(),
            forall|j: int| 0 <= j < src.len() ==> kept@[j] == sh0[#[trigger] src[j]],
            forall|j1: int, j2: int| 0 <= j1 < j2 < src.len() ==> #[trigger] src[j1] > #[trigger] src[j2],
            forall|j: int| 0 <= j < src.len() ==> model_active(#[trigger] kept@[j].model(), now),
            forall|i: int|
                sh@.len() <= i < sh0.len() && model_active(#[trigger] sh0[i].model(), now) ==> exists|j: int|
                    0 <= j < src.len() && src[j] == i,
        decreases sh@.len(),
    {
        let ghost before = sh@;
        let ghost src_before = src;
        match sh.pop() {
            Some(e) => {
                let ghost idx = (before.len() - 1) as int;
                proof {
                    assert(e == sh0[idx]);
                    assert(sh@ =~= sh0.subrange(0, idx));
                }
                if e.is_active(now) {
                    kept.push(e);
                    proof {
                        src = src.push(idx);
                    }
                }
                proof {
                    assert forall|i: int|
                        sh@.len() <= i < sh0.len() && model_active(#[trigger] sh0[i].model(), now) implies exists|j: int|
                        0 <= j < src.len() && src[j] == i by {
                        if i == idx {
                            assert(src[src.len() - 1] == i);
                        } else {
                            let j = choose|j: int| 0 <= j < src_before.len() && src_before[j] == i;
                            assert(src[j] == i);
                        }
                    }
                }
            },
            None => {},
        }
    }
    proof {
        assert(sh0.subrange(0, 0) =~= Seq::<ThrottleEntry>::empty());
        let r = kept@;
        assert forall|j1: int, j2: int| 0 <= j1 < j2 < r.len() implies #[trigger] r[j1].key.hash@ != #[trigger] r[j2].key.hash@ by {
            let a = src[j1];
            let b = src[j2];
            assert(a > b);
            assert(sh0[b].key.hash@ != sh0[a].key.hash@);
        }
        assert(sh0 == entries@);
        assert forall|j: int| 0 <= j < r.len() implies holds_key(sh0, #[trigger] r[j].key.hash@) by {
            let i = src[j];
            assert(sh0[i].key.hash@ == r[j].key.hash@);
        }
        assert forall|k: Seq<u8>| #[trigger] model_in(r, k) == swept(model_in(sh0, k), now) by {
            if holds_key(sh0, k) {
                let i = choose|i: int| 0 <= i < sh0.len() && #[trigger] sh0[i].key.hash@ == k;
                lemma_model_at(sh0, k, i);
                if model_active(sh0[i].model(), now) {
                    let j = choose|j: int| 0 <= j < src.len() && src[j] == i;
                    lemma_model_at(r, k, j);
                } else if holds_key(r, k) {
                    let j = choose|j: int| 0 <= j < r.len() && #[trigger] r[j].key.hash@ == k;
                    let a = src[j];
                    if a != i {
                        if a < i {
                            assert(sh0[a].key.hash@ != sh0[i].key.hash@);
                        } else {
                            assert(sh0[i].key.hash@ != sh0[a].key.hash@);
                        }
                    }
                }
            } else if holds_key(r, k) {
                let j = choose|j: int| 0 <= j < r.len() && #[trigger] r[j].key.hash@ == k;
                assert(sh0[src[j]].key.hash@ == k);
            }
        }
    }
    kept
}

/// The powers of two.
pub open spec fn pow2(k: nat) -> nat
    decreases k,
{
    if k == 0 {
        1
    } else {
        2 * pow2((k - 1) as nat)
    }
}

/// `p` is the least power of two at or above `n`.
pub open spec fn is_next_power_of_two(n: u64, p: u64) -> bool {
    exists|k: nat| #[trigger] pow2(k) == p && p >= n && (k > 0 ==> pow2((k - 1) as nat) < n)
}

/// The least power of two at or above `n` (one for zero).
pub fn next_power_of_two(n: u64) -> (r: u64)
    requires
        n <= 0x8000_0000_0000_0000,
    ensures
        is_next_power_of_two(n, r),
{
    let mut p: u64 = 1;
    let ghost mut k: nat = 0;
    while p < n
        invariant
            p == pow2(k),
            k > 0 ==> pow2((k - 1) as nat) < n,
            1 <= p <= 0x8000_0000_0000_0000,
            n <= 0x8000_0000_0000_0000,
        decreases 0x8000_0000_0000_0000 - p,
    {
        proof {
            reveal_with_fuel(pow2, 64);
            assert(pow2(63) == 0x8000_0000_0000_0000);
            lemma_pow2_double(k, 63);
        }
        p = p * 2;
        proof {
            k = k + 1;
        }
    }
    p
}

proof fn lemma_pow2_double(k: nat, m: nat)
    ensures
        pow2(k) < pow2(m) ==> 2 * pow2(k) <= pow2(m),
    decreases k,
{
    if k > 0 && m > 0 {
        lemma_pow2_double((k - 1) as nat, (m - 1) as nat);
    }
    if m > 0 {
        lemma_pow2_positive((m - 1) as nat);
    }
    lemma_pow2_positive(k);
}

/// The number of shards: the configured amount, or twice the available
/// parallelism, raised to the next power of two.
pub open spec fn shard_amount_for(configured: Option<u64>, parallelism: u64, r: u64) -> bool {
    match configured {
        Some(n) => is_next_power_of_two(n, r),
        None => is_next_power_of_two((2 * parallelism) as u64, r),
    }
}

/// Relies on num_cpus::get: the number of CPUs this process may use, never
/// below one.
#[verifier::external_body]
fn available_parallelism() -> (r: usize)
    ensures
        r >= 1,
{
    num_cpus::get()
}

/// Shard count from a configured value and a known parallelism.
pub fn shard_amount_with(configured: Option<u64>, parallelism: u64) -> (r: u64)
    requires
        configured matches Some(n) ==> n <= 0x8000_0000_0000_0000,
        parallelism <= 0x4000_0000_0000_0000,
    ensures
        shard_amount_for(configured, parallelism, r),
        r >= 1,
{
    let n = match configured {
        Some(n) => n,
        None => 2 * parallelism,
    };
    let r = next_power_of_two(n);
    proof {
        let k = choose|k: nat| #[trigger] pow2(k) == r && r >= n && (k > 0 ==> pow2((k - 1) as nat) < n);
        lemma_pow2_positive(k);
    }
    r
}

proof fn lemma_pow2_positive(k: nat)
    ensures
        pow2(k) >= 1,
    decreases k,
{
    if k > 0 {
        lemma_pow2_positive((k - 1) as nat);
    }
}

/// Shard count from a configured value, defaulting to twice the CPUs this
/// process may use.
pub fn shard_amount(configured: Option<u64>) -> (r: u64)
    requires
        configured matches Some(n) ==> n <= 0x8000_0000_0000_0000,
    ensures
        exists|p: u64| p >= 1 && shard_amount_for(configured, p, r),
        r >= 1,
{
    let cpus = available_parallelism();
    let p: u64 = if cpus as u64 > 0x4000_0000_0000_0000 {
        0x4000_0000_0000_0000
    } else {
        cpus as u64
    };
    shard_amount_with(configured, p)
}

/// A key whose permits are all taken refuses at once and stays as it was, so
/// existing holders are untouched; once one permit is released exactly one
/// further operation is admitted, and the next one is refused again.
pub proof fn lemma_full_refuses_then_one_admitted(m: LimiterModel, now: u64)
    requires
        m.concurrency matches Some((max, cur)) && cur == max && max > 0,
        m.rate.is_none(),
    ensures
        decision(m, now) == Some(LimitKind::Concurrency),
        model_after(m, now) == m,
        decision(model_released(m), now).is_none(),
        model_after(model_released(m), now) == m,
        decision(model_after(model_released(m), now), now) == Some(LimitKind::Concurrency),
{
}

/// Two connections sharing a key under a cap of one: the first is admitted,
/// the second is refused while the first holds its permit, and is admitted
/// after the first releases it.
pub proof fn lemma_shared_key_cap_one(rule: ThrottleRule, now: u64)
    requires
        rule.concurrency == Some(1u64),
        rule.rate.is_none(),
    ensures
        ({
            let first = fresh_model(rule, now);
            let held = model_after(first, now);
            &&& decision(first, now).is_none()
            &&& decision(held, now) == Some(LimitKind::Concurrency)
            &&& model_after(held, now) == held
            &&& decision(model_released(held), now).is_none()
        }),
{
}

} // verus!
