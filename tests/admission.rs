use mailgate::limiter::{
    next_power_of_two, shard_amount, shard_amount_with, ConcurrencyLimiter, ConcurrencyLimiters,
    LimitKind, Rate, RateLimiter, ThrottleMap, ThrottleRule,
};
use mailgate::throttle::ThrottleKey;

fn key(n: u8) -> ThrottleKey {
    ThrottleKey::from_digest([n; 32])
}

#[test]
fn over_the_cap_fails_at_once_and_release_admits_one() {
    let mut map = ThrottleMap::new(16, 4);
    let rule = ThrottleRule { concurrency: Some(2), rate: None };
    let k = key(1);
    let first = map.acquire(&k, &rule, 0).unwrap().unwrap();
    let _second = map.acquire(&k, &rule, 0).unwrap().unwrap();
    assert_eq!(map.acquire(&k, &rule, 0).unwrap_err(), LimitKind::Concurrency);
    assert_eq!(map.acquire(&k, &rule, 0).unwrap_err(), LimitKind::Concurrency);
    map.release(first);
    assert!(map.acquire(&k, &rule, 0).unwrap().is_some());
    assert_eq!(map.acquire(&k, &rule, 0).unwrap_err(), LimitKind::Concurrency);
    assert!(map.acquire(&key(2), &rule, 0).unwrap().is_some());
}

#[test]
fn rate_windows_count_events() {
    let mut map = ThrottleMap::new(16, 2);
    let rule = ThrottleRule { concurrency: None, rate: Some(Rate { requests: 2, period: 60 }) };
    let k = key(3);
    assert!(map.acquire(&k, &rule, 100).unwrap().is_none());
    assert!(map.acquire(&k, &rule, 110).unwrap().is_none());
    assert_eq!(map.acquire(&k, &rule, 120).unwrap_err(), LimitKind::Rate);
    assert!(map.is_active(&k, 120));
    assert!(!map.is_active(&k, 160));
    assert!(map.acquire(&k, &rule, 160).unwrap().is_none());
    assert!(!map.is_active(&key(4), 0));
}

#[test]
fn single_limiters() {
    let mut c = ConcurrencyLimiter::new(1);
    assert!(!c.is_active());
    let p = c.try_acquire().unwrap();
    assert!(c.try_acquire().is_none());
    assert!(c.is_active());
    c.release(p);
    assert!(!c.is_active());
    let both = ConcurrencyLimiters {
        concurrent_requests: ConcurrencyLimiter::new(3),
        concurrent_uploads: c,
    };
    assert!(!both.is_active());

    let mut r = RateLimiter::new(Rate { requests: 1, period: 10 }, 0);
    assert!(r.is_allowed(5));
    assert!(!r.is_allowed(9));
    assert!(r.is_active(9));
    assert!(r.is_allowed(10));
}

#[test]
fn shard_counts_are_powers_of_two() {
    assert_eq!(next_power_of_two(0), 1);
    assert_eq!(next_power_of_two(1), 1);
    assert_eq!(next_power_of_two(5), 8);
    assert_eq!(next_power_of_two(64), 64);
    assert_eq!(shard_amount_with(Some(5), 1), 8);
    assert_eq!(shard_amount_with(None, 3), 8);
    assert_eq!(shard_amount_with(None, 4), 8);
    let n = shard_amount(None);
    assert!(n >= 2 && n.is_power_of_two());
    assert_eq!(shard_amount(Some(100)), 128);
}

#[test]
fn sweep_reclaims_idle_keys_only() {
    let mut map = ThrottleMap::new(16, 4);
    let cap = ThrottleRule { concurrency: Some(1), rate: None };
    let rate = ThrottleRule { concurrency: None, rate: Some(Rate { requests: 1, period: 60 }) };
    let held = map.acquire(&key(1), &cap, 0).unwrap().unwrap();
    let done = map.acquire(&key(2), &cap, 0).unwrap().unwrap();
    map.release(done);
    map.acquire(&key(3), &rate, 0).unwrap();
    map.sweep(10);
    assert!(map.is_active(&key(1), 10));
    assert!(!map.is_active(&key(2), 10));
    assert!(map.is_active(&key(3), 10));
    assert_eq!(map.acquire(&key(1), &cap, 10).unwrap_err(), LimitKind::Concurrency);
    assert_eq!(map.acquire(&key(3), &rate, 10).unwrap_err(), LimitKind::Rate);
    map.sweep(60);
    assert!(!map.is_active(&key(3), 60));
    map.release(held);
    map.sweep(60);
    assert!(map.acquire(&key(1), &cap, 60).unwrap().is_some());
}
