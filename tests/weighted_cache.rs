use mailgate::cache::WeightedCache;

fn s(v: &str) -> String {
    v.to_string()
}

#[test]
fn eviction_keeps_weight_within_capacity() {
    let mut c: WeightedCache<String, u32> = WeightedCache::new(10);
    c.insert(s("a"), 1, 4);
    c.insert(s("b"), 2, 4);
    assert_eq!(c.total_weight(), 8);
    c.insert(s("c"), 3, 4);
    assert!(c.total_weight() <= 10);
    assert_eq!(c.total_weight(), 8);
    assert_eq!(c.get(&s("a"), 0), None);
    assert_eq!(c.get(&s("b"), 0), Some(&2));
    assert_eq!(c.get(&s("c"), 0), Some(&3));
    assert_eq!(c.len(), 2);
}

#[test]
fn replacing_a_key_keeps_one_entry() {
    let mut c: WeightedCache<String, u32> = WeightedCache::new(10);
    c.insert(s("a"), 1, 6);
    c.insert(s("a"), 9, 6);
    assert_eq!(c.len(), 1);
    assert_eq!(c.total_weight(), 6);
    assert_eq!(c.get(&s("a"), 0), Some(&9));
}

#[test]
fn heavier_than_capacity_is_not_admitted() {
    let mut c: WeightedCache<String, u32> = WeightedCache::new(10);
    c.insert(s("a"), 1, 3);
    c.insert(s("big"), 2, 11);
    assert_eq!(c.get(&s("big"), 0), None);
    assert_eq!(c.get(&s("a"), 0), Some(&1));
    assert_eq!(c.capacity(), 10);
}

#[test]
fn expired_entries_are_absent() {
    let mut c: WeightedCache<String, u32> = WeightedCache::new(100);
    c.insert_with_expiry(s("a"), 1, 1, Some(50));
    c.insert_with_expiry(s("b"), 2, 1, None);
    assert_eq!(c.get(&s("a"), 49), Some(&1));
    assert_eq!(c.get(&s("a"), 50), None);
    assert_eq!(c.get(&s("b"), u64::MAX), Some(&2));
    c.purge_expired(60);
    assert_eq!(c.len(), 1);
    assert_eq!(c.total_weight(), 1);
    c.remove(&s("b"));
    assert_eq!(c.len(), 0);
    assert_eq!(c.total_weight(), 0);
}
