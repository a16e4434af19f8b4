use spam_detection::cache::BoundedCache;
use std::time::{Duration, Instant};

fn key(n: u8) -> Vec<u8> {
    vec![b'k', n]
}

#[test]
fn put_then_get_returns_the_value() {
    let mut cache = BoundedCache::new(60, 4);
    cache.put(key(1), vec![10, 20, 30]);
    assert_eq!(cache.get(&key(1)), Some(vec![10, 20, 30]));
}

#[test]
fn get_of_an_absent_key_returns_nothing() {
    let mut cache = BoundedCache::new(60, 4);
    assert_eq!(cache.get(&key(1)), None);
    cache.put(key(1), vec![1]);
    assert_eq!(cache.get(&key(2)), None);
}

#[test]
fn put_overwrites_the_value_under_the_same_key() {
    let mut cache = BoundedCache::new(60, 4);
    cache.put(key(1), vec![1]);
    cache.put(key(1), vec![2]);
    assert_eq!(cache.get(&key(1)), Some(vec![2]));
}

#[test]
fn one_key_more_than_capacity_evicts_the_first() {
    let capacity = 3usize;
    let mut cache = BoundedCache::new(60, capacity);
    for n in 0..4u8 {
        cache.put(key(n), vec![n]);
    }
    assert_eq!(cache.get(&key(0)), None);
    assert_eq!(cache.get(&key(1)), Some(vec![1]));
    assert_eq!(cache.get(&key(2)), Some(vec![2]));
    assert_eq!(cache.get(&key(3)), Some(vec![3]));
}

#[test]
fn a_lookup_protects_an_entry_from_eviction() {
    let mut cache = BoundedCache::new(60, 2);
    cache.put(key(1), vec![1]);
    cache.put(key(2), vec![2]);
    assert_eq!(cache.get(&key(1)), Some(vec![1]));
    cache.put(key(3), vec![3]);
    assert_eq!(cache.get(&key(2)), None);
    assert_eq!(cache.get(&key(1)), Some(vec![1]));
    assert_eq!(cache.get(&key(3)), Some(vec![3]));
}

#[test]
fn entries_expire_after_their_time_to_live() {
    let mut cache = BoundedCache::new(1, 4);
    cache.put(key(1), vec![1]);
    let stored = Instant::now();
    while stored.elapsed() < Duration::from_millis(1200) {}
    assert_eq!(cache.get(&key(1)), None);
}

#[test]
fn a_cache_without_room_stays_empty() {
    let mut cache = BoundedCache::new(60, 0);
    cache.put(key(1), vec![1]);
    assert_eq!(cache.get(&key(1)), None);
}

#[test]
fn capacity_one_keeps_the_latest_entry() {
    let mut cache = BoundedCache::new(60, 1);
    cache.put(key(1), vec![1]);
    cache.put(key(2), vec![2]);
    assert_eq!(cache.get(&key(1)), None);
    assert_eq!(cache.get(&key(2)), Some(vec![2]));
}
