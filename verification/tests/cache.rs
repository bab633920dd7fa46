use bexp::capsule::cache::{CapsuleCache, DEFAULT_MAX_ENTRIES, DEFAULT_TTL_SECS};

const SEC: u64 = 1_000_000_000;

#[test]
fn get_returns_what_put_stored() {
    let mut cache = CapsuleCache::new(10, 60);
    assert_eq!(cache.get("q", 100, "debug", 1), None);
    cache.put("q", 100, "debug", 1, "capsule".to_string());
    assert_eq!(cache.get("q", 100, "debug", 1), Some("capsule".to_string()));
    // any differing key part misses
    assert_eq!(cache.get("q", 101, "debug", 1), None);
    assert_eq!(cache.get("q", 100, "explore", 1), None);
    assert_eq!(cache.get("q", 100, "debug", 2), None);
    assert_eq!(cache.get("Q", 100, "debug", 1), None);
}

#[test]
fn entries_expire_after_ttl() {
    let mut cache = CapsuleCache::new(10, 5);
    cache.put_at("q", 1, "modify", 0, "r".to_string(), 0);
    assert_eq!(cache.get_at("q", 1, "modify", 0, 4 * SEC), Some("r".to_string()));
    assert_eq!(cache.get_at("q", 1, "modify", 0, 5 * SEC - 1), Some("r".to_string()));
    assert_eq!(cache.get_at("q", 1, "modify", 0, 5 * SEC), None);
}

#[test]
fn put_replaces_and_evicts_oldest_at_capacity() {
    let mut cache = CapsuleCache::new(2, 100);
    cache.put_at("a", 1, "debug", 0, "A".to_string(), 1);
    cache.put_at("b", 1, "debug", 0, "B".to_string(), 2);
    cache.put_at("a", 1, "debug", 0, "A2".to_string(), 3);
    assert_eq!(cache.get_at("a", 1, "debug", 0, 4), Some("A2".to_string()));
    assert_eq!(cache.get_at("b", 1, "debug", 0, 4), Some("B".to_string()));
    // full: the oldest ("b", stored at 2) makes room
    cache.put_at("c", 1, "debug", 0, "C".to_string(), 5);
    assert_eq!(cache.get_at("b", 1, "debug", 0, 6), None);
    assert_eq!(cache.get_at("a", 1, "debug", 0, 6), Some("A2".to_string()));
    assert_eq!(cache.get_at("c", 1, "debug", 0, 6), Some("C".to_string()));
}

#[test]
fn default_cache_settings() {
    let mut cache = CapsuleCache::default();
    assert_eq!(DEFAULT_MAX_ENTRIES, 100);
    assert_eq!(DEFAULT_TTL_SECS, 300);
    cache.put("x", 1, "explore", 3, "X".to_string());
    assert_eq!(cache.get("x", 1, "explore", 3), Some("X".to_string()));
}

#[test]
fn zero_lifetime_never_serves() {
    let mut cache = CapsuleCache::new(4, 0);
    cache.put_at("q", 1, "debug", 0, "r".to_string(), 10);
    assert_eq!(cache.get_at("q", 1, "debug", 0, 10), None);
    assert_eq!(cache.get("q", 1, "debug", 0), None);
}
