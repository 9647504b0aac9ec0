use webfetch::cache::{Cache, CacheItem};
use webfetch::urls::ResourceUrl;

fn key(text: &str) -> ResourceUrl {
    ResourceUrl::new(String::from(text))
}

#[test]
fn cache_put_then_get_returns_bytes() {
    let mut cache = Cache::new();
    let k = key("https://example.net/a");
    cache.put(&k, CacheItem::new(vec![1, 2, 3], 1000, 500), 1000);
    let hit = cache.get(&k, 1000).expect("entry must be live immediately after put");
    assert_eq!(hit.data, vec![1, 2, 3]);
    assert_eq!(hit.created_at, 1000);
    assert_eq!(hit.ttl, 500);
}

#[test]
fn cache_get_after_ttl_elapsed_is_miss() {
    let mut cache = Cache::new();
    let k = key("https://example.net/a");
    cache.put(&k, CacheItem::new(vec![9, 9], 1000, 500), 1000);
    assert!(cache.get(&k, 1499).is_some());
    assert!(cache.get(&k, 1500).is_none());
    assert!(cache.get(&k, 1499).is_none(), "a stale hit must also evict");
}

#[test]
fn cache_isolation_mutating_returned_bytes() {
    let mut cache = Cache::new();
    let k = key("https://example.net/iso");
    cache.put(&k, CacheItem::new(vec![5, 6, 7], 0, 1000), 0);
    let mut first = cache.get(&k, 1).expect("live");
    first.data[0] = 42;
    first.data.push(99);
    let second = cache.get(&k, 2).expect("still live");
    assert_eq!(second.data, vec![5, 6, 7]);
}

#[test]
fn cache_put_replaces_previous_entry() {
    let mut cache = Cache::new();
    let k = key("https://example.net/r");
    cache.put(&k, CacheItem::new(vec![1], 0, 1000), 0);
    cache.put(&k, CacheItem::new(vec![2], 10, 1000), 10);
    let hit = cache.get(&k, 20).expect("live");
    assert_eq!(hit.data, vec![2]);
    assert_eq!(hit.created_at, 10);
}

#[test]
fn cache_entry_born_stale_is_never_served() {
    let mut cache = Cache::new();
    let k = key("https://example.net/z");
    cache.put(&k, CacheItem::new(vec![1], 100, 0), 100);
    assert!(cache.get(&k, 100).is_none());
}

#[test]
fn cache_clean_up_evicts_eagerly() {
    let mut cache = Cache::new();
    let old = key("https://example.net/old");
    let live = key("https://example.net/live");
    cache.put(&old, CacheItem::new(vec![1], 0, 100), 0);
    cache.put(&live, CacheItem::new(vec![2], 0, 10_000), 0);
    cache.clean_up(200);
    // The swept entry is gone even when asked at an instant where it
    // would still have been live.
    assert!(cache.get(&old, 50).is_none());
    assert!(cache.get(&live, 50).is_some());
}

#[test]
fn cache_item_expired_boundaries() {
    let item = CacheItem::new(vec![], 1000, 500);
    assert!(!item.expired(999));
    assert!(!item.expired(1000));
    assert!(!item.expired(1499));
    assert!(item.expired(1500));
    assert!(item.expired(2000));
    let zero = CacheItem::new(vec![], 1000, 0);
    assert!(zero.expired(1000));
    assert!(!zero.expired(999));
}
