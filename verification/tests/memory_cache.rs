use daidori_manager::cache::ThumbnailMemoryCache;
use daidori_manager::constants::MEMORY_CACHE_MAX_SIZE;

fn text(s: &str) -> String {
    s.to_string()
}

#[test]
fn new_cache_is_empty() {
    let mut cache = ThumbnailMemoryCache::new(3);
    assert_eq!(cache.len(), 0);
    assert_eq!(cache.get("A"), None);
}

#[test]
fn get_returns_what_was_inserted() {
    let mut cache = ThumbnailMemoryCache::new(3);
    cache.insert(text("A"), text("1"));
    assert_eq!(cache.get("A"), Some(text("1")));
    assert_eq!(cache.get("B"), None);
    assert_eq!(cache.len(), 1);
}

#[test]
fn least_recently_used_is_evicted() {
    let mut cache = ThumbnailMemoryCache::new(2);
    cache.insert(text("A"), text("1"));
    cache.insert(text("B"), text("2"));
    cache.insert(text("C"), text("3"));
    assert_eq!(cache.get("A"), None);
    assert_eq!(cache.get("B"), Some(text("2")));
    assert_eq!(cache.get("C"), Some(text("3")));
    assert_eq!(cache.len(), 2);
}

#[test]
fn get_refreshes_recency() {
    let mut cache = ThumbnailMemoryCache::new(3);
    cache.insert(text("A"), text("1"));
    cache.insert(text("B"), text("2"));
    cache.insert(text("C"), text("3"));
    assert_eq!(cache.get("A"), Some(text("1")));
    cache.insert(text("D"), text("4"));
    assert_eq!(cache.get("B"), None);
    assert_eq!(cache.get("A"), Some(text("1")));
    assert_eq!(cache.get("C"), Some(text("3")));
    assert_eq!(cache.get("D"), Some(text("4")));
    assert_eq!(cache.len(), 3);
}

#[test]
fn insert_of_cached_key_replaces_without_eviction() {
    let mut cache = ThumbnailMemoryCache::new(2);
    cache.insert(text("A"), text("1"));
    cache.insert(text("B"), text("2"));
    cache.insert(text("A"), text("one"));
    assert_eq!(cache.len(), 2);
    assert_eq!(cache.get("B"), Some(text("2")));
    assert_eq!(cache.get("A"), Some(text("one")));
}

#[test]
fn insert_of_cached_key_refreshes_recency() {
    let mut cache = ThumbnailMemoryCache::new(2);
    cache.insert(text("A"), text("1"));
    cache.insert(text("B"), text("2"));
    cache.insert(text("A"), text("one"));
    cache.insert(text("C"), text("3"));
    assert_eq!(cache.get("B"), None);
    assert_eq!(cache.get("A"), Some(text("one")));
    assert_eq!(cache.get("C"), Some(text("3")));
}

#[test]
fn missed_get_changes_nothing() {
    let mut cache = ThumbnailMemoryCache::new(2);
    cache.insert(text("A"), text("1"));
    cache.insert(text("B"), text("2"));
    assert_eq!(cache.get("X"), None);
    cache.insert(text("C"), text("3"));
    assert_eq!(cache.get("A"), None);
    assert_eq!(cache.get("B"), Some(text("2")));
}

#[test]
fn cache_never_exceeds_capacity() {
    let mut cache = ThumbnailMemoryCache::new(MEMORY_CACHE_MAX_SIZE);
    for i in 0..100 {
        cache.insert(format!("key{}", i), format!("value{}", i));
        assert!(cache.len() <= MEMORY_CACHE_MAX_SIZE);
        if i % 3 == 0 {
            let _ = cache.get(&format!("key{}", i / 2));
        }
    }
    assert_eq!(cache.len(), 20);
    assert_eq!(cache.get("key99"), Some(text("value99")));
    assert_eq!(cache.get("key0"), None);
}

#[test]
fn cache_of_one_keeps_the_last() {
    let mut cache = ThumbnailMemoryCache::new(1);
    cache.insert(text("A"), text("1"));
    cache.insert(text("B"), text("2"));
    assert_eq!(cache.len(), 1);
    assert_eq!(cache.get("A"), None);
    assert_eq!(cache.get("B"), Some(text("2")));
}

#[test]
fn cache_of_zero_holds_nothing() {
    let mut cache = ThumbnailMemoryCache::new(0);
    cache.insert(text("A"), text("1"));
    assert_eq!(cache.len(), 0);
    assert_eq!(cache.get("A"), None);
    cache.insert(text("B"), text("2"));
    cache.insert(text("A"), text("3"));
    assert_eq!(cache.len(), 0);
    assert_eq!(cache.get("A"), None);
    assert_eq!(cache.get("B"), None);
}

/// A cache kept as a plain list, least recently used first.
struct PlainList {
    entries: Vec<(String, String)>,
    capacity: usize,
}

impl PlainList {
    fn get(&mut self, key: &str) -> Option<String> {
        let at = self.entries.iter().position(|(k, _)| k == key)?;
        let entry = self.entries.remove(at);
        let value = entry.1.clone();
        self.entries.push(entry);
        Some(value)
    }

    fn insert(&mut self, key: String, value: String) {
        if self.capacity == 0 {
            return;
        }
        if let Some(at) = self.entries.iter().position(|(k, _)| *k == key) {
            self.entries.remove(at);
        } else if self.entries.len() >= self.capacity {
            self.entries.remove(0);
        }
        self.entries.push((key, value));
    }
}

fn agrees_with_plain_list(capacity: usize, keys: u64, steps: u64) {
    let mut cache = ThumbnailMemoryCache::new(capacity);
    let mut plain = PlainList { entries: Vec::new(), capacity };
    let mut seed: u64 = 0x2545_f491_4f6c_dd1d ^ (capacity as u64);
    for step in 0..steps {
        seed = seed.wrapping_mul(6364136223846793005).wrapping_add(1442695040888963407);
        let key = format!("key-{}", (seed >> 33) % keys);
        if (seed >> 20) % 3 == 0 {
            assert_eq!(cache.get(&key), plain.get(&key), "get at step {}", step);
        } else {
            let value = format!("value-{}", step);
            cache.insert(key.clone(), value.clone());
            plain.insert(key, value);
        }
        assert_eq!(cache.len(), plain.entries.len(), "length at step {}", step);
    }
    for (key, value) in plain.entries.clone() {
        assert_eq!(cache.get(&key), Some(value));
    }
}

#[test]
fn small_caches_agree_with_a_plain_list() {
    for capacity in 0..6 {
        agrees_with_plain_list(capacity, 9, 3000);
    }
}

#[test]
fn default_cache_agrees_with_a_plain_list() {
    agrees_with_plain_list(MEMORY_CACHE_MAX_SIZE, 50, 5000);
}

#[test]
fn large_cache_agrees_with_a_plain_list() {
    agrees_with_plain_list(5000, 7000, 20000);
}

#[test]
fn cache_never_holds_more_than_its_capacity() {
    for capacity in 0..8 {
        let mut cache = ThumbnailMemoryCache::new(capacity);
        for i in 0..40 {
            cache.insert(format!("key{}", i % 11), format!("value{}", i));
            assert!(cache.len() <= capacity, "capacity {} after insert {}", capacity, i);
        }
        assert_eq!(cache.len(), capacity);
    }
}

#[test]
fn keys_that_share_a_bucket_are_told_apart() {
    let mut cache = ThumbnailMemoryCache::new(1);
    cache.insert(text("a"), text("1"));
    assert_eq!(cache.get("b"), None);
    cache.insert(text("b"), text("2"));
    assert_eq!(cache.get("a"), None);
    assert_eq!(cache.get("b"), Some(text("2")));
    let mut wide = ThumbnailMemoryCache::new(3);
    wide.insert(text(""), text("empty"));
    wide.insert(text("ページ"), text("page"));
    wide.insert(text("\u{0}"), text("zero"));
    assert_eq!(wide.get(""), Some(text("empty")));
    assert_eq!(wide.get("ページ"), Some(text("page")));
    assert_eq!(wide.get("\u{0}"), Some(text("zero")));
}
