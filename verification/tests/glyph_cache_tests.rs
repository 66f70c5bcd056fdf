use typf::bitmap::GlyphBitmap;
use typf::glyph_cache::{GlyphCache, GlyphCacheKey};

fn size(px: f32) -> u32 {
    (px * 100.0) as u32
}

fn var(tag: &str, value: f32) -> (String, i32) {
    (tag.to_string(), (value * 1000.0) as i32)
}

fn bitmap() -> GlyphBitmap {
    GlyphBitmap { width: 10, height: 12, left: 1, top: 10, data: vec![128; 120] }
}

#[test]
fn test_cache_key_creation() {
    let key1 = GlyphCacheKey::new(b"font1", 65, size(16.0), &[]);
    let key2 = GlyphCacheKey::new(b"font1", 65, size(16.0), &[]);
    let key3 = GlyphCacheKey::new(b"font2", 65, size(16.0), &[]);
    assert_eq!(key1, key2);
    assert_ne!(key1, key3);
}

#[test]
fn test_variations_affect_key() {
    let key1 = GlyphCacheKey::new(b"font", 65, size(16.0), &[var("wght", 400.0)]);
    let key2 = GlyphCacheKey::new(b"font", 65, size(16.0), &[var("wght", 700.0)]);
    let key3 = GlyphCacheKey::new(b"font", 65, size(16.0), &[]);
    assert_ne!(key1, key2, "Different weights should have different keys");
    assert_ne!(key1, key3, "With/without variations should differ");
}

#[test]
fn test_cache_insert_and_get() {
    let mut cache = GlyphCache::new(100);
    let key = GlyphCacheKey::new(b"font", 65, size(16.0), &[]);
    cache.insert(key, bitmap());
    let cached = cache.get(&key);
    assert!(cached.is_some());
    assert_eq!(cached.unwrap().width, 10);
}

#[test]
fn test_cache_miss() {
    let mut cache = GlyphCache::new(100);
    let key = GlyphCacheKey::new(b"font", 65, size(16.0), &[]);
    assert!(cache.get(&key).is_none());
}

#[test]
fn test_cache_eviction() {
    let mut cache = GlyphCache::new(3);
    for i in 0..5 {
        let key = GlyphCacheKey::new(b"font", i, size(16.0), &[]);
        cache.insert(key, bitmap());
    }
    let stats = cache.stats();
    assert!(stats.size <= 3, "Cache should not exceed capacity");
}

#[test]
fn cache_counts_hits_and_misses() {
    let mut cache = GlyphCache::new(100);
    let key = GlyphCacheKey::new(b"font", 65, size(16.0), &[]);
    cache.get(&key);
    cache.insert(key, bitmap());
    cache.get(&key);
    cache.get(&key);
    let stats = cache.stats();
    assert_eq!(stats.misses, 1);
    assert_eq!(stats.hits, 2);
    assert_eq!(stats.size, 1);
    assert_eq!(stats.capacity, 100);
}

#[test]
fn key_records_glyph_and_size() {
    let key = GlyphCacheKey::new(b"font", 7, size(12.5), &[]);
    assert_eq!(key.glyph_id, 7);
    assert_eq!(key.size, 1250);
}

#[test]
fn insert_replaces_existing_entry() {
    let mut cache = GlyphCache::new(10);
    let key = GlyphCacheKey::new(b"font", 1, size(16.0), &[]);
    cache.insert(key, bitmap());
    let other = GlyphBitmap { width: 2, height: 1, left: 0, top: 1, data: vec![1, 2] };
    cache.insert(key, other.clone());
    assert_eq!(cache.stats().size, 1);
    assert_eq!(cache.get(&key), Some(other));
}

#[test]
fn eviction_drops_the_older_half() {
    let mut cache = GlyphCache::new(4);
    let keys: Vec<GlyphCacheKey> =
        (0..5).map(|i| GlyphCacheKey::new(b"font", i, size(16.0), &[])).collect();
    for k in &keys {
        cache.insert(*k, bitmap());
    }
    // The fifth insertion found four entries and evicted the first two.
    assert_eq!(cache.stats().size, 3);
    assert!(cache.get(&keys[0]).is_none());
    assert!(cache.get(&keys[1]).is_none());
    assert!(cache.get(&keys[2]).is_some());
    assert!(cache.get(&keys[4]).is_some());
}

#[test]
fn clear_keeps_counters() {
    let mut cache = GlyphCache::new(4);
    let key = GlyphCacheKey::new(b"font", 1, size(16.0), &[]);
    cache.insert(key, bitmap());
    cache.get(&key);
    cache.clear();
    assert!(cache.get(&key).is_none());
    let stats = cache.stats();
    assert_eq!(stats.size, 0);
    assert_eq!(stats.hits, 1);
    assert_eq!(stats.misses, 1);
}

#[test]
fn test_cache_stats() {
    let mut cache = GlyphCache::new(100);
    let key = GlyphCacheKey::new(b"font", 65, size(16.0), &[]);

    // Miss
    cache.get(&key);

    // Insert
    cache.insert(key, bitmap());

    // Hits
    cache.get(&key);
    cache.get(&key);

    let stats = cache.stats();
    assert_eq!(stats.misses, 1);
    assert_eq!(stats.hits, 2);
    let hit_rate = stats.hits as f64 / (stats.hits + stats.misses) as f64;
    assert!(hit_rate > 0.6);
}
