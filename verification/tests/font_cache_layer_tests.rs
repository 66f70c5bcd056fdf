use typf::cache_layers::{FontCache, RenderedGlyph};
use typf::fixed::F26Dot6;
use typf::font_cache::{FontCacheConfig, FontKey, GlyphKey, ShapeKey};
use typf::types::{Direction, PositionedGlyph, ShapingResult};

fn font_key(path: &str) -> FontKey {
    FontKey { path: path.to_string(), face_index: 0 }
}

fn glyph(id: u8) -> RenderedGlyph {
    RenderedGlyph {
        bitmap: vec![id, id, id, 255],
        width: 1,
        height: 1,
        left: F26Dot6::from_int(0),
        top: F26Dot6::from_int(0),
    }
}

fn shaped(advance: i32) -> ShapingResult {
    ShapingResult {
        glyphs: vec![PositionedGlyph {
            id: 1,
            x: F26Dot6::from_int(0),
            y: F26Dot6::from_int(0),
            advance: F26Dot6::from_int(advance),
            cluster: 0,
        }],
        advance_width: F26Dot6::from_int(advance),
        advance_height: F26Dot6::from_int(12),
        direction: Direction::LeftToRight,
    }
}

fn shape_key(text: &str, size: u32, liga: bool) -> ShapeKey {
    ShapeKey {
        text: text.to_string(),
        font_key: font_key("/fonts/test.ttf"),
        size,
        features: vec![("liga".to_string(), liga)],
    }
}

#[test]
fn font_cache_clear_empties_every_layer() {
    let mut cache = FontCache::new(8);
    let face = cache.load_font("/fonts/test.ttf".to_string(), 0, vec![1, 2, 3]);
    assert_eq!(*face.data, vec![1, 2, 3]);
    cache.cache_glyph(GlyphKey::new(font_key("/fonts/test.ttf"), 42, 1200, &[]), glyph(1));
    cache.cache_shaped(shape_key("abc", 1200, true), shaped(10));
    assert!(!cache.is_empty());
    let before = cache.stats();
    assert_eq!((before.mmap_count, before.face_count, before.glyph_count, before.shape_count), (1, 1, 1, 1));
    cache.clear();
    assert!(cache.is_empty());
    assert!(cache.stats().is_empty());
}

#[test]
fn font_cache_finds_loaded_faces_and_files() {
    let mut cache = FontCache::new(8);
    assert!(cache.get_or_load_font("/fonts/a.ttc".to_string(), 0).is_none());
    cache.load_font("/fonts/a.ttc".to_string(), 0, vec![7, 7]);
    let again = cache.get_or_load_font("/fonts/a.ttc".to_string(), 0).expect("cached face");
    assert_eq!(again.face_index, 0);
    // Another face of the same file is made from the cached bytes.
    let second = cache.get_or_load_font("/fonts/a.ttc".to_string(), 1).expect("face from cached file");
    assert_eq!(second.face_index, 1);
    assert_eq!(*second.data, vec![7, 7]);
    let stats = cache.stats();
    assert_eq!((stats.mmap_count, stats.face_count), (1, 2));
}

#[test]
fn font_cache_limits_faces() {
    let config = FontCacheConfig::new().with_max_fonts(2).with_max_glyphs(8).with_max_shapes(16);
    let mut cache = FontCache::with_config(config);
    for face_index in 0..5u32 {
        if cache.get_or_load_font("/fonts/test.ttf".to_string(), face_index).is_none() {
            cache.load_font("/fonts/test.ttf".to_string(), face_index, vec![0u8; 4]);
        }
    }
    let stats = cache.stats();
    assert_eq!(stats.face_count, 2);
    assert!(stats.mmap_count <= 2);
}

#[test]
fn font_cache_disabled_layers_store_nothing() {
    let config = FontCacheConfig::new().with_max_fonts(0).with_max_glyphs(0).with_max_shapes(0);
    let mut cache = FontCache::with_config(config);
    let face = cache.load_font("/fonts/test.ttf".to_string(), 0, vec![9]);
    assert_eq!(*face.data, vec![9]);
    cache.cache_glyph(GlyphKey::new(font_key("/fonts/x.ttf"), 1, 1024, &[]), glyph(1));
    cache.cache_shaped(shape_key("noop", 900, true), shaped(1));
    let stats = cache.stats();
    assert_eq!(stats.face_count, 0);
    assert_eq!(stats.mmap_count, 0);
    assert_eq!(stats.glyph_count, 0);
    assert_eq!(stats.shape_count, 0);
}

#[test]
fn font_cache_glyph_limit_drops_oldest() {
    let config = FontCacheConfig::new().with_max_fonts(4).with_max_glyphs(2).with_max_shapes(4);
    let mut cache = FontCache::with_config(config);
    let key = |id: u32| GlyphKey::new(font_key("/fonts/x.ttf"), id, 1024, &[]);
    cache.cache_glyph(key(1), glyph(1));
    cache.cache_glyph(key(2), glyph(2));
    cache.cache_glyph(key(3), glyph(3));
    assert_eq!(cache.stats().glyph_count, 2);
    assert!(cache.get_glyph(&key(1)).is_none());
    assert_eq!(cache.get_glyph(&key(3)).expect("newest glyph stays").bitmap, vec![3, 3, 3, 255]);
    assert!(cache.get_glyph(&key(9999)).is_none());
    let stats = cache.stats();
    assert_eq!((stats.glyph_hits, stats.glyph_misses), (1, 2));
}

#[test]
fn font_cache_counts_glyph_hits_and_misses() {
    let mut cache = FontCache::new(32);
    for id in 0..8u32 {
        cache.cache_glyph(GlyphKey::new(font_key("/fonts/x.ttf"), id, 1024, &[]), glyph(id as u8));
    }
    let pattern = [true, false, true, true, false, false, true];
    let (mut hits, mut misses) = (0u64, 0u64);
    for (i, hit) in pattern.iter().enumerate() {
        let id = if *hit { i as u32 % 8 } else { 10_000 + i as u32 };
        let found = cache.get_glyph(&GlyphKey::new(font_key("/fonts/x.ttf"), id, 1024, &[]));
        assert_eq!(found.is_some(), *hit);
        if *hit {
            hits += 1;
        } else {
            misses += 1;
        }
    }
    let stats = cache.stats();
    assert_eq!((stats.glyph_hits, stats.glyph_misses), (hits, misses));
}

#[test]
fn font_cache_shapes_are_found_right_after_caching() {
    // A limit of 16 gives sixteen shards of one entry each.
    let config = FontCacheConfig::new().with_max_shapes(16);
    let mut cache = FontCache::with_config(config);
    for i in 0..40u32 {
        cache.cache_shaped(shape_key("t", i, true), shaped(i as i32));
        let found = cache.get_shaped(&shape_key("t", i, true)).expect("just cached");
        assert_eq!(found.advance_width, F26Dot6::from_int(i as i32));
        assert!(cache.stats().shape_count <= 16);
    }
    // Caching under the same key replaces the result.
    cache.cache_shaped(shape_key("t", 39, true), shaped(7));
    assert_eq!(cache.get_shaped(&shape_key("t", 39, true)).expect("cached").advance_width, F26Dot6::from_int(7));
    // A different feature setting is a different key.
    assert!(cache.get_shaped(&shape_key("t", 39, false)).is_none());
    let stats = cache.stats();
    assert_eq!((stats.shape_hits, stats.shape_misses), (41, 1));
}

#[test]
fn font_cache_keeps_every_shape_while_the_shards_have_room() {
    let mut cache = FontCache::new(64);
    let labels = ["alpha", "beta", "gamma", "delta"];
    for (i, label) in labels.iter().enumerate() {
        cache.cache_shaped(shape_key(label, 900 + i as u32, i % 2 == 0), shaped(i as i32));
    }
    assert_eq!(cache.stats().shape_count, 4);
    for (i, label) in labels.iter().enumerate() {
        assert!(cache.get_shaped(&shape_key(label, 900 + i as u32, i % 2 == 0)).is_some());
    }
    assert!(cache.get_shaped(&shape_key("miss", 800, true)).is_none());
    let stats = cache.stats();
    assert_eq!((stats.shape_hits, stats.shape_misses), (4, 1));
}

#[test]
fn glyph_keys_sort_variations_by_tag() {
    let a = GlyphKey::new(
        font_key("/fonts/v.ttf"),
        5,
        1600,
        &[("wght".to_string(), 700), ("opsz".to_string(), 12), ("wdth".to_string(), 75)],
    );
    let b = GlyphKey::new(
        font_key("/fonts/v.ttf"),
        5,
        1600,
        &[("wdth".to_string(), 75), ("wght".to_string(), 700), ("opsz".to_string(), 12)],
    );
    assert_eq!(a, b);
    let v = a.variations.clone().expect("coordinates");
    let tags: Vec<&str> = v.iter().map(|(t, _)| t.as_str()).collect();
    assert_eq!(tags, vec!["opsz", "wdth", "wght"]);
    assert!(GlyphKey::new(font_key("/fonts/v.ttf"), 5, 1600, &[]).variations.is_none());
}
