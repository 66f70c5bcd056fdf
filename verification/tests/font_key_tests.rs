use typf::font_cache_key::{str_lt, FontCacheKey};

fn size(px: f32) -> u32 {
    (px * 100.0) as u32
}

fn var(tag: &str, value: f32) -> (String, i32) {
    (tag.to_string(), (value * 10.0).round() as i32)
}

#[test]
fn lib_test_font_cache_key() {
    let key1 = FontCacheKey::new(b"font1", size(16.0), &[]);
    let key2 = FontCacheKey::new(b"font1", size(16.0), &[]);
    let key3 = FontCacheKey::new(b"font2", size(16.0), &[]);
    let key4 = FontCacheKey::new(b"font1", size(24.0), &[]);

    assert_eq!(key1, key2);
    assert_ne!(key1, key3);
    assert_ne!(key1, key4);
}

#[test]
fn test_font_cache_key_with_variations() {
    let vars = vec![var("wght", 700.0), var("wdth", 100.0)];
    let key1 = FontCacheKey::new(b"font", size(16.0), &vars);

    // Order does not matter: the settings are sorted.
    let vars_reversed = vec![var("wdth", 100.0), var("wght", 700.0)];
    let key2 = FontCacheKey::new(b"font", size(16.0), &vars_reversed);

    assert_eq!(key1, key2);
}

#[test]
fn variation_text_is_sorted_and_formatted() {
    let vars = vec![var("wght", 700.0), var("opsz", -1.5), var("wdth", 87.5)];
    let key = FontCacheKey::new(b"font", 1600, &vars);
    assert_eq!(key.variations, "opsz=-1.5,wdth=87.5,wght=700.0");
    assert_eq!(key.size, 1600);
    assert_eq!(FontCacheKey::new(b"font", 1, &[]).variations, "");
}

#[test]
fn equal_tags_keep_their_order() {
    let key = FontCacheKey::new(b"f", 1, &[("b".to_string(), 2), ("a".to_string(), 10), ("b".to_string(), 1)]);
    assert_eq!(key.variations, "a=1.0,b=0.2,b=0.1");
}

#[test]
fn tags_compare_by_code_point() {
    assert!(str_lt("wdth", "wght"));
    assert!(!str_lt("wght", "wdth"));
    assert!(str_lt("ab", "abc"));
    assert!(!str_lt("abc", "abc"));
    assert!(str_lt("Z", "a"));
}
