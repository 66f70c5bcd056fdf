//! A bounded cache of rendered glyph bitmaps, keyed by font, glyph, size and
//! variation settings, that counts its hits and misses.  When it is full, an
//! insertion first evicts the older half of its entries.

use vstd::prelude::*;
use std::collections::hash_map::DefaultHasher;
use std::hash::{Hash, Hasher};
use crate::bitmap::GlyphBitmap;

verus! {

/// Identifies a rendered glyph: font (by a hash of its data), glyph ID, size
/// in hundredths of a pixel, and a hash of the variation settings.
#[derive(Debug, Clone, Copy, PartialEq, Eq, Hash, Structural)]
pub struct GlyphCacheKey {
    pub font_id: u64,
    pub glyph_id: u32,
    pub size: u32,
    pub variations_hash: u64,
}

/// The default-hasher digest of a byte string: what `DefaultHasher::new()`
/// gives after hashing the bytes as a slice (`<[u8] as Hash>::hash`, which
/// writes the length and then the bytes).  It depends on the bytes alone,
/// since every hasher made by `new` starts alike; the digest function
/// itself is not stated.
pub uninterp spec fn bytes_digest(data: Seq<u8>) -> u64;

/// `DefaultHasher::new()`, the bytes hashed as a slice, `finish`.
#[verifier::external_body]
pub(crate) fn bytes_digest_of(data: &[u8]) -> (r: u64)
    ensures
        r == bytes_digest(data@),
{
    let mut h = DefaultHasher::new();
    data.hash(&mut h);
    h.finish()
}

/// Variation settings as the digest sees them: axis tag and value.
pub open spec fn setting_views(v: Seq<(String, i32)>) -> Seq<(Seq<char>, i32)> {
    Seq::new(v.len(), |i: int| (v[i].0@, v[i].1))
}

/// The default-hasher digest of variation settings: what
/// `DefaultHasher::new()` gives after each setting's tag and value are
/// hashed in turn (`Hash::hash_slice`, no length written).  It depends on
/// the tags' characters and the values alone; the digest function itself
/// is not stated.
pub uninterp spec fn settings_digest(settings: Seq<(Seq<char>, i32)>) -> u64;

/// `DefaultHasher::new()`, the settings hashed one after another with
/// `Hash::hash_slice`, `finish`.
#[verifier::external_body]
fn settings_digest_of(settings: &[(String, i32)]) -> (r: u64)
    ensures
        r == settings_digest(setting_views(settings@)),
{
    let mut h = DefaultHasher::new();
    Hash::hash_slice(settings, &mut h);
    h.finish()
}

impl GlyphCacheKey {
    /// The key of glyph `glyph_id` of the font whose bytes are `font_data`,
    /// at `size` hundredths of a pixel, under the variation settings given as
    /// axis tags with values in thousandths.  The font enters the key as the
    /// digest of its bytes and the variations as the digest of the settings
    /// in the order given, so keys of the same glyph differ for fonts with
    /// different bytes unless their digests collide.
    pub fn new(font_data: &[u8], glyph_id: u32, size: u32, variations: &[(String, i32)]) -> (r:
        GlyphCacheKey)
        ensures
            r.font_id == bytes_digest(font_data@),
            r.glyph_id == glyph_id,
            r.size == size,
            r.variations_hash == settings_digest(setting_views(variations@)),
    {
        let font_id = bytes_digest_of(font_data);
        let variations_hash = settings_digest_of(variations);
        GlyphCacheKey { font_id, glyph_id, size, variations_hash }
    }
}

/// The view of a cached bitmap.
pub type BitmapView = (u32, u32, i32, i32, Seq<u8>);

/// Index of the last entry with key `k`, or -1.
pub open spec fn key_index(s: Seq<(GlyphCacheKey, BitmapView)>, k: GlyphCacheKey) -> int
    decreases s.len(),
{
    if s.len() == 0 {
        -1
    } else if s.last().0 == k {
        s.len() - 1
    } else {
        key_index(s.drop_last(), k)
    }
}

/// The bitmap cached under `k`, if any.
pub open spec fn lookup(s: Seq<(GlyphCacheKey, BitmapView)>, k: GlyphCacheKey) -> Option<BitmapView> {
    let i = key_index(s, k);
    if i >= 0 {
        Some(s[i].1)
    } else {
        None
    }
}

/// No key occurs twice.
pub open spec fn distinct_keys(s: Seq<(GlyphCacheKey, BitmapView)>) -> bool {
    forall|i: int, j: int| 0 <= i < j < s.len() ==> #[trigger] s[i].0 != #[trigger] s[j].0
}

/// `s` with the entry for `k` replaced by `v`, or `(k, v)` appended.
pub open spec fn upsert(s: Seq<(GlyphCacheKey, BitmapView)>, k: GlyphCacheKey, v: BitmapView) -> Seq<
    (GlyphCacheKey, BitmapView),
> {
    let i = key_index(s, k);
    if i >= 0 {
        s.update(i, (k, v))
    } else {
        s.push((k, v))
    }
}

/// The entries after inserting `(k, v)` into a cache of capacity `cap`: when
/// the cache is full, the older `cap / 2` entries leave first.
pub open spec fn after_insert(
    s: Seq<(GlyphCacheKey, BitmapView)>,
    cap: int,
    k: GlyphCacheKey,
    v: BitmapView,
) -> Seq<(GlyphCacheKey, BitmapView)> {
    if s.len() >= cap {
        upsert(s.skip(cap / 2), k, v)
    } else {
        upsert(s, k, v)
    }
}

/// `key_index` finds exactly the entries with key `k`.
pub proof fn lemma_key_index(s: Seq<(GlyphCacheKey, BitmapView)>, k: GlyphCacheKey)
    ensures
        -1 <= key_index(s, k) < s.len(),
        key_index(s, k) >= 0 ==> s[key_index(s, k)].0 == k,
        key_index(s, k) < 0 ==> forall|i: int| 0 <= i < s.len() ==> #[trigger] s[i].0 != k,
        distinct_keys(s) ==> forall|i: int| 0 <= i < s.len() && #[trigger] s[i].0 == k ==> key_index(s, k) == i,
    decreases s.len(),
{
    if s.len() > 0 {
        lemma_key_index(s.drop_last(), k);
        let t = s.drop_last();
        assert forall|i: int| 0 <= i < t.len() implies #[trigger] t[i] == s[i] by {}
        if key_index(s, k) < 0 {
            assert forall|i: int| 0 <= i < s.len() implies #[trigger] s[i].0 != k by {
                if i < t.len() {
                    assert(t[i].0 != k);
                } else {
                    assert(s[i] == s.last());
                }
            }
        }
        if distinct_keys(s) {
            assert(distinct_keys(t)) by {
                assert forall|i: int, j: int| 0 <= i < j < t.len() implies #[trigger] t[i].0 != #[trigger] t[j].0 by {
                    assert(s[i].0 != s[j].0);
                }
            }
            if s.last().0 != k {
                assert forall|i: int| 0 <= i < s.len() && #[trigger] s[i].0 == k implies key_index(s, k) == i by {
                    assert(i < t.len());
                    assert(t[i].0 == k);
                }
            } else {
                assert forall|i: int| 0 <= i < s.len() && #[trigger] s[i].0 == k implies key_index(s, k) == i by {
                    if i < s.len() - 1 {
                        assert(s[i].0 != s[s.len() - 1].0);
                    }
                }
            }
        }
    }
}

/// Upserting keeps keys distinct, and afterwards `k` finds `v` while every
/// other key finds what it found before.
pub proof fn lemma_upsert(s: Seq<(GlyphCacheKey, BitmapView)>, k: GlyphCacheKey, v: BitmapView)
    requires
        distinct_keys(s),
    ensures
        distinct_keys(upsert(s, k, v)),
        lookup(upsert(s, k, v), k) == Some(v),
        forall|k2: GlyphCacheKey| k2 != k ==> #[trigger] lookup(upsert(s, k, v), k2) == lookup(s, k2),
        upsert(s, k, v).len() == s.len() + (if lookup(s, k) is Some { 0int } else { 1int }),
{
    let u = upsert(s, k, v);
    lemma_key_index(s, k);
    assert(distinct_keys(u)) by {
        assert forall|i: int, j: int| 0 <= i < j < u.len() implies #[trigger] u[i].0 != #[trigger] u[j].0 by {
            if key_index(s, k) < 0 && j == s.len() {
                assert(s[i].0 != k);
            } else if key_index(s, k) >= 0 && (i == key_index(s, k) || j == key_index(s, k)) {
                if i == key_index(s, k) {
                    assert(s[i].0 != s[j].0);
                } else {
                    assert(s[i].0 != s[j].0);
                }
            } else {
                assert(s[i].0 != s[j].0);
            }
        }
    }
    lemma_key_index(u, k);
    if key_index(s, k) >= 0 {
        assert(u[key_index(s, k)].0 == k);
    } else {
        assert(u[s.len() as int].0 == k);
    }
    assert forall|k2: GlyphCacheKey| k2 != k implies #[trigger] lookup(u, k2) == lookup(s, k2) by {
        lemma_key_index(s, k2);
        lemma_key_index(u, k2);
        if key_index(s, k2) >= 0 {
            let i = key_index(s, k2);
            assert(u[i] == s[i]);
            assert(u[i].0 == k2);
        } else if key_index(u, k2) >= 0 {
            let i = key_index(u, k2);
            assert(u[i].0 == k2);
            if i < s.len() {
                assert(u[i] == s[i]);
            }
        }
    }
}

/// Dropping a prefix keeps keys distinct.
pub proof fn lemma_skip_distinct(s: Seq<(GlyphCacheKey, BitmapView)>, n: int)
    requires
        distinct_keys(s),
        0 <= n <= s.len(),
    ensures
        distinct_keys(s.skip(n)),
{
    let t = s.skip(n);
    assert forall|i: int, j: int| 0 <= i < j < t.len() implies #[trigger] t[i].0 != #[trigger] t[j].0 by {
        assert(t[i] == s[i + n]);
        assert(t[j] == s[j + n]);
    }
}

/// Reading a key right after inserting it gives back the inserted bitmap,
/// whether or not the insertion evicted entries.
pub proof fn lemma_get_after_insert(
    s: Seq<(GlyphCacheKey, BitmapView)>,
    cap: int,
    k: GlyphCacheKey,
    v: BitmapView,
)
    requires
        distinct_keys(s),
        cap >= 0,
    ensures
        lookup(after_insert(s, cap, k, v), k) == Some(v),
        distinct_keys(after_insert(s, cap, k, v)),
{
    if s.len() >= cap {
        lemma_skip_distinct(s, cap / 2);
        lemma_upsert(s.skip(cap / 2), k, v);
    } else {
        lemma_upsert(s, k, v);
    }
}

/// Inserting into a cache that is not full touches no other key.
pub proof fn lemma_insert_keeps_others(
    s: Seq<(GlyphCacheKey, BitmapView)>,
    cap: int,
    k: GlyphCacheKey,
    v: BitmapView,
    k2: GlyphCacheKey,
)
    requires
        distinct_keys(s),
        s.len() < cap,
        k2 != k,
    ensures
        lookup(after_insert(s, cap, k, v), k2) == lookup(s, k2),
{
    lemma_upsert(s, k, v);
}

/// A cache of capacity at least two never holds more entries than its
/// capacity.
pub proof fn lemma_insert_respects_capacity(
    s: Seq<(GlyphCacheKey, BitmapView)>,
    cap: int,
    k: GlyphCacheKey,
    v: BitmapView,
)
    requires
        distinct_keys(s),
        cap >= 2,
        s.len() <= cap,
    ensures
        after_insert(s, cap, k, v).len() <= cap,
{
    if s.len() >= cap {
        lemma_skip_distinct(s, cap / 2);
        lemma_upsert(s.skip(cap / 2), k, v);
    } else {
        lemma_upsert(s, k, v);
    }
}

/// The entries of a cache as keys and bitmap views.
pub open spec fn entry_views(s: Seq<(GlyphCacheKey, GlyphBitmap)>) -> Seq<(GlyphCacheKey, BitmapView)> {
    Seq::new(s.len(), |i: int| (s[i].0, s[i].1@))
}

/// Glyph bitmaps cached by key, oldest entry first, with hit and miss counts.
pub struct GlyphCache {
    entries: Vec<(GlyphCacheKey, GlyphBitmap)>,
    capacity: usize,
    hits: u64,
    misses: u64,
}

/// A snapshot of a cache's counters.
#[derive(Debug, Clone, Copy, PartialEq, Eq, Structural)]
pub struct GlyphCacheStats {
    pub size: usize,
    pub capacity: usize,
    pub hits: u64,
    pub misses: u64,
}

impl View for GlyphCache {
    type V = Seq<(GlyphCacheKey, BitmapView)>;

    closed spec fn view(&self) -> Seq<(GlyphCacheKey, BitmapView)> {
        entry_views(self.entries@)
    }
}

impl GlyphCache {
    /// The capacity the cache was made with.
    pub closed spec fn cap(&self) -> nat {
        self.capacity as nat
    }

    /// The number of lookups that found their key.
    pub closed spec fn hit_count(&self) -> nat {
        self.hits as nat
    }

    /// The number of lookups that did not.
    pub closed spec fn miss_count(&self) -> nat {
        self.misses as nat
    }

    /// No key is cached twice.
    pub open spec fn wf(&self) -> bool {
        distinct_keys(self@)
    }

    /// An empty cache of the given capacity.
    pub fn new(capacity: usize) -> (r: GlyphCache)
        ensures
            r.wf(),
            r@ == Seq::<(GlyphCacheKey, BitmapView)>::empty(),
            r.cap() == capacity,
            r.hit_count() == 0,
            r.miss_count() == 0,
    {
        let r = GlyphCache { entries: Vec::new(), capacity, hits: 0, misses: 0 };
        assert(r@ =~= Seq::<(GlyphCacheKey, BitmapView)>::empty());
        r
    }

    /// Look a key up: a copy of its bitmap, counted as a hit, or `None`,
    /// counted as a miss.
    pub fn get(&mut self, key: &GlyphCacheKey) -> (r: Option<GlyphBitmap>)
        requires
            old(self).wf(),
            old(self).hit_count() < u64::MAX,
            old(self).miss_count() < u64::MAX,
        ensures
            final(self).wf(),
            final(self)@ == old(self)@,
            final(self).cap() == old(self).cap(),
            match lookup(old(self)@, *key) {
                Some(v) => {
                    &&& r matches Some(b) && b@ == v
                    &&& final(self).hit_count() == old(self).hit_count() + 1
                    &&& final(self).miss_count() == old(self).miss_count()
                },
                None => {
                    &&& r is None
                    &&& final(self).hit_count() == old(self).hit_count()
                    &&& final(self).miss_count() == old(self).miss_count() + 1
                },
            },
    {
        let ghost s = self@;
        proof {
            lemma_key_index(s, *key);
        }
        let n = self.entries.len();
        let mut i: usize = 0;
        while i < n
            invariant
                n == self.entries@.len(),
                s == entry_views(self.entries@),
                s == old(self)@,
                distinct_keys(s),
                self.capacity == old(self).capacity,
                self.hits == old(self).hits,
                self.misses == old(self).misses,
                self.hits < u64::MAX,
                self.misses < u64::MAX,
                0 <= i <= n,
                forall|j: int| 0 <= j < i ==> #[trigger] s[j].0 != *key,
            decreases n - i,
        {
            if self.entries[i].0 == *key {
                let b = self.entries[i].1.duplicate();
                self.hits = self.hits + 1;
                proof {
                    assert(s[i as int].0 == *key);
                    lemma_key_index(s, *key);
                }
                return Some(b);
            }
            proof {
                assert(s[i as int].0 != *key);
            }
            i = i + 1;
        }
        self.misses = self.misses + 1;
        None
    }

    /// Cache `bitmap` under `key`, replacing what was cached under it.  When
    /// the cache holds `capacity` entries or more, the older half of the
    /// capacity (`capacity / 2` entries) is evicted first.
    pub fn insert(&mut self, key: GlyphCacheKey, bitmap: GlyphBitmap)
        requires
            old(self).wf(),
        ensures
            final(self).wf(),
            final(self)@ == after_insert(old(self)@, old(self).cap() as int, key, bitmap@),
            final(self).cap() == old(self).cap(),
            final(self).hit_count() == old(self).hit_count(),
            final(self).miss_count() == old(self).miss_count(),
    {
        let ghost s0 = self@;
        let ghost v = bitmap@;
        if self.entries.len() >= self.capacity {
            let half = self.capacity / 2;
            let rest = self.entries.split_off(half);
            self.entries = rest;
            proof {
                assert(self@ =~= s0.skip(half as int));
            }
        }
        let ghost s1 = self@;
        proof {
            if s0.len() >= self.capacity {
                lemma_skip_distinct(s0, (self.capacity / 2) as int);
            }
            assert(distinct_keys(s1));
            lemma_key_index(s1, key);
            lemma_get_after_insert(s0, self.capacity as int, key, v);
            lemma_upsert(s1, key, v);
        }
        let n = self.entries.len();
        let mut i: usize = 0;
        while i < n
            invariant
                n == self.entries@.len(),
                s1 == entry_views(self.entries@),
                v == bitmap@,
                distinct_keys(s1),
                after_insert(old(self)@, old(self).cap() as int, key, v) == upsert(s1, key, v),
                distinct_keys(upsert(s1, key, v)),
                self.capacity == old(self).capacity,
                self.hits == old(self).hits,
                self.misses == old(self).misses,
                0 <= i <= n,
                forall|j: int| 0 <= j < i ==> #[trigger] s1[j].0 != key,
            decreases n - i,
        {
            if self.entries[i].0 == key {
                proof {
                    assert(s1[i as int].0 == key);
                    lemma_key_index(s1, key);
                }
                self.entries.set(i, (key, bitmap));
                proof {
                    assert(self@ =~= s1.update(i as int, (key, v)));
                }
                return;
            }
            proof {
                assert(s1[i as int].0 != key);
            }
            i = i + 1;
        }
        self.entries.push((key, bitmap));
        proof {
            assert(self@ =~= s1.push((key, v)));
        }
    }

    /// Size, capacity, hits and misses.
    pub fn stats(&self) -> (r: GlyphCacheStats)
        ensures
            r.size == self@.len(),
            r.capacity == self.cap(),
            r.hits == self.hit_count(),
            r.misses == self.miss_count(),
    {
        GlyphCacheStats {
            size: self.entries.len(),
            capacity: self.capacity,
            hits: self.hits,
            misses: self.misses,
        }
    }

    /// Drop every entry; the counters are kept.
    pub fn clear(&mut self)
        ensures
            final(self).wf(),
            final(self)@ == Seq::<(GlyphCacheKey, BitmapView)>::empty(),
            final(self).cap() == old(self).cap(),
            final(self).hit_count() == old(self).hit_count(),
            final(self).miss_count() == old(self).miss_count(),
    {
        self.entries.clear();
        assert(self@ =~= Seq::<(GlyphCacheKey, BitmapView)>::empty());
    }
}

} // verus!
