//! The layered font cache: font files by path, font faces by path and
//! index, shaping results (in sixteen shards by key digest, least recently
//! used leaving first) and rendered
//! glyphs, each layer bounded by its limit, with hit and miss counts for
//! glyphs and shaping results.

use vstd::prelude::*;
use std::collections::hash_map::DefaultHasher;
use std::hash::{Hash, Hasher};
use std::sync::Arc;
use crate::assoc::{
    distinct_keys, entry_views, find_key, keep_newest, keep_newest_entries, lemma_keep_newest,
    lemma_key_index, lemma_touch, lemma_upsert, lemma_without, lookup, move_to_end, remove_entry,
    touch, upsert, upsert_entry, without,
};
use crate::fixed::F26Dot6;
use crate::font_cache::{CacheStats, FontCacheConfig, FontKey, GlyphKey, ShapeKey};
use crate::types::ShapingResult;

verus! {

/// A font face: the bytes of its font file (shared with the file layer)
/// and its index in the file.
pub struct FontFace {
    pub data: Arc<Vec<u8>>,
    pub face_index: u32,
}

/// A rendered glyph: RGBA pixels, size, and bearings in 26.6 pixels.
pub struct RenderedGlyph {
    pub bitmap: Vec<u8>,
    pub width: u32,
    pub height: u32,
    pub left: F26Dot6,
    pub top: F26Dot6,
}

/// Another handle on the same shared value.
#[verifier::external_body]
fn share<T>(a: &Arc<T>) -> (r: Arc<T>)
    ensures
        r == *a,
{
    Arc::clone(a)
}

/// The entries after storing `(k, v)` in a layer limited to `limit`
/// entries: nothing is stored when the limit is 0, else the value replaces
/// the key's old one (or is added) and the oldest entries leave.
pub open spec fn store<A, B>(s: Seq<(A, B)>, k: A, v: B, limit: int) -> Seq<(A, B)> {
    if limit > 0 {
        keep_newest(upsert(s, k, v), limit)
    } else {
        s
    }
}

/// The entries after putting `(k, v)` into a least-recently-used list of
/// capacity `cap`: the entry becomes the most recent and the least recent
/// leave while the list is over capacity.
pub open spec fn lru_put<A, B>(s: Seq<(A, B)>, k: A, v: B, cap: int) -> Seq<(A, B)> {
    keep_newest(without(s, k).push((k, v)), cap)
}

/// The number of shaping results kept for a limit of `max_shapes`: the
/// shaping cache has sixteen shards of `max(1, max_shapes / 16)` entries
/// (a limit of 0 counts as 1 here).
pub open spec fn shape_capacity(max_shapes: int) -> int {
    let total = if max_shapes > 1 {
        max_shapes
    } else {
        1
    };
    let per = if total / 16 > 1 {
        total / 16
    } else {
        1
    };
    16 * per
}

/// The entries of each shard of the shaping layer: the result's capacity
/// is `max(1, max(1, max_shapes) / 16)`.
pub open spec fn shard_capacity(max_shapes: int) -> int {
    shape_capacity(max_shapes) / 16
}

/// The digest of a shaping key that picks its shard.
pub uninterp spec fn shape_key_hash(key: (Seq<char>, (Seq<char>, u32), u32, Seq<(Seq<char>, bool)>)) -> u64;

/// The shard of a shaping key: its digest modulo 16.
pub open spec fn shard_of(key: (Seq<char>, (Seq<char>, u32), u32, Seq<(Seq<char>, bool)>)) -> int {
    (shape_key_hash(key) % 16) as int
}

/// std's `DefaultHasher::new()` fed the key through its derived `Hash`,
/// then `finish`.  The hasher is unkeyed (every instance made by `new`
/// hashes alike) and the derived `Hash` reads the key's text, font path,
/// face index, size and features alone, so the digest is a function of the
/// key's view; what that function is, is not stated.
#[verifier::external_body]
fn hash_shape_key(key: &ShapeKey) -> (r: u64)
    ensures
        r == shape_key_hash(key@),
{
    let mut h = DefaultHasher::new();
    key.hash(&mut h);
    h.finish()
}

/// The number of entries of the first `n` shards.
pub open spec fn total_len<A>(shards: Seq<Seq<A>>, n: int) -> int
    decreases n,
{
    if n <= 0 {
        0
    } else {
        total_len(shards, n - 1) + shards[n - 1].len()
    }
}

/// Sixteen empty shards.
fn empty_shards() -> (r: Vec<Vec<(ShapeKey, Arc<ShapingResult>)>>)
    ensures
        r@.len() == 16,
        forall|i: int| 0 <= i < 16 ==> (#[trigger] r@[i])@.len() == 0,
{
    let mut v: Vec<Vec<(ShapeKey, Arc<ShapingResult>)>> = Vec::new();
    let mut i: usize = 0;
    while i < 16
        invariant
            0 <= i <= 16,
            v@.len() == i,
            forall|j: int| 0 <= j < i ==> (#[trigger] v@[j])@.len() == 0,
        decreases 16 - i,
    {
        v.push(Vec::new());
        i = i + 1;
    }
    v
}

/// A counter after one more event (counters wrap around).
pub open spec fn bump(x: u64) -> u64 {
    if x == u64::MAX {
        0
    } else {
        (x + 1) as u64
    }
}

fn bump_exec(x: u64) -> (r: u64)
    ensures
        r == bump(x),
{
    if x == u64::MAX {
        0
    } else {
        x + 1
    }
}

/// The cache layers of the text engine.
pub struct FontCache {
    config: FontCacheConfig,
    shape_cap: usize,
    mmap_cache: Vec<(String, Arc<Vec<u8>>)>,
    face_cache: Vec<(FontKey, Arc<FontFace>)>,
    shape_cache: Vec<Vec<(ShapeKey, Arc<ShapingResult>)>>,
    glyph_cache: Vec<(GlyphKey, Arc<RenderedGlyph>)>,
    glyph_hits: u64,
    glyph_misses: u64,
    shape_hits: u64,
    shape_misses: u64,
}

impl FontCache {
    /// The limits.
    pub closed spec fn config_spec(&self) -> FontCacheConfig {
        self.config
    }

    /// Font files by path, oldest first.
    pub closed spec fn files(&self) -> Seq<(Seq<char>, Arc<Vec<u8>>)> {
        entry_views(self.mmap_cache@)
    }

    /// Font faces by path and index, oldest first.
    pub closed spec fn faces(&self) -> Seq<((Seq<char>, u32), Arc<FontFace>)> {
        entry_views(self.face_cache@)
    }

    /// The shards of the shaping layer: shard `i` holds results whose key's
    /// shard is `i`, least recently used first.
    pub closed spec fn shards(&self) -> Seq<
        Seq<((Seq<char>, (Seq<char>, u32), u32, Seq<(Seq<char>, bool)>), Arc<ShapingResult>)>,
    > {
        Seq::new(self.shape_cache@.len(), |i: int| entry_views(self.shape_cache@[i]@))
    }

    /// Rendered glyphs by key, oldest first.
    pub closed spec fn glyphs(&self) -> Seq<
        (((Seq<char>, u32), u32, u32, Option<Seq<(Seq<char>, u32)>>), Arc<RenderedGlyph>),
    > {
        entry_views(self.glyph_cache@)
    }

    /// Hits and misses of glyph lookups, then of shaping lookups.
    pub closed spec fn counters(&self) -> (u64, u64, u64, u64) {
        (self.glyph_hits, self.glyph_misses, self.shape_hits, self.shape_misses)
    }

    /// No layer holds more entries than its limit allows: at most
    /// `max_fonts` files and faces, `max_glyphs` glyphs and the shaping
    /// capacity of shaping results, and none of a layer whose limit is 0.
    pub open spec fn within_limits(&self) -> bool {
        let (max_fonts, max_glyphs, max_shapes) = self.config_spec().limits();
        &&& self.files().len() <= max_fonts
        &&& self.faces().len() <= max_fonts
        &&& self.glyphs().len() <= max_glyphs
        &&& self.shards().len() == 16
        &&& forall|i: int|
            0 <= i < 16 ==> #[trigger] self.shards()[i].len() <= shard_capacity(max_shapes as int)
        &&& max_shapes == 0 ==> forall|i: int| 0 <= i < 16 ==> #[trigger] self.shards()[i].len() == 0
    }

    /// Each layer holds each key once and no more entries than it may.
    pub closed spec fn wf(&self) -> bool {
        let (max_fonts, max_glyphs, max_shapes) = self.config.limits();
        &&& self.shape_cap == shard_capacity(max_shapes as int)
        &&& self.shape_cap >= 1
        &&& 16 * self.shape_cap <= usize::MAX
        &&& self.shape_cache@.len() == 16
        &&& distinct_keys(self.files())
        &&& distinct_keys(self.faces())
        &&& forall|i: int| 0 <= i < 16 ==> distinct_keys(#[trigger] self.shards()[i])
        &&& distinct_keys(self.glyphs())
        &&& self.files().len() <= max_fonts
        &&& self.faces().len() <= max_fonts
        &&& self.glyphs().len() <= max_glyphs
        &&& forall|i: int|
            0 <= i < 16 ==> #[trigger] self.shards()[i].len() <= shard_capacity(max_shapes as int)
        &&& max_shapes == 0 ==> forall|i: int| 0 <= i < 16 ==> #[trigger] self.shards()[i].len() == 0
    }

    /// A cache with the default limits but room for `cache_size` shaping
    /// results.
    pub fn new(cache_size: usize) -> (r: FontCache)
        ensures
            r.wf(),
            r.within_limits(),
            r.config_spec().limits() == (512usize, 2048usize, cache_size),
            r.files().len() == 0,
            r.faces().len() == 0,
            r.shards().len() == 16,
            forall|i: int| 0 <= i < 16 ==> #[trigger] r.shards()[i].len() == 0,
            r.glyphs().len() == 0,
            r.counters() == (0u64, 0u64, 0u64, 0u64),
    {
        FontCache::with_config(FontCacheConfig::new().with_max_shapes(cache_size))
    }

    /// An empty cache with the given limits.
    pub fn with_config(config: FontCacheConfig) -> (r: FontCache)
        ensures
            r.wf(),
            r.within_limits(),
            r.config_spec() == config,
            r.files().len() == 0,
            r.faces().len() == 0,
            r.shards().len() == 16,
            forall|i: int| 0 <= i < 16 ==> #[trigger] r.shards()[i].len() == 0,
            r.glyphs().len() == 0,
            r.counters() == (0u64, 0u64, 0u64, 0u64),
    {
        let m = config.max_shapes();
        let total: usize = if m > 1 {
            m
        } else {
            1
        };
        let per: usize = if total / 16 > 1 {
            total / 16
        } else {
            1
        };
        assert(16 * per <= usize::MAX) by (nonlinear_arith)
            requires
                per == 1 || per == total / 16,
                total <= usize::MAX,
        ;
        let r = FontCache {
            config,
            shape_cap: per,
            mmap_cache: Vec::new(),
            face_cache: Vec::new(),
            shape_cache: empty_shards(),
            glyph_cache: Vec::new(),
            glyph_hits: 0,
            glyph_misses: 0,
            shape_hits: 0,
            shape_misses: 0,
        };
        proof {
            assert(r.files() =~= Seq::empty());
            assert(r.faces() =~= Seq::empty());
            assert(r.glyphs() =~= Seq::empty());
            assert forall|i: int| 0 <= i < 16 implies #[trigger] r.shards()[i] =~= Seq::empty() by {
                assert(r.shape_cache@[i]@.len() == 0);
            }
            assert(shard_capacity(m as int) == per);
        }
        r
    }

    /// The face for `path` and `face_index` from the cache: the cached face,
    /// or, when the font file is cached, a new face over its bytes, which
    /// the face layer then stores.  `None` when the file must be read (see
    /// `load_font`); the cache is then unchanged.
    pub fn get_or_load_font(&mut self, path: String, face_index: u32) -> (r: Option<Arc<FontFace>>)
        requires
            old(self).wf(),
        ensures
            final(self).wf(),
            final(self).within_limits(),
            final(self).config_spec() == old(self).config_spec(),
            final(self).files() == old(self).files(),
            final(self).shards() == old(self).shards(),
            final(self).glyphs() == old(self).glyphs(),
            final(self).counters() == old(self).counters(),
            match lookup(old(self).faces(), (path@, face_index)) {
                Some(f) => r == Some(f) && final(self).faces() == old(self).faces(),
                None => match lookup(old(self).files(), path@) {
                    Some(data) => r matches Some(f) && f.data == data && f.face_index == face_index
                        && final(self).faces() == store(
                        old(self).faces(),
                        (path@, face_index),
                        f,
                        old(self).config_spec().limits().0 as int,
                    ),
                    None => r is None && final(self).faces() == old(self).faces(),
                },
            },
    {
        let ghost sh0 = self.shards();
        let key = FontKey { path, face_index };
        proof {
            lemma_key_index(self.faces(), key@);
            lemma_key_index(self.files(), key@.0);
        }
        match find_key(&self.face_cache, &key) {
            Some(i) => {
                return Some(share(&self.face_cache[i].1));
            },
            None => {},
        }
        match find_key(&self.mmap_cache, &key.path) {
            None => None,
            Some(j) => {
                let data = share(&self.mmap_cache[j].1);
                let face = Arc::new(FontFace { data, face_index });
                self.store_face(key, share(&face));
                Some(face)
            },
        }
    }

    /// Store a face in the face layer.
    fn store_face(&mut self, key: FontKey, face: Arc<FontFace>)
        requires
            old(self).wf(),
        ensures
            final(self).wf(),
            final(self).within_limits(),
            final(self).config_spec() == old(self).config_spec(),
            final(self).files() == old(self).files(),
            final(self).shards() == old(self).shards(),
            final(self).glyphs() == old(self).glyphs(),
            final(self).counters() == old(self).counters(),
            final(self).faces() == store(
                old(self).faces(),
                key@,
                face,
                old(self).config_spec().limits().0 as int,
            ),
    {
        let ghost sh0 = self.shards();
        let limit = self.config.max_fonts();
        if limit > 0 {
            proof {
                lemma_upsert(self.faces(), key@, face);
                lemma_keep_newest(upsert(self.faces(), key@, face), limit as int);
            }
            upsert_entry(&mut self.face_cache, key, face);
            keep_newest_entries(&mut self.face_cache, limit);
        }
        assert(self.shards() =~= sh0);
    }

    /// Store the bytes of the font file at `path` (when the font layer is
    /// on), then make and store the face `face_index` over them.
    pub fn load_font(&mut self, path: String, face_index: u32, data: Vec<u8>) -> (r: Arc<FontFace>)
        requires
            old(self).wf(),
        ensures
            final(self).wf(),
            final(self).within_limits(),
            final(self).config_spec() == old(self).config_spec(),
            final(self).shards() == old(self).shards(),
            final(self).glyphs() == old(self).glyphs(),
            final(self).counters() == old(self).counters(),
            r.data@ == data@,
            r.face_index == face_index,
            final(self).files() == store(
                old(self).files(),
                path@,
                r.data,
                old(self).config_spec().limits().0 as int,
            ),
            final(self).faces() == store(
                old(self).faces(),
                (path@, face_index),
                r,
                old(self).config_spec().limits().0 as int,
            ),
    {
        let ghost sh0 = self.shards();
        let bytes = Arc::new(data);
        let limit = self.config.max_fonts();
        if limit > 0 {
            let p = path.clone();
            proof {
                lemma_upsert(self.files(), p@, bytes);
                lemma_keep_newest(upsert(self.files(), p@, bytes), limit as int);
            }
            upsert_entry(&mut self.mmap_cache, p, share(&bytes));
            keep_newest_entries(&mut self.mmap_cache, limit);
        }
        assert(self.shards() =~= sh0);
        let face = Arc::new(FontFace { data: bytes, face_index });
        self.store_face(FontKey { path, face_index }, share(&face));
        face
    }

    /// The shaping result cached under `key`, which becomes the most
    /// recently used; counts a hit or a miss.
    pub fn get_shaped(&mut self, key: &ShapeKey) -> (r: Option<Arc<ShapingResult>>)
        requires
            old(self).wf(),
        ensures
            final(self).wf(),
            final(self).within_limits(),
            final(self).config_spec() == old(self).config_spec(),
            final(self).files() == old(self).files(),
            final(self).faces() == old(self).faces(),
            final(self).glyphs() == old(self).glyphs(),
            r == lookup(old(self).shards()[shard_of(key@)], key@),
            final(self).shards() == old(self).shards().update(
                shard_of(key@),
                touch(old(self).shards()[shard_of(key@)], key@),
            ),
            final(self).counters() == (
                old(self).counters().0,
                old(self).counters().1,
                if r is Some {
                    bump(old(self).counters().2)
                } else {
                    old(self).counters().2
                },
                if r is Some {
                    old(self).counters().3
                } else {
                    bump(old(self).counters().3)
                },
            ),
    {
        let ghost cache0 = self.shape_cache@;
        let ghost shards0 = self.shards();
        let si = (hash_shape_key(key) % 16) as usize;
        let mut shard = self.shape_cache.remove(si);
        proof {
            assert(entry_views(shard@) == shards0[si as int]);
            lemma_key_index(shards0[si as int], key@);
            lemma_touch(shards0[si as int], key@);
        }
        let r = match find_key(&shard, key) {
            Some(i) => {
                let v = share(&shard[i].1);
                move_to_end(&mut shard, i);
                self.shape_hits = bump_exec(self.shape_hits);
                Some(v)
            },
            None => {
                self.shape_misses = bump_exec(self.shape_misses);
                None
            },
        };
        self.shape_cache.insert(si, shard);
        proof {
            assert(self.shape_cache@ =~= cache0.update(si as int, shard));
            assert(self.shards() =~= shards0.update(si as int, touch(shards0[si as int], key@)));
        }
        r
    }

    /// Cache a shaping result under `key` (unless the shaping layer is off)
    /// as the most recently used, and hand it back shared.
    pub fn cache_shaped(&mut self, key: ShapeKey, shaped: ShapingResult) -> (r: Arc<ShapingResult>)
        requires
            old(self).wf(),
        ensures
            final(self).wf(),
            final(self).within_limits(),
            final(self).config_spec() == old(self).config_spec(),
            final(self).files() == old(self).files(),
            final(self).faces() == old(self).faces(),
            final(self).glyphs() == old(self).glyphs(),
            final(self).counters() == old(self).counters(),
            r == shaped,
            final(self).shards() == if old(self).config_spec().limits().2 > 0 {
                old(self).shards().update(
                    shard_of(key@),
                    lru_put(
                        old(self).shards()[shard_of(key@)],
                        key@,
                        r,
                        shard_capacity(old(self).config_spec().limits().2 as int),
                    ),
                )
            } else {
                old(self).shards()
            },
    {
        let shared = Arc::new(shaped);
        if self.config.max_shapes() > 0 {
            let ghost cache0 = self.shape_cache@;
            let ghost shards0 = self.shards();
            let si = (hash_shape_key(&key) % 16) as usize;
            let mut shard = self.shape_cache.remove(si);
            let ghost s = shards0[si as int];
            let ghost k = key@;
            proof {
                assert(entry_views(shard@) == s);
                lemma_key_index(s, k);
                lemma_without(s, k);
            }
            match find_key(&shard, &key) {
                Some(i) => {
                    remove_entry(&mut shard, i);
                },
                None => {},
            }
            assert(entry_views(shard@) == without(s, k));
            let ghost w = entry_views(shard@);
            let ghost pushed = w.push((k, shared));
            proof {
                assert(distinct_keys(pushed)) by {
                    assert forall|a: int, b: int| 0 <= a < b < pushed.len() implies #[trigger] pushed[a].0
                        != #[trigger] pushed[b].0 by {
                        if b == w.len() {
                            assert(pushed[a] == w[a]);
                            lemma_key_index(w, k);
                        } else {
                            assert(pushed[a] == w[a]);
                            assert(pushed[b] == w[b]);
                        }
                    }
                }
                lemma_keep_newest(pushed, self.shape_cap as int);
            }
            shard.push((key, share(&shared)));
            assert(entry_views(shard@) =~= pushed);
            keep_newest_entries(&mut shard, self.shape_cap);
            self.shape_cache.insert(si, shard);
            proof {
                assert(self.shape_cache@ =~= cache0.update(si as int, shard));
                assert(self.shards() =~= shards0.update(
                    si as int,
                    lru_put(s, k, shared, shard_capacity(self.config.limits().2 as int)),
                ));
            }
        }
        shared
    }

    /// The glyph cached under `key`; counts a hit or a miss.
    pub fn get_glyph(&mut self, key: &GlyphKey) -> (r: Option<Arc<RenderedGlyph>>)
        requires
            old(self).wf(),
        ensures
            final(self).wf(),
            final(self).within_limits(),
            final(self).config_spec() == old(self).config_spec(),
            final(self).files() == old(self).files(),
            final(self).faces() == old(self).faces(),
            final(self).shards() == old(self).shards(),
            final(self).glyphs() == old(self).glyphs(),
            r == lookup(old(self).glyphs(), key@),
            final(self).counters() == (
                if r is Some {
                    bump(old(self).counters().0)
                } else {
                    old(self).counters().0
                },
                if r is Some {
                    old(self).counters().1
                } else {
                    bump(old(self).counters().1)
                },
                old(self).counters().2,
                old(self).counters().3,
            ),
    {
        let ghost sh0 = self.shards();
        proof {
            lemma_key_index(self.glyphs(), key@);
        }
        match find_key(&self.glyph_cache, key) {
            Some(i) => {
                let v = share(&self.glyph_cache[i].1);
                self.glyph_hits = bump_exec(self.glyph_hits);
                assert(self.shards() =~= sh0);
                Some(v)
            },
            None => {
                self.glyph_misses = bump_exec(self.glyph_misses);
                assert(self.shards() =~= sh0);
                None
            },
        }
    }

    /// Cache a rendered glyph under `key` (unless the glyph layer is off)
    /// and hand it back shared; the oldest glyphs leave when the layer is
    /// over its limit.
    pub fn cache_glyph(&mut self, key: GlyphKey, glyph: RenderedGlyph) -> (r: Arc<RenderedGlyph>)
        requires
            old(self).wf(),
        ensures
            final(self).wf(),
            final(self).within_limits(),
            final(self).config_spec() == old(self).config_spec(),
            final(self).files() == old(self).files(),
            final(self).faces() == old(self).faces(),
            final(self).shards() == old(self).shards(),
            final(self).counters() == old(self).counters(),
            r == glyph,
            final(self).glyphs() == store(
                old(self).glyphs(),
                key@,
                r,
                old(self).config_spec().limits().1 as int,
            ),
    {
        let ghost sh0 = self.shards();
        let shared = Arc::new(glyph);
        let limit = self.config.max_glyphs();
        if limit > 0 {
            proof {
                lemma_upsert(self.glyphs(), key@, shared);
                lemma_keep_newest(upsert(self.glyphs(), key@, shared), limit as int);
            }
            upsert_entry(&mut self.glyph_cache, key, share(&shared));
            keep_newest_entries(&mut self.glyph_cache, limit);
        }
        assert(self.shards() =~= sh0);
        shared
    }

    /// Empty every layer; the limits and counters stay.
    pub fn clear(&mut self)
        requires
            old(self).wf(),
        ensures
            final(self).wf(),
            final(self).within_limits(),
            final(self).config_spec() == old(self).config_spec(),
            final(self).counters() == old(self).counters(),
            final(self).files().len() == 0,
            final(self).faces().len() == 0,
            final(self).shards().len() == 16,
            forall|i: int| 0 <= i < 16 ==> #[trigger] final(self).shards()[i].len() == 0,
            final(self).glyphs().len() == 0,
    {
        self.mmap_cache = Vec::new();
        self.face_cache = Vec::new();
        self.shape_cache = empty_shards();
        self.glyph_cache = Vec::new();
        proof {
            assert(self.files() =~= Seq::empty());
            assert(self.faces() =~= Seq::empty());
            assert(self.glyphs() =~= Seq::empty());
            assert forall|i: int| 0 <= i < 16 implies #[trigger] self.shards()[i] =~= Seq::empty() by {
                assert(self.shape_cache@[i]@.len() == 0);
            }
        }
    }

    /// Whether every layer is empty.
    pub fn is_empty(&self) -> (r: bool)
        ensures
            r == (self.files().len() == 0 && self.faces().len() == 0 && self.glyphs().len() == 0
                && forall|i: int| 0 <= i < self.shards().len() ==> #[trigger] self.shards()[i].len() == 0),
    {
        let mut i: usize = 0;
        while i < self.shape_cache.len()
            invariant
                0 <= i <= self.shape_cache@.len(),
                forall|j: int| 0 <= j < i ==> #[trigger] self.shards()[j].len() == 0,
            decreases self.shape_cache@.len() - i,
        {
            if self.shape_cache[i].len() != 0 {
                proof {
                    assert(self.shards()[i as int].len() != 0);
                }
                return false;
            }
            i = i + 1;
        }
        self.mmap_cache.len() == 0 && self.face_cache.len() == 0 && self.glyph_cache.len() == 0
    }

    /// The number of shaping results held, over all shards.
    fn shape_count(&self) -> (r: usize)
        requires
            self.wf(),
        ensures
            r == total_len(self.shards(), 16),
    {
        let cap = self.shape_cap;
        let mut total: usize = 0;
        let mut i: usize = 0;
        while i < 16
            invariant
                self.wf(),
                cap == self.shape_cap,
                0 <= i <= 16,
                total == total_len(self.shards(), i as int),
                total <= i * cap,
            decreases 16 - i,
        {
            let n = self.shape_cache[i].len();
            assert(n == self.shards()[i as int].len());
            assert(total + n <= (i + 1) * cap) by (nonlinear_arith)
                requires
                    total <= i * cap,
                    n <= cap,
            ;
            assert((i + 1) * cap <= 16 * cap) by (nonlinear_arith)
                requires
                    i < 16,
            ;
            total = total + n;
            i = i + 1;
        }
        total
    }

    /// The layers' sizes and limits and the counters.
    pub fn stats(&self) -> (r: CacheStats)
        requires
            self.wf(),
        ensures
            r.mmap_count == self.files().len(),
            r.face_count == self.faces().len(),
            r.shape_count == total_len(self.shards(), 16),
            r.glyph_count == self.glyphs().len(),
            (r.max_fonts, r.max_glyphs, r.max_shapes) == self.config_spec().limits(),
            (r.glyph_hits, r.glyph_misses, r.shape_hits, r.shape_misses) == self.counters(),
    {
        CacheStats {
            mmap_count: self.mmap_cache.len(),
            face_count: self.face_cache.len(),
            shape_count: self.shape_count(),
            glyph_count: self.glyph_cache.len(),
            max_fonts: self.config.max_fonts(),
            max_glyphs: self.config.max_glyphs(),
            max_shapes: self.config.max_shapes(),
            glyph_hits: self.glyph_hits,
            glyph_misses: self.glyph_misses,
            shape_hits: self.shape_hits,
            shape_misses: self.shape_misses,
        }
    }

    /// The limits.
    pub fn config(&self) -> (r: FontCacheConfig)
        ensures
            r == self.config_spec(),
    {
        self.config
    }
}

/// Storing into a layer that holds at most `limit > 0` entries and then
/// looking the key up finds the stored value.
proof fn lemma_store_finds<A, B>(s: Seq<(A, B)>, k: A, v: B, limit: int)
    requires
        distinct_keys(s),
        s.len() <= limit,
        limit > 0,
    ensures
        lookup(store(s, k, v, limit), k) == Some(v),
        distinct_keys(store(s, k, v, limit)),
        store(s, k, v, limit).len() <= limit,
{
    let u = upsert(s, k, v);
    lemma_upsert(s, k, v);
    lemma_keep_newest(u, limit);
    lemma_key_index(u, k);
    let t = keep_newest(u, limit);
    if lookup(s, k) is Some {
        assert(t == u);
    } else {
        assert(u.last() == (k, v));
        assert(t.last() == (k, v));
        lemma_key_index(t, k);
        assert(t[t.len() - 1].0 == k);
    }
}

/// Putting into a least-recently-used list of capacity `cap > 0` and then
/// looking the key up finds the value put.
proof fn lemma_lru_put_finds<A, B>(s: Seq<(A, B)>, k: A, v: B, cap: int)
    requires
        distinct_keys(s),
        cap > 0,
    ensures
        lookup(lru_put(s, k, v, cap), k) == Some(v),
        distinct_keys(lru_put(s, k, v, cap)),
        lru_put(s, k, v, cap).len() <= cap,
{
    let w = without(s, k);
    lemma_without(s, k);
    lemma_key_index(w, k);
    let p = w.push((k, v));
    assert(distinct_keys(p)) by {
        assert forall|a: int, b: int| 0 <= a < b < p.len() implies #[trigger] p[a].0
            != #[trigger] p[b].0 by {
            assert(p[a] == w[a]);
            if b < w.len() {
                assert(p[b] == w[b]);
            }
        }
    }
    lemma_keep_newest(p, cap);
    let t = keep_newest(p, cap);
    assert(t.last() == (k, v));
    lemma_key_index(t, k);
    assert(t[t.len() - 1].0 == k);
}

/// A glyph just cached (with the glyph layer on) is what a lookup of its
/// key gives back.
pub proof fn lemma_glyph_read_after_write(
    c: FontCache,
    k: ((Seq<char>, u32), u32, u32, Option<Seq<(Seq<char>, u32)>>),
    g: Arc<RenderedGlyph>,
)
    requires
        c.wf(),
        c.config_spec().limits().1 > 0,
    ensures
        lookup(store(c.glyphs(), k, g, c.config_spec().limits().1 as int), k) == Some(g),
{
    lemma_store_finds(c.glyphs(), k, g, c.config_spec().limits().1 as int);
}

/// A face just loaded (with the font layer on) is what a lookup of its
/// path and index gives back, and so are the file's bytes for its path.
pub proof fn lemma_font_read_after_load(
    c: FontCache,
    path: Seq<char>,
    face_index: u32,
    data: Arc<Vec<u8>>,
    face: Arc<FontFace>,
)
    requires
        c.wf(),
        c.config_spec().limits().0 > 0,
    ensures
        lookup(store(c.faces(), (path, face_index), face, c.config_spec().limits().0 as int), (path, face_index))
            == Some(face),
        lookup(store(c.files(), path, data, c.config_spec().limits().0 as int), path) == Some(data),
{
    lemma_store_finds(c.faces(), (path, face_index), face, c.config_spec().limits().0 as int);
    lemma_store_finds(c.files(), path, data, c.config_spec().limits().0 as int);
}

/// A shaping result just cached (with the shaping layer on) is what a
/// lookup of its key gives back.
pub proof fn lemma_shape_read_after_write(
    c: FontCache,
    k: (Seq<char>, (Seq<char>, u32), u32, Seq<(Seq<char>, bool)>),
    v: Arc<ShapingResult>,
)
    requires
        c.wf(),
        c.config_spec().limits().2 > 0,
    ensures
        lookup(
            lru_put(c.shards()[shard_of(k)], k, v, shard_capacity(c.config_spec().limits().2 as int)),
            k,
        ) == Some(v),
{
    lemma_lru_put_finds(
        c.shards()[shard_of(k)],
        k,
        v,
        shard_capacity(c.config_spec().limits().2 as int),
    );
}

/// Looking a shaping result up changes only its recency: every key finds
/// what it found before.
pub proof fn lemma_shape_lookup_keeps_contents(
    c: FontCache,
    k: (Seq<char>, (Seq<char>, u32), u32, Seq<(Seq<char>, bool)>),
    k2: (Seq<char>, (Seq<char>, u32), u32, Seq<(Seq<char>, bool)>),
)
    requires
        c.wf(),
    ensures
        lookup(touch(c.shards()[shard_of(k)], k), k2) == lookup(c.shards()[shard_of(k)], k2),
{
    lemma_touch(c.shards()[shard_of(k)], k);
}

/// No layer holds more entries than its limit allows, a layer whose limit
/// is 0 holds nothing, and no layer holds a key twice.
pub proof fn lemma_layers_within_limits(c: FontCache)
    requires
        c.wf(),
    ensures
        c.files().len() <= c.config_spec().limits().0,
        c.faces().len() <= c.config_spec().limits().0,
        c.glyphs().len() <= c.config_spec().limits().1,
        c.shards().len() == 16,
        forall|i: int|
            0 <= i < 16 ==> #[trigger] c.shards()[i].len() <= shard_capacity(
                c.config_spec().limits().2 as int,
            ),
        c.config_spec().limits().2 == 0 ==> forall|i: int|
            0 <= i < 16 ==> #[trigger] c.shards()[i].len() == 0,
        total_len(c.shards(), 16) <= shape_capacity(c.config_spec().limits().2 as int),
        distinct_keys(c.files()),
        distinct_keys(c.faces()),
        forall|i: int| 0 <= i < 16 ==> distinct_keys(#[trigger] c.shards()[i]),
        distinct_keys(c.glyphs()),
{
    lemma_total_len_bound(c.shards(), 16, shard_capacity(c.config_spec().limits().2 as int));
}

/// Shards of at most `cap` entries each hold at most `n * cap` together.
proof fn lemma_total_len_bound<A>(shards: Seq<Seq<A>>, n: int, cap: int)
    requires
        0 <= n <= shards.len(),
        forall|i: int| 0 <= i < n ==> #[trigger] shards[i].len() <= cap,
    ensures
        total_len(shards, n) <= n * cap,
    decreases n,
{
    if n > 0 {
        lemma_total_len_bound(shards, n - 1, cap);
        assert(shards[n - 1].len() <= cap);
        assert((n - 1) * cap + cap == n * cap) by (nonlinear_arith);
    } else {
        assert(n * cap == 0) by (nonlinear_arith)
            requires
                n == 0,
        ;
    }
}

} // verus!
