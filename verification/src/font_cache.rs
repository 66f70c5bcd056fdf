//! Limits and keys of the font cache, its statistics, and the engine's
//! error type.

use vstd::prelude::*;
use crate::assoc::CacheKey;
use crate::font_cache_key::{lemma_insert_at, sort_by_tag, str_lt, tag_lt, Setting};
use crate::text::str_eq;

verus! {

/// Limits of the font cache layers (0 disables a layer).
#[derive(Debug, Clone, Copy, PartialEq, Eq, Structural)]
pub struct FontCacheConfig {
    max_fonts: usize,
    max_glyphs: usize,
    max_shapes: usize,
}

impl FontCacheConfig {
    /// Limits as `(fonts, glyphs, shapes)`.
    pub closed spec fn limits(self) -> (usize, usize, usize) {
        (self.max_fonts, self.max_glyphs, self.max_shapes)
    }

    /// The default limits: 512 fonts, 2048 glyphs, 512 shaping results.
    pub fn new() -> (r: FontCacheConfig)
        ensures
            r.limits() == (512usize, 2048usize, 512usize),
    {
        FontCacheConfig { max_fonts: 512, max_glyphs: 2048, max_shapes: 512 }
    }

    /// The same limits with another font limit.
    pub fn with_max_fonts(self, max_fonts: usize) -> (r: FontCacheConfig)
        ensures
            r.limits() == (max_fonts, self.limits().1, self.limits().2),
    {
        FontCacheConfig { max_fonts, ..self }
    }

    /// The same limits with another glyph limit.
    pub fn with_max_glyphs(self, max_glyphs: usize) -> (r: FontCacheConfig)
        ensures
            r.limits() == (self.limits().0, max_glyphs, self.limits().2),
    {
        FontCacheConfig { max_glyphs, ..self }
    }

    /// The same limits with another shaping-result limit.
    pub fn with_max_shapes(self, max_shapes: usize) -> (r: FontCacheConfig)
        ensures
            r.limits() == (self.limits().0, self.limits().1, max_shapes),
    {
        FontCacheConfig { max_shapes, ..self }
    }

    /// All three limits at once.
    pub fn with_limits(self, max_fonts: usize, max_glyphs: usize, max_shapes: usize) -> (r:
        FontCacheConfig)
        ensures
            r.limits() == (max_fonts, max_glyphs, max_shapes),
    {
        FontCacheConfig { max_fonts, max_glyphs, max_shapes }
    }

    /// The font limit.
    pub fn max_fonts(&self) -> (r: usize)
        ensures
            r == self.limits().0,
    {
        self.max_fonts
    }

    /// The glyph limit.
    pub fn max_glyphs(&self) -> (r: usize)
        ensures
            r == self.limits().1,
    {
        self.max_glyphs
    }

    /// The shaping-result limit.
    pub fn max_shapes(&self) -> (r: usize)
        ensures
            r == self.limits().2,
    {
        self.max_shapes
    }
}

impl Default for FontCacheConfig {
    /// Same as `new`.
    fn default() -> (r: FontCacheConfig)
        ensures
            r.limits() == (512usize, 2048usize, 512usize),
    {
        FontCacheConfig::new()
    }
}

/// Identifies a font face: file path and index in a collection.
#[derive(Debug, Clone, PartialEq, Eq, Hash)]
pub struct FontKey {
    pub path: String,
    pub face_index: u32,
}

/// Identifies a shaping result: text, face, quantized size and features.
#[derive(Debug, Clone, PartialEq, Eq, Hash)]
pub struct ShapeKey {
    pub text: String,
    pub font_key: FontKey,
    pub size: u32,
    pub features: Vec<(String, bool)>,
}

/// Identifies a rendered glyph: face, glyph, quantized size and variation
/// coordinates (axis tags with the bits of their values, sorted by tag).
#[derive(Debug, Clone, PartialEq, Eq, Hash)]
pub struct GlyphKey {
    pub font_key: FontKey,
    pub glyph_id: u32,
    pub size: u32,
    pub variations: Option<Vec<(String, u32)>>,
}

/// A feature list as the key sees it: tag and whether it is on.
pub open spec fn feature_views(v: Seq<(String, bool)>) -> Seq<(Seq<char>, bool)> {
    Seq::new(v.len(), |i: int| (v[i].0@, v[i].1))
}

/// Variation coordinates as the key sees them: tag and value bits.
pub open spec fn coord_views(v: Seq<(String, u32)>) -> Seq<(Seq<char>, u32)> {
    Seq::new(v.len(), |i: int| (v[i].0@, v[i].1))
}

/// Variation coordinates as settings to sort: tag and value bits.
pub open spec fn coord_settings(v: Seq<(String, u32)>) -> Seq<Setting> {
    Seq::new(v.len(), |i: int| (v[i].0@, v[i].1 as int))
}

impl View for FontKey {
    type V = (Seq<char>, u32);

    open spec fn view(&self) -> (Seq<char>, u32) {
        (self.path@, self.face_index)
    }
}

impl View for ShapeKey {
    type V = (Seq<char>, (Seq<char>, u32), u32, Seq<(Seq<char>, bool)>);

    open spec fn view(&self) -> (Seq<char>, (Seq<char>, u32), u32, Seq<(Seq<char>, bool)>) {
        (self.text@, self.font_key@, self.size, feature_views(self.features@))
    }
}

impl View for GlyphKey {
    type V = ((Seq<char>, u32), u32, u32, Option<Seq<(Seq<char>, u32)>>);

    open spec fn view(&self) -> ((Seq<char>, u32), u32, u32, Option<Seq<(Seq<char>, u32)>>) {
        (
            self.font_key@,
            self.glyph_id,
            self.size,
            match &self.variations {
                Some(v) => Some(coord_views(v@)),
                None => None,
            },
        )
    }
}

impl CacheKey for String {
    fn same_key(&self, other: &Self) -> (r: bool) {
        str_eq(self.as_str(), other.as_str())
    }
}

impl CacheKey for FontKey {
    fn same_key(&self, other: &Self) -> (r: bool) {
        self.face_index == other.face_index && str_eq(self.path.as_str(), other.path.as_str())
    }
}

/// Whether two feature lists are the same.
fn same_features(a: &Vec<(String, bool)>, b: &Vec<(String, bool)>) -> (r: bool)
    ensures
        r == (feature_views(a@) == feature_views(b@)),
{
    if a.len() != b.len() {
        proof {
            assert(feature_views(a@).len() != feature_views(b@).len());
        }
        return false;
    }
    let mut i: usize = 0;
    while i < a.len()
        invariant
            a@.len() == b@.len(),
            0 <= i <= a@.len(),
            forall|j: int| 0 <= j < i ==> #[trigger] feature_views(a@)[j] == feature_views(b@)[j],
        decreases a@.len() - i,
    {
        if a[i].1 != b[i].1 || !str_eq(a[i].0.as_str(), b[i].0.as_str()) {
            proof {
                assert(feature_views(a@)[i as int] != feature_views(b@)[i as int]);
            }
            return false;
        }
        i = i + 1;
    }
    proof {
        assert(feature_views(a@) =~= feature_views(b@));
    }
    true
}

/// Whether two coordinate lists are the same.
fn same_coords(a: &Vec<(String, u32)>, b: &Vec<(String, u32)>) -> (r: bool)
    ensures
        r == (coord_views(a@) == coord_views(b@)),
{
    if a.len() != b.len() {
        proof {
            assert(coord_views(a@).len() != coord_views(b@).len());
        }
        return false;
    }
    let mut i: usize = 0;
    while i < a.len()
        invariant
            a@.len() == b@.len(),
            0 <= i <= a@.len(),
            forall|j: int| 0 <= j < i ==> #[trigger] coord_views(a@)[j] == coord_views(b@)[j],
        decreases a@.len() - i,
    {
        if a[i].1 != b[i].1 || !str_eq(a[i].0.as_str(), b[i].0.as_str()) {
            proof {
                assert(coord_views(a@)[i as int] != coord_views(b@)[i as int]);
            }
            return false;
        }
        i = i + 1;
    }
    proof {
        assert(coord_views(a@) =~= coord_views(b@));
    }
    true
}

impl CacheKey for ShapeKey {
    fn same_key(&self, other: &Self) -> (r: bool) {
        self.size == other.size && self.font_key.same_key(&other.font_key) && str_eq(
            self.text.as_str(),
            other.text.as_str(),
        ) && same_features(&self.features, &other.features)
    }
}

impl CacheKey for GlyphKey {
    fn same_key(&self, other: &Self) -> (r: bool) {
        if self.glyph_id != other.glyph_id || self.size != other.size
            || !self.font_key.same_key(&other.font_key) {
            return false;
        }
        match (&self.variations, &other.variations) {
            (Some(a), Some(b)) => same_coords(a, b),
            (None, None) => true,
            _ => false,
        }
    }
}

impl GlyphKey {
    /// The key of glyph `glyph_id` of a face at quantized `size`, with the
    /// variation coordinates given as axis tags and the bits of their
    /// values, in any order: no coordinates when there are none, else the
    /// coordinates sorted by tag.
    pub fn new(font_key: FontKey, glyph_id: u32, size: u32, variations: &[(String, u32)]) -> (r:
        GlyphKey)
        ensures
            r.font_key == font_key,
            r.glyph_id == glyph_id,
            r.size == size,
            variations@.len() == 0 ==> r.variations is None,
            variations@.len() > 0 ==> (r.variations matches Some(v) && coord_settings(v@)
                == sort_by_tag(coord_settings(variations@))),
    {
        if variations.len() == 0 {
            return GlyphKey { font_key, glyph_id, size, variations: None };
        }
        let ghost all = coord_settings(variations@);
        let n = variations.len();
        let mut sorted: Vec<(String, u32)> = Vec::new();
        let mut k: usize = 0;
        while k < n
            invariant
                n == variations@.len(),
                all == coord_settings(variations@),
                0 <= k <= n,
                coord_settings(sorted@) == sort_by_tag(all.take(k as int)),
            decreases n - k,
        {
            let ghost before = coord_settings(sorted@);
            let x = &variations[k];
            let mut p: usize = 0;
            while p < sorted.len() && !str_lt(x.0.as_str(), sorted[p].0.as_str())
                invariant
                    before == coord_settings(sorted@),
                    k < n,
                    n == variations@.len(),
                    all == coord_settings(variations@),
                    x == variations@[k as int],
                    0 <= p <= sorted@.len(),
                    forall|j: int| 0 <= j < p ==> !tag_lt(all[k as int].0, #[trigger] before[j].0),
                decreases sorted@.len() - p,
            {
                p = p + 1;
            }
            proof {
                assert(all.take(k + 1).drop_last() =~= all.take(k as int));
                assert(all.take(k + 1).last() == all[k as int]);
                lemma_insert_at(before, all[k as int], p as int);
            }
            let tag = x.0.clone();
            sorted.insert(p, (tag, x.1));
            proof {
                assert(coord_settings(sorted@) =~= before.take(p as int) + seq![all[k as int]]
                    + before.skip(p as int));
            }
            k = k + 1;
        }
        proof {
            assert(all.take(n as int) =~= all);
        }
        GlyphKey { font_key, glyph_id, size, variations: Some(sorted) }
    }
}

/// Counters of the cache layers.
#[derive(Debug, Clone, Copy, PartialEq, Eq, Structural)]
pub struct CacheStats {
    pub mmap_count: usize,
    pub face_count: usize,
    pub shape_count: usize,
    pub glyph_count: usize,
    pub max_fonts: usize,
    pub max_glyphs: usize,
    pub max_shapes: usize,
    pub glyph_hits: u64,
    pub glyph_misses: u64,
    pub shape_hits: u64,
    pub shape_misses: u64,
}

/// Estimated bytes held: about 100 KB per mapped font file, 50 KB per face,
/// 1 KB per shaping result and 5 KB per glyph.
pub open spec fn estimated_bytes(s: CacheStats) -> int {
    s.mmap_count * 100_000 + s.face_count * 50_000 + s.shape_count * 1_000 + s.glyph_count * 5_000
}

impl CacheStats {
    /// Whether every layer is empty.
    pub fn is_empty(&self) -> (r: bool)
        ensures
            r == (self.mmap_count == 0 && self.face_count == 0 && self.shape_count == 0
                && self.glyph_count == 0),
    {
        self.mmap_count == 0 && self.face_count == 0 && self.shape_count == 0 && self.glyph_count
            == 0
    }

    /// Items cached over all layers.
    pub fn total_items(&self) -> (r: usize)
        requires
            self.mmap_count + self.face_count + self.shape_count + self.glyph_count <= usize::MAX,
        ensures
            r == self.mmap_count + self.face_count + self.shape_count + self.glyph_count,
    {
        self.mmap_count + self.face_count + self.shape_count + self.glyph_count
    }

    /// Rough memory estimate in bytes (see `estimated_bytes`).
    pub fn estimated_memory_bytes(&self) -> (r: usize)
        requires
            estimated_bytes(*self) <= usize::MAX,
        ensures
            r == estimated_bytes(*self),
    {
        proof {
            assert(self.mmap_count * 100_000 <= estimated_bytes(*self));
            assert(self.face_count * 50_000 <= estimated_bytes(*self));
            assert(self.shape_count * 1_000 <= estimated_bytes(*self));
            assert(self.glyph_count * 5_000 <= estimated_bytes(*self));
        }
        (self.mmap_count * 100_000) + (self.face_count * 50_000) + (self.shape_count * 1_000) + (
        self.glyph_count * 5_000)
    }
}

/// Errors of the text engine.
#[derive(Debug, Clone, PartialEq, Eq)]
pub enum TypfError {
    /// A font file could not be loaded: its path and the cause.
    FontLoadError { path: String, source: String },
    /// No font of that name.
    FontNotFound { name: String },
    /// The font data is not a font.
    InvalidFontData,
    /// Shaping failed.
    ShapingError { reason: String },
    /// Rendering failed.
    RenderError { reason: String },
    /// Segmentation failed.
    SegmentationError { reason: String },
    /// A parameter has an unusable value.
    InvalidParameter { name: String, value: String },
    /// The backend is not built in.
    BackendNotAvailable { name: String },
    /// An I/O operation failed.
    Io(String),
    /// Anything else.
    Other(String),
}

impl TypfError {
    /// A font-load error for `path` caused by `source`.
    pub fn font_load(path: String, source: String) -> (r: TypfError)
        ensures
            r == (TypfError::FontLoadError { path, source }),
    {
        TypfError::FontLoadError { path, source }
    }

    /// A shaping error.
    pub fn shaping(reason: String) -> (r: TypfError)
        ensures
            r == (TypfError::ShapingError { reason }),
    {
        TypfError::ShapingError { reason }
    }

    /// A rendering error.
    pub fn render(reason: String) -> (r: TypfError)
        ensures
            r == (TypfError::RenderError { reason }),
    {
        TypfError::RenderError { reason }
    }

    /// A segmentation error.
    pub fn segmentation(reason: String) -> (r: TypfError)
        ensures
            r == (TypfError::SegmentationError { reason }),
    {
        TypfError::SegmentationError { reason }
    }

    /// Any other error.
    pub fn other(msg: String) -> (r: TypfError)
        ensures
            r == TypfError::Other(msg),
    {
        TypfError::Other(msg)
    }
}

} // verus!
