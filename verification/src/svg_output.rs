//! How the SVG renderer draws a glyph: as its outline path or as an
//! embedded color image, by the first glyph source that can serve it.

use vstd::prelude::*;
use crate::color_render::is_outline;
use crate::types::GlyphSource;

verus! {

/// Source `s` can draw the glyph: an outline source when the glyph has a
/// non-empty path, a color source when its image rendered.
pub open spec fn serves(s: GlyphSource, has_path: bool, rendered: bool) -> bool {
    if is_outline(s) {
        has_path
    } else {
        rendered
    }
}

/// The first position among the first `n` whose source serves the glyph.
pub open spec fn first_serving(
    order: Seq<GlyphSource>,
    has_path: bool,
    rendered: Seq<bool>,
    n: int,
) -> Option<int>
    decreases n,
{
    if n <= 0 {
        None
    } else {
        match first_serving(order, has_path, rendered, n - 1) {
            Some(i) => Some(i),
            None => if serves(order[n - 1], has_path, rendered[n - 1]) {
                Some(n - 1)
            } else {
                None
            },
        }
    }
}

/// Once a position serves, later positions do not change the first one.
proof fn lemma_first_serving_stays(
    order: Seq<GlyphSource>,
    has_path: bool,
    rendered: Seq<bool>,
    m: int,
    n: int,
)
    requires
        0 <= m <= n,
        first_serving(order, has_path, rendered, m) is Some,
    ensures
        first_serving(order, has_path, rendered, n) == first_serving(order, has_path, rendered, m),
    decreases n - m,
{
    if m < n {
        lemma_first_serving_stays(order, has_path, rendered, m, n - 1);
    }
}

/// The position in `order` of the source the SVG renderer draws a glyph
/// with: the first outline source when the glyph has a non-empty path, or
/// the first color source whose image rendered (`rendered[i]` tells it for
/// `order[i]`), whichever comes first.  `None` leaves the glyph out.
pub fn choose_glyph_source(order: &Vec<GlyphSource>, has_path: bool, rendered: &Vec<bool>) -> (r:
    Option<usize>)
    requires
        rendered@.len() == order@.len(),
    ensures
        match r {
            Some(i) => first_serving(order@, has_path, rendered@, order@.len() as int) == Some(
                i as int,
            ),
            None => first_serving(order@, has_path, rendered@, order@.len() as int) is None,
        },
{
    let n = order.len();
    let mut i: usize = 0;
    while i < n
        invariant
            n == order@.len(),
            n == rendered@.len(),
            0 <= i <= n,
            first_serving(order@, has_path, rendered@, i as int) is None,
        decreases n - i,
    {
        let s = order[i];
        let outline = s == GlyphSource::Glyf || s == GlyphSource::Cff || s == GlyphSource::Cff2;
        let ok = if outline {
            has_path
        } else {
            rendered[i]
        };
        if ok {
            proof {
                assert(first_serving(order@, has_path, rendered@, i as int + 1) == Some(i as int));
                lemma_first_serving_stays(order@, has_path, rendered@, i as int + 1, n as int);
            }
            return Some(i);
        }
        i = i + 1;
    }
    None
}

} // verus!
