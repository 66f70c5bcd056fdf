//! Anti-aliasing by oversampling: render a monochrome bitmap at `factor`
//! times the resolution, then average each `factor × factor` block into one
//! alpha value from 0 (uncovered) to 255 (fully covered).

use vstd::prelude::*;
use crate::scan_converter::{
    carried_into, mono_image, path_effect, path_safe, scan_fits, FillRule, OutlineState,
    PathCommand, ScanConverter,
};
use crate::edge::Edge;
use crate::fixed::F26Dot6;

verus! {

/// Oversampling quality.
#[derive(Debug, Copy, Clone, PartialEq, Eq, Structural)]
pub enum GrayscaleLevel {
    /// 2×2 samples per pixel.
    Level2x2,
    /// 4×4 samples per pixel.
    Level4x4,
    /// 8×8 samples per pixel.
    Level8x8,
}

impl GrayscaleLevel {
    /// Samples per pixel along each axis.
    pub open spec fn factor_spec(self) -> int {
        match self {
            GrayscaleLevel::Level2x2 => 2,
            GrayscaleLevel::Level4x4 => 4,
            GrayscaleLevel::Level8x8 => 8,
        }
    }

    /// Samples per pixel along each axis: 2, 4 or 8.
    pub fn factor(self) -> (r: usize)
        ensures
            r == self.factor_spec(),
    {
        match self {
            GrayscaleLevel::Level2x2 => 2,
            GrayscaleLevel::Level4x4 => 4,
            GrayscaleLevel::Level8x8 => 8,
        }
    }

    /// Samples per pixel in all: the factor squared.
    pub fn samples_per_pixel(self) -> (r: usize)
        ensures
            r == self.factor_spec() * self.factor_spec(),
    {
        let f = self.factor();
        f * f
    }

    /// The largest coverage count a pixel can reach: the samples per pixel as a byte.
    pub fn max_alpha(self) -> (r: u8)
        ensures
            r == self.factor_spec() * self.factor_spec(),
    {
        self.samples_per_pixel() as u8
    }
}

/// The number of covered samples in the first `n` columns of sample row `y`
/// starting at column `x0`: those inside the bitmap with a non-zero byte.
pub open spec fn row_coverage(mono: Seq<u8>, mw: int, mh: int, x0: int, y: int, n: int) -> int
    decreases n,
{
    if n <= 0 {
        0
    } else {
        row_coverage(mono, mw, mh, x0, y, n - 1) + (if x0 + n - 1 < mw && y < mh && mono[y * mw
            + x0 + n - 1] != 0 {
            1int
        } else {
            0int
        })
    }
}

/// The number of covered samples in the first `m` sample rows of the
/// `f × f` block whose top-left sample is `(x0, y0)`.
pub open spec fn block_coverage(mono: Seq<u8>, mw: int, mh: int, x0: int, y0: int, f: int, m: int) -> int
    decreases m,
{
    if m <= 0 {
        0
    } else {
        block_coverage(mono, mw, mh, x0, y0, f, m - 1) + row_coverage(mono, mw, mh, x0, y0 + m - 1, f)
    }
}

/// The alpha of output pixel `(ox, oy)`: covered samples of its block scaled
/// to 0..255, rounding down.
pub open spec fn block_alpha(mono: Seq<u8>, mw: int, mh: int, f: int, ox: int, oy: int) -> int {
    block_coverage(mono, mw, mh, ox * f, oy * f, f, f) * 255 / (f * f)
}

proof fn lemma_row_coverage_bound(mono: Seq<u8>, mw: int, mh: int, x0: int, y: int, n: int)
    requires
        n >= 0,
    ensures
        0 <= row_coverage(mono, mw, mh, x0, y, n) <= n,
    decreases n,
{
    if n > 0 {
        lemma_row_coverage_bound(mono, mw, mh, x0, y, n - 1);
    }
}

proof fn lemma_block_coverage_bound(mono: Seq<u8>, mw: int, mh: int, x0: int, y0: int, f: int, m: int)
    requires
        m >= 0,
        f >= 0,
    ensures
        0 <= block_coverage(mono, mw, mh, x0, y0, f, m) <= m * f,
    decreases m,
{
    if m > 0 {
        lemma_block_coverage_bound(mono, mw, mh, x0, y0, f, m - 1);
        lemma_row_coverage_bound(mono, mw, mh, x0, y0 + m - 1, f);
        assert((m - 1) * f + f == m * f) by (nonlinear_arith);
    }
}

/// Average each `factor × factor` block of the monochrome bitmap into one
/// alpha value: `covered * 255 / samples`, with samples outside the
/// monochrome bitmap counting as uncovered.
pub fn downsample_to_grayscale_scalar(
    mono: &Vec<u8>,
    mono_width: usize,
    mono_height: usize,
    out_width: usize,
    out_height: usize,
    level: GrayscaleLevel,
) -> (r: Vec<u8>)
    requires
        mono_width * mono_height <= mono@.len(),
        out_width * out_height <= usize::MAX,
        out_width * level.factor_spec() <= usize::MAX,
        out_height * level.factor_spec() <= usize::MAX,
    ensures
        r@.len() == out_width * out_height,
        forall|oy: int, ox: int|
            0 <= oy < out_height && 0 <= ox < out_width ==> #[trigger] r@[oy * out_width + ox]
                == block_alpha(
                mono@,
                mono_width as int,
                mono_height as int,
                level.factor_spec(),
                ox,
                oy,
            ),
{
    let mlen = mono.len();
    let factor = level.factor();
    let max_coverage = level.samples_per_pixel();
    let total = out_width * out_height;
    let mut output: Vec<u8> = Vec::with_capacity(total);
    let mut k: usize = 0;
    while k < total
        invariant
            0 <= k <= total,
            output@.len() == k,
        decreases total - k,
    {
        output.push(0u8);
        k = k + 1;
    }
    let ghost f = factor as int;
    let ghost mw = mono_width as int;
    let ghost mh = mono_height as int;
    let mut out_y: usize = 0;
    while out_y < out_height
        invariant
            factor == f,
            f == level.factor_spec(),
            max_coverage == f * f,
            2 <= f <= 8,
            mono_width * mono_height <= mono@.len(),
            mlen == mono@.len(),
                mw == mono_width,
                mh == mono_height,
            out_width * out_height == total,
            out_width * f <= usize::MAX,
            out_height * f <= usize::MAX,
            output@.len() == total,
            0 <= out_y <= out_height,
            forall|oy: int, ox: int|
                0 <= oy < out_y && 0 <= ox < out_width ==> #[trigger] output@[oy * out_width + ox]
                    == block_alpha(mono@, mw, mh, f, ox, oy),
        decreases out_height - out_y,
    {
        let mut out_x: usize = 0;
        while out_x < out_width
            invariant
                factor == f,
                f == level.factor_spec(),
                max_coverage == f * f,
                2 <= f <= 8,
                mono_width * mono_height <= mono@.len(),
                mlen == mono@.len(),
                mw == mono_width,
                mh == mono_height,
                out_width * out_height == total,
                out_width * f <= usize::MAX,
                out_height * f <= usize::MAX,
                output@.len() == total,
                0 <= out_y < out_height,
                0 <= out_x <= out_width,
                forall|oy: int, ox: int|
                    (0 <= oy < out_y && 0 <= ox < out_width) || (oy == out_y && 0 <= ox < out_x)
                        ==> #[trigger] output@[oy * out_width + ox] == block_alpha(mono@, mw, mh, f, ox, oy),
            decreases out_width - out_x,
        {
            proof {
                assert(out_x * f + f <= out_width * f) by (nonlinear_arith)
                    requires out_x < out_width, f >= 0;
                assert(out_y * f + f <= out_height * f) by (nonlinear_arith)
                    requires out_y < out_height, f >= 0;
            }
            let src_x = out_x * factor;
            let src_y = out_y * factor;
            let mut coverage: u32 = 0;
            let mut dy: usize = 0;
            while dy < factor
                invariant
                    factor == f,
                    2 <= f <= 8,
                    src_x + f <= usize::MAX,
                    src_y + f <= usize::MAX,
                    mono_width * mono_height <= mono@.len(),
                    mlen == mono@.len(),
                mw == mono_width,
                mh == mono_height,
                    0 <= dy <= f,
                    coverage == block_coverage(mono@, mw, mh, src_x as int, src_y as int, f, dy as int),
                    coverage <= dy * f,
                decreases f - dy,
            {
                let mut dx: usize = 0;
                let ghost base = coverage;
                proof {
                    assert(dy * f + f <= 64) by (nonlinear_arith)
                        requires 0 <= dy < f, f <= 8;
                }
                while dx < factor
                    invariant
                        factor == f,
                        2 <= f <= 8,
                        src_x + f <= usize::MAX,
                        src_y + f <= usize::MAX,
                        mono_width * mono_height <= mono@.len(),
                        mlen == mono@.len(),
                mw == mono_width,
                mh == mono_height,
                        mlen <= usize::MAX,
                        0 <= dy < f,
                        0 <= dx <= f,
                        base <= dy * f,
                        dy * f + f <= 64,
                        coverage == base + row_coverage(
                            mono@,
                            mw,
                            mh,
                            src_x as int,
                            src_y + dy,
                            dx as int,
                        ),
                        coverage <= base + dx,
                    decreases f - dx,
                {
                    let x = src_x + dx;
                    let y = src_y + dy;
                    proof {
                        assert(row_coverage(mono@, mw, mh, src_x as int, y as int, dx as int + 1)
                            == row_coverage(mono@, mw, mh, src_x as int, y as int, dx as int) + (if x
                            < mw && y < mh && mono@[y * mw + x] != 0 {
                            1int
                        } else {
                            0int
                        }));
                    }
                    if x < mono_width && y < mono_height {
                        proof {
                            assert(y * mono_width + x < mono_width * mono_height) by (nonlinear_arith)
                                requires x < mono_width, y < mono_height;
                        }
                        let idx = y * mono_width + x;
                        proof {
                            assert(idx as int == y * mw + x);
                        }
                        if mono[idx] != 0 {
                            coverage = coverage + 1;
                        }
                    }
                    proof {
                        assert(coverage == base + row_coverage(mono@, mw, mh, src_x as int, y as int, dx as int + 1));
                    }
                    dx = dx + 1;
                }
                proof {
                    assert(dy * f + f == (dy + 1) * f) by (nonlinear_arith);
                }
                dy = dy + 1;
            }
            proof {
                assert(f * f <= 64) by (nonlinear_arith)
                    requires 2 <= f <= 8;
                lemma_block_coverage_bound(mono@, mw, mh, src_x as int, src_y as int, f, f);
                assert(coverage * 255 / (f * f) <= 255) by (nonlinear_arith)
                    requires coverage <= f * f, f * f > 0;
                assert(out_y * out_width + out_x < out_width * out_height) by (nonlinear_arith)
                    requires out_x < out_width, out_y < out_height;
            }
            let alpha = ((coverage * 255) / max_coverage as u32) as u8;
            let idx = out_y * out_width + out_x;
            let ghost prev = output@;
            output.set(idx, alpha);
            proof {
                assert(alpha == block_alpha(mono@, mw, mh, f, out_x as int, out_y as int));
                assert forall|oy: int, ox: int|
                    (0 <= oy < out_y && 0 <= ox < out_width) || (oy == out_y && 0 <= ox < out_x + 1)
                        implies #[trigger] output@[oy * out_width + ox] == block_alpha(mono@, mw, mh, f, ox, oy) by {
                    assert(oy * out_width + ox < out_width * out_height) by (nonlinear_arith)
                        requires 0 <= ox < out_width, 0 <= oy <= out_y, out_y < out_height;
                    assert(0 <= oy * out_width + ox) by (nonlinear_arith)
                        requires 0 <= ox, 0 <= oy, out_width >= 0;
                    if oy * out_width + ox == idx {
                        crate::scan_converter::lemma_index_unique(oy, ox, out_y as int, out_x as int, out_width as int);
                    } else {
                        assert(output@[oy * out_width + ox] == prev[oy * out_width + ox]);
                        if oy == out_y && ox == out_x {
                        } else {
                            assert(prev[oy * out_width + ox] == block_alpha(mono@, mw, mh, f, ox, oy));
                        }
                    }
                }
            }
            out_x = out_x + 1;
        }
        out_y = out_y + 1;
    }
    output
}

/// Downsample a monochrome bitmap to grayscale (the scalar path is the only one).
pub fn downsample_to_grayscale(
    mono: &Vec<u8>,
    mono_width: usize,
    mono_height: usize,
    out_width: usize,
    out_height: usize,
    level: GrayscaleLevel,
) -> (r: Vec<u8>)
    requires
        mono_width * mono_height <= mono@.len(),
        out_width * out_height <= usize::MAX,
        out_width * level.factor_spec() <= usize::MAX,
        out_height * level.factor_spec() <= usize::MAX,
    ensures
        r@.len() == out_width * out_height,
        forall|oy: int, ox: int|
            0 <= oy < out_height && 0 <= ox < out_width ==> #[trigger] r@[oy * out_width + ox]
                == block_alpha(
                mono@,
                mono_width as int,
                mono_height as int,
                level.factor_spec(),
                ox,
                oy,
            ),
{
    downsample_to_grayscale_scalar(mono, mono_width, mono_height, out_width, out_height, level)
}

/// The `width × height` alpha map that oversampling `image` (of size
/// `width * f × height * f`) by factor `f` yields.
pub open spec fn alpha_map(image: Seq<u8>, width: int, height: int, f: int) -> Seq<u8> {
    Seq::new(
        (width * height) as nat,
        |i: int| block_alpha(image, width * f, height * f, f, i % width, i / width) as u8,
    )
}

proof fn lemma_alpha_map(r: Seq<u8>, image: Seq<u8>, width: int, height: int, f: int)
    requires
        width >= 0,
        height >= 0,
        r.len() == width * height,
        forall|oy: int, ox: int|
            0 <= oy < height && 0 <= ox < width ==> #[trigger] r[oy * width + ox] == block_alpha(
                image,
                width * f,
                height * f,
                f,
                ox,
                oy,
            ),
    ensures
        r == alpha_map(image, width, height, f),
{
    assert forall|i: int| 0 <= i < width * height implies #[trigger] r[i] == alpha_map(
        image,
        width,
        height,
        f,
    )[i] by {
        vstd::arithmetic::div_mod::lemma_fundamental_div_mod(i, width);
        let oy = i / width;
        let ox = i % width;
        assert(0 <= oy < height) by (nonlinear_arith)
            requires 0 <= i < width * height, width > 0, oy == i / width, i == width * oy + ox, 0 <= ox < width;
        assert(i == oy * width + ox) by (nonlinear_arith)
            requires i == width * oy + ox;
        assert(r[oy * width + ox] == block_alpha(image, width * f, height * f, f, ox, oy));
    }
    assert(r =~= alpha_map(image, width, height, f));
}

/// Render the outline already loaded into `sc` (which must be sized for the
/// oversampled resolution, `width * factor × height * factor`) and average it
/// down to a `width × height` alpha map.
pub fn render_grayscale(sc: &mut ScanConverter, width: usize, height: usize, level: GrayscaleLevel) -> (r:
    Vec<u8>)
    requires
        old(sc).wf(),
        old(sc).w() == width * level.factor_spec(),
        old(sc).h() == height * level.factor_spec(),
        width * level.factor_spec() <= usize::MAX,
        height * level.factor_spec() <= usize::MAX,
        width * level.factor_spec() * (height * level.factor_spec()) <= usize::MAX,
        scan_fits(old(sc).active(), old(sc).table(), old(sc).h()),
    ensures
        final(sc).wf(),
        final(sc).table() == old(sc).table(),
        final(sc).active() == carried_into(old(sc).active(), old(sc).table(), old(sc).h()),
        final(sc).outline() == old(sc).outline(),
        final(sc).rule() == old(sc).rule(),
        final(sc).dropout() == old(sc).dropout(),
        final(sc).w() == old(sc).w(),
        final(sc).h() == old(sc).h(),
        r@ == alpha_map(
            mono_image(old(sc).active(), old(sc).table(), old(sc).rule(), old(sc).w(), old(sc).h()),
            width as int,
            height as int,
            level.factor_spec(),
        ),
{
    let factor = level.factor();
    proof {
        sc.lemma_wf();
        let f = factor as int;
        assert(width * height <= width * f * (height * f)) by (nonlinear_arith)
            requires f >= 2;

    }
    let mono_width = width * factor;
    let mono_height = height * factor;
    let total = mono_width * mono_height;
    let mut mono_bitmap: Vec<u8> = Vec::with_capacity(total);
    let mut k: usize = 0;
    while k < total
        invariant
            0 <= k <= total,
            mono_bitmap@.len() == k,
        decreases total - k,
    {
        mono_bitmap.push(0u8);
        k = k + 1;
    }
    sc.render_mono(&mut mono_bitmap);
    let r = downsample_to_grayscale(&mono_bitmap, mono_width, mono_height, width, height, level);
    proof {
        lemma_alpha_map(r@, mono_bitmap@, width as int, height as int, factor as int);
    }
    r
}

/// The monochrome image of `outline` drawn at `factor` times the resolution.
pub open spec fn oversampled_image(
    width: int,
    height: int,
    level: GrayscaleLevel,
    outline: Seq<PathCommand>,
) -> Seq<u8> {
    let f = level.factor_spec();
    let st0: OutlineState = (
        Seq::new((height * f) as nat, |i: int| Seq::<Edge>::empty()),
        (F26Dot6(0), F26Dot6(0)),
        (F26Dot6(0), F26Dot6(0)),
    );
    let table = path_effect(st0, height * f, outline).0;
    mono_image(Seq::<Edge>::empty(), table, FillRule::NonZeroWinding, width * f, height * f)
}

/// Drawing `outline` on a fresh oversampled converter and scanning it never
/// overflows.
pub open spec fn direct_safe(width: int, height: int, level: GrayscaleLevel, outline: Seq<PathCommand>) -> bool {
    let f = level.factor_spec();
    let st0: OutlineState = (
        Seq::new((height * f) as nat, |i: int| Seq::<Edge>::empty()),
        (F26Dot6(0), F26Dot6(0)),
        (F26Dot6(0), F26Dot6(0)),
    );
    &&& path_safe(st0, height * f, outline)
    &&& scan_fits(Seq::<Edge>::empty(), path_effect(st0, height * f, outline).0, height * f)
}

/// Draw `outline` (in oversampled coordinates) on a fresh scan converter of
/// `width * factor × height * factor`, render it, and average it down to a
/// `width × height` alpha map.
pub fn render_grayscale_direct(
    width: usize,
    height: usize,
    level: GrayscaleLevel,
    outline: &Vec<PathCommand>,
) -> (r: Vec<u8>)
    requires
        width * level.factor_spec() <= i32::MAX,
        height * level.factor_spec() <= i32::MAX,
        width * level.factor_spec() * (height * level.factor_spec()) <= usize::MAX,
        direct_safe(width as int, height as int, level, outline@),
    ensures
        r@ == alpha_map(
            oversampled_image(width as int, height as int, level, outline@),
            width as int,
            height as int,
            level.factor_spec(),
        ),
{
    let factor = level.factor();
    let oversample_width = width * factor;
    let oversample_height = height * factor;
    let mut sc = ScanConverter::new(oversample_width, oversample_height);
    proof {
        assert(sc.outline() == (
            Seq::new((height * factor) as nat, |i: int| Seq::<Edge>::empty()),
            (F26Dot6(0), F26Dot6(0)),
            (F26Dot6(0), F26Dot6(0)),
        ));
    }
    sc.apply_path(outline);
    render_grayscale(&mut sc, width, height, level)
}

/// Sample `i` of the block row starting at column `x0` of sample row `y`,
/// as the wide-register downsampler reads it: a row whose block lies wholly
/// inside the buffer is read directly (past the row's end it runs into the
/// next row); otherwise columns past the bitmap's width count as 0.
pub open spec fn wide_sample(mono: Seq<u8>, mw: int, y: int, x0: int, f: int, i: int) -> int {
    if y * mw + x0 + f <= mono.len() {
        mono[y * mw + x0 + i] as int
    } else if x0 + i < mw {
        mono[y * mw + x0 + i] as int
    } else {
        0
    }
}

/// The sum of the first `n` samples of a block row.
pub open spec fn wide_row_sum(mono: Seq<u8>, mw: int, y: int, x0: int, f: int, n: int) -> int
    decreases n,
{
    if n <= 0 {
        0
    } else {
        wide_row_sum(mono, mw, y, x0, f, n - 1) + wide_sample(mono, mw, y, x0, f, n - 1)
    }
}

/// The sum of the first `m` rows of the `f × f` block of output pixel
/// `(ox, oy)`.
pub open spec fn wide_block_sum(mono: Seq<u8>, mw: int, ox: int, oy: int, f: int, m: int) -> int
    decreases m,
{
    if m <= 0 {
        0
    } else {
        wide_block_sum(mono, mw, ox, oy, f, m - 1) + wide_row_sum(mono, mw, oy * f + m - 1, ox * f, f, f)
    }
}

/// `sum * 255 / (f * f)` rounded half up, at most 255.
pub open spec fn rounded_alpha(sum: int, f: int) -> int {
    let v = (2 * sum * 255 + f * f) / (2 * f * f);
    if v > 255 {
        255
    } else {
        v
    }
}

/// The reads of a block row starting at `x0` in sample row `y` stay in the
/// buffer: the whole block fits, or the columns inside the width do.
pub open spec fn row_readable(len: int, mw: int, y: int, x0: int, f: int) -> bool {
    ||| y * mw + x0 + f <= len
    ||| x0 >= mw
    ||| y * mw + (if x0 + f < mw {
        x0 + f
    } else {
        mw
    }) <= len
}

/// Every block row the downsampler reads stays in the buffer.
pub open spec fn wide_readable(len: int, mw: int, ow: int, oh: int, f: int) -> bool {
    forall|y: int, ox: int|
        0 <= y < oh * f && 0 <= ox < ow ==> #[trigger] row_readable(len, mw, y, ox * f, f)
}

/// One block row's sum, as code.
fn wide_row_sum_exec(mono: &Vec<u8>, mw: usize, y: usize, x0: usize, f: usize) -> (r: u32)
    requires
        2 <= f <= 8,
        y * mw + x0 + f <= usize::MAX,
        row_readable(mono@.len() as int, mw as int, y as int, x0 as int, f as int),
    ensures
        r == wide_row_sum(mono@, mw as int, y as int, x0 as int, f as int, f as int),
        r <= 255 * f,
{
    let row_start = y * mw + x0;
    let fast = row_start + f <= mono.len();
    let mut sum: u32 = 0;
    let mut i: usize = 0;
    while i < f
        invariant
            2 <= f <= 8,
            row_start == y * mw + x0,
            row_start + f <= usize::MAX,
            fast == (row_start + f <= mono@.len()),
            row_readable(mono@.len() as int, mw as int, y as int, x0 as int, f as int),
            0 <= i <= f,
            sum == wide_row_sum(mono@, mw as int, y as int, x0 as int, f as int, i as int),
            sum <= 255 * i,
        decreases f - i,
    {
        if fast || x0 + i < mw {
            proof {
                if !fast {
                    assert(y * mw + x0 + i < mono@.len());
                }
            }
            sum = sum + mono[row_start + i] as u32;
        }
        i = i + 1;
    }
    sum
}

/// Downsample with the wide-register reading pattern: each output pixel is
/// the sum of the sample bytes of its `factor × factor` block, scaled to
/// 0..255 and rounded (see `wide_sample` for the reads near the buffer's
/// end).  Output pixel `k` is `(k % out_width, k / out_width)`.
pub fn downsample_to_grayscale_simd(
    mono: &Vec<u8>,
    mono_width: usize,
    mono_height: usize,
    out_width: usize,
    out_height: usize,
    level: GrayscaleLevel,
) -> (r: Vec<u8>)
    requires
        out_width * out_height <= usize::MAX,
        out_height * level.factor_spec() <= usize::MAX,
        (out_height * level.factor_spec()) * mono_width + out_width * level.factor_spec()
            + level.factor_spec() <= usize::MAX,
        wide_readable(
            mono@.len() as int,
            mono_width as int,
            out_width as int,
            out_height as int,
            level.factor_spec(),
        ),
    ensures
        r@ == Seq::new(
            (out_width * out_height) as nat,
            |k: int|
                rounded_alpha(
                    wide_block_sum(
                        mono@,
                        mono_width as int,
                        k % (out_width as int),
                        k / (out_width as int),
                        level.factor_spec(),
                        level.factor_spec(),
                    ),
                    level.factor_spec(),
                ) as u8,
        ),
{
    let factor = level.factor();
    let ghost f = factor as int;
    let ghost mw = mono_width as int;
    let total = out_width * out_height;
    let ghost want = Seq::new(
        total as nat,
        |k: int|
            rounded_alpha(
                wide_block_sum(mono@, mw, k % (out_width as int), k / (out_width as int), f, f),
                f,
            ) as u8,
    );
    let mut output: Vec<u8> = Vec::with_capacity(total);
    let mut k: usize = 0;
    while k < total
        invariant
            factor == f,
            f == level.factor_spec(),
            2 <= f <= 8,
            mw == mono_width,
            total == out_width * out_height,
            out_height * f <= usize::MAX,
            (out_height * f) * mono_width + out_width * f + f <= usize::MAX,
            wide_readable(mono@.len() as int, mw, out_width as int, out_height as int, f),
            want == Seq::new(
                total as nat,
                |j: int|
                    rounded_alpha(
                        wide_block_sum(mono@, mw, j % (out_width as int), j / (out_width as int), f, f),
                        f,
                    ) as u8,
            ),
            0 <= k <= total,
            output@ == want.take(k as int),
        decreases total - k,
    {
        let ox = k % out_width;
        let oy = k / out_width;
        proof {
            assert(0 <= oy < out_height && ox < out_width) by (nonlinear_arith)
                requires
                    k < out_width * out_height,
                    ox == k % out_width,
                    oy == k / out_width,
                    out_width > 0,
            ;
        }
        let mut sum: u32 = 0;
        let mut dy: usize = 0;
        while dy < factor
            invariant
                factor == f,
                2 <= f <= 8,
                mw == mono_width,
                0 <= oy < out_height,
                0 <= ox < out_width,
                out_height * f <= usize::MAX,
                (out_height * f) * mono_width + out_width * f + f <= usize::MAX,
                wide_readable(mono@.len() as int, mw, out_width as int, out_height as int, f),
                0 <= dy <= factor,
                sum == wide_block_sum(mono@, mw, ox as int, oy as int, f, dy as int),
                sum <= 255 * f * dy,
            decreases factor - dy,
        {
            proof {
                assert(oy * f + dy < out_height * f) by (nonlinear_arith)
                    requires
                        0 <= oy < out_height,
                        0 <= dy < f,
                ;
                assert((oy * f + dy) * mono_width + ox * f + f <= (out_height * f) * mono_width
                    + out_width * f + f) by (nonlinear_arith)
                    requires
                        0 <= oy < out_height,
                        0 <= dy < f,
                        0 <= ox < out_width,
                        mono_width >= 0,
                        f >= 0,
                ;
                assert(row_readable(mono@.len() as int, mw, oy * f + dy, ox * f, f));
                assert(255 * f * dy + 255 * f == 255 * f * (dy + 1)) by (nonlinear_arith);
            }
            let row = wide_row_sum_exec(mono, mono_width, oy * factor + dy, ox * factor, factor);
            proof {
                assert(255 * f * dy + 255 * f <= 255 * 8 * 8) by (nonlinear_arith)
                    requires
                        2 <= f <= 8,
                        0 <= dy < f,
                ;
            }
            sum = sum + row;
            dy = dy + 1;
        }
        proof {
            assert(sum <= 255 * 64) by (nonlinear_arith)
                requires
                    sum <= 255 * f * f,
                    2 <= f <= 8,
            ;
        }
        let ff = (factor * factor) as u32;
        let v: u32 = (2 * sum * 255 + ff) / (2 * ff);
        let alpha: u8 = if v > 255 {
            255
        } else {
            v as u8
        };
        output.push(alpha);
        proof {
            assert(output@ =~= want.take(k + 1));
        }
        k = k + 1;
    }
    assert(output@ =~= want);
    output
}

/// A block row read by the wide downsampler sums to its covered-sample
/// count when the row lies inside a 0/1 bitmap.
proof fn lemma_row_sums_agree(mono: Seq<u8>, mw: int, mh: int, y: int, x0: int, f: int, n: int)
    requires
        0 <= n <= f,
        0 <= x0,
        x0 + f <= mw,
        0 <= y < mh,
        mono.len() == mw * mh,
        forall|i: int| 0 <= i < mono.len() ==> #[trigger] mono[i] <= 1,
    ensures
        wide_row_sum(mono, mw, y, x0, f, n) == row_coverage(mono, mw, mh, x0, y, n),
    decreases n,
{
    if n > 0 {
        lemma_row_sums_agree(mono, mw, mh, y, x0, f, n - 1);
        assert(y * mw + x0 + f <= mono.len()) by (nonlinear_arith)
            requires
                0 <= y < mh,
                x0 + f <= mw,
                mono.len() == mw * mh,
        ;
        let idx = y * mw + x0 + n - 1;
        assert(0 <= idx < mono.len()) by (nonlinear_arith)
            requires
                idx == y * mw + x0 + n - 1,
                y * mw + x0 + f <= mono.len(),
                0 <= y,
                0 <= x0,
                0 <= mw,
                1 <= n <= f,
        ;
        assert(mono[idx] <= 1);
    }
}

/// The wide downsampler's block sum is the block's covered-sample count
/// for a block inside a 0/1 bitmap.
proof fn lemma_block_sums_agree(
    mono: Seq<u8>,
    mw: int,
    mh: int,
    ox: int,
    oy: int,
    f: int,
    m: int,
)
    requires
        0 <= m <= f,
        0 <= ox,
        0 <= oy,
        (ox + 1) * f <= mw,
        (oy + 1) * f <= mh,
        mono.len() == mw * mh,
        forall|i: int| 0 <= i < mono.len() ==> #[trigger] mono[i] <= 1,
    ensures
        wide_block_sum(mono, mw, ox, oy, f, m) == block_coverage(mono, mw, mh, ox * f, oy * f, f, m),
    decreases m,
{
    if m > 0 {
        lemma_block_sums_agree(mono, mw, mh, ox, oy, f, m - 1);
        assert(ox * f + f <= mw && 0 <= ox * f && 0 <= oy * f + m - 1 < mh) by (nonlinear_arith)
            requires
                0 <= ox,
                0 <= oy,
                1 <= m <= f,
                (ox + 1) * f <= mw,
                (oy + 1) * f <= mh,
        ;
        lemma_row_sums_agree(mono, mw, mh, oy * f + m - 1, ox * f, f, f);
    }
}

/// The wide and the scalar downsampler agree within one on a 0/1 bitmap
/// whose blocks lie inside it: for output pixel `(ox, oy)`, which is pixel
/// `oy * ow + ox` of both results, the wide value (rounded) is the scalar
/// value (rounded down) or one more.
pub proof fn lemma_wide_downsample_agrees(
    mono: Seq<u8>,
    mw: int,
    mh: int,
    ow: int,
    oh: int,
    level: GrayscaleLevel,
    ox: int,
    oy: int,
)
    requires
        mono.len() == mw * mh,
        forall|i: int| 0 <= i < mono.len() ==> #[trigger] mono[i] <= 1,
        ow * level.factor_spec() <= mw,
        oh * level.factor_spec() <= mh,
        0 <= ox < ow,
        0 <= oy < oh,
    ensures
        (oy * ow + ox) % ow == ox,
        (oy * ow + ox) / ow == oy,
        block_alpha(mono, mw, mh, level.factor_spec(), ox, oy) <= rounded_alpha(
            wide_block_sum(mono, mw, ox, oy, level.factor_spec(), level.factor_spec()),
            level.factor_spec(),
        ) <= block_alpha(mono, mw, mh, level.factor_spec(), ox, oy) + 1,
{
    let f = level.factor_spec();
    assert((ox + 1) * f <= mw && (oy + 1) * f <= mh) by (nonlinear_arith)
        requires
            ow * f <= mw,
            oh * f <= mh,
            0 <= ox < ow,
            0 <= oy < oh,
            f >= 2,
    ;
    lemma_block_sums_agree(mono, mw, mh, ox, oy, f, f);
    lemma_block_coverage_bound(mono, mw, mh, ox * f, oy * f, f, f);
    let c = block_coverage(mono, mw, mh, ox * f, oy * f, f, f);
    assert(0 <= c <= f * f);
    if f == 2 {
        assert(c * 255 / 4 <= (2 * c * 255 + 4) / 8 <= c * 255 / 4 + 1);
        assert((2 * c * 255 + 4) / 8 <= 255);
    } else if f == 4 {
        assert(c * 255 / 16 <= (2 * c * 255 + 16) / 32 <= c * 255 / 16 + 1);
        assert((2 * c * 255 + 16) / 32 <= 255);
    } else {
        assert(c * 255 / 64 <= (2 * c * 255 + 64) / 128 <= c * 255 / 64 + 1);
        assert((2 * c * 255 + 64) / 128 <= 255);
    }
    assert((oy * ow + ox) % ow == ox && (oy * ow + ox) / ow == oy) by (nonlinear_arith)
        requires
            0 <= ox < ow,
            0 <= oy,
    ;
}

} // verus!
