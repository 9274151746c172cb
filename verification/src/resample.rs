//! Bilinear RGB resampler producing a normalized, channel-planar tensor.
//!
//! The resampler uses the half-pixel-center convention: output pixel `o`
//! maps to source coordinate `(o + 0.5) * (src / dst) - 0.5`, a rational
//! with denominator `2 * dst`. The floor of that coordinate, clamped at
//! zero, picks the lower sample; the upper sample is edge-clamped to the
//! last column or row. The blending weight is the fractional part of the
//! un-clamped coordinate, so everything here is exact integer arithmetic
//! over a common denominator: each emitted value is the bilinear sample
//! scaled by `4 * tw * th`. The normalized tensor value in `[-1, 1]` that
//! feeds the inference stage is `value / (510 * tw * th) - 1`, a division
//! the caller performs in its own numeric type.

use vstd::prelude::*;
use vstd::arithmetic::div_mod::lemma_div_multiples_vanish;
use vstd::arithmetic::div_mod::lemma_div_pos_is_pos;
use vstd::arithmetic::div_mod::lemma_fundamental_div_mod;
use vstd::arithmetic::div_mod::lemma_mod_bound;
use vstd::arithmetic::div_mod::lemma_multiply_divide_lt;
use crate::color::lemma_pixel_index_bound;

verus! {

/// Numerator of the source coordinate of output pixel `o`, over the
/// common denominator `2 * dst`: `(o + 0.5) * (src / dst) - 0.5`.
pub open spec fn coord_num(o: int, src: int, dst: int) -> int {
    (2 * o + 1) * src - dst
}

/// Lower sample index: the floor of the source coordinate, clamped at 0.
/// (The coordinate is always below `src - 1/2`, so no upper clamp is
/// ever needed on the floor itself.)
pub open spec fn lower_index(o: int, src: int, dst: int) -> int {
    if coord_num(o, src, dst) < 0 {
        0
    } else {
        coord_num(o, src, dst) / (2 * dst)
    }
}

/// Upper sample index: one past the lower sample, edge-clamped.
pub open spec fn upper_index(o: int, src: int, dst: int) -> int {
    if lower_index(o, src, dst) + 1 < src {
        lower_index(o, src, dst) + 1
    } else {
        src - 1
    }
}

/// Blending weight of the upper sample, scaled by `2 * dst`: the source
/// coordinate minus the (clamped) lower index. Negative only when the
/// un-clamped floor was below zero.
pub open spec fn weight_num(o: int, src: int, dst: int) -> int {
    coord_num(o, src, dst) - 2 * dst * lower_index(o, src, dst)
}

/// Channel `c` of source pixel (column `x`, row `y`) in an interleaved
/// RGB buffer of width `w`.
pub open spec fn rgb_at(rgb: Seq<u8>, w: int, x: int, y: int, c: int) -> int {
    rgb[(y * w + x) * 3 + c] as int
}

/// Horizontal blend of the two samples of row `ys` for output column
/// `ox`, scaled by `2 * tw`.
pub open spec fn row_blend(rgb: Seq<u8>, w: int, tw: int, ox: int, ys: int, c: int) -> int {
    let x0 = lower_index(ox, w, tw);
    let x1 = upper_index(ox, w, tw);
    let ax = weight_num(ox, w, tw);
    let p0 = rgb_at(rgb, w, x0, ys, c);
    let p1 = rgb_at(rgb, w, x1, ys, c);
    2 * tw * p0 + ax * (p1 - p0)
}

/// The full bilinear sample of channel `c` at output pixel (`ox`, `oy`),
/// scaled by `4 * tw * th`.
pub open spec fn sample_scaled(
    rgb: Seq<u8>,
    w: int,
    h: int,
    tw: int,
    th: int,
    ox: int,
    oy: int,
    c: int,
) -> int {
    let y0 = lower_index(oy, h, th);
    let y1 = upper_index(oy, h, th);
    let ay = weight_num(oy, h, th);
    let top = row_blend(rgb, w, tw, ox, y0, c);
    let bot = row_blend(rgb, w, tw, ox, y1, c);
    2 * th * top + ay * (bot - top)
}

/// Position of channel `c` of output pixel (`ox`, `oy`) in the
/// channel-planar tensor layout.
pub open spec fn tensor_index(tw: int, th: int, ox: int, oy: int, c: int) -> int {
    c * (tw * th) + oy * tw + ox
}

/// The lower sample index lies within the source extent.
pub proof fn lemma_lower_index_range(o: int, src: int, dst: int)
    requires
        0 <= o < dst,
        1 <= src,
        1 <= dst,
    ensures
        0 <= lower_index(o, src, dst) <= src - 1,
{
    let n = coord_num(o, src, dst);
    if n >= 0 {
        lemma_div_pos_is_pos(n, 2 * dst);
        assert(n < src * (2 * dst)) by (nonlinear_arith)
            requires
                0 <= o < dst,
                1 <= src,
                1 <= dst,
                n == (2 * o + 1) * src - dst,
        ;
        lemma_multiply_divide_lt(n, 2 * dst, src);
    }
}

/// The scaled blending weight is below one pixel in magnitude, and it is
/// nonnegative whenever the target extent does not exceed the source
/// extent (no upscaling along the axis).
pub proof fn lemma_weight_range(o: int, src: int, dst: int)
    requires
        0 <= o < dst,
        1 <= src,
        1 <= dst,
    ensures
        -dst < weight_num(o, src, dst) < 2 * dst,
        dst <= src ==> 0 <= weight_num(o, src, dst),
{
    let n = coord_num(o, src, dst);
    assert(src - dst <= n) by (nonlinear_arith)
        requires
            0 <= o,
            1 <= src,
            n == (2 * o + 1) * src - dst,
    ;
    if n >= 0 {
        lemma_fundamental_div_mod(n, 2 * dst);
        lemma_mod_bound(n, 2 * dst);
        assert(weight_num(o, src, dst) == n % (2 * dst));
    }
}

/// Channel-planar tensor positions are injective in (`ox`, `oy`, `c`).
proof fn lemma_tensor_index_unique(
    tw: int,
    th: int,
    x1: int,
    y1: int,
    c1: int,
    x2: int,
    y2: int,
    c2: int,
)
    by (nonlinear_arith)
    requires
        1 <= tw,
        1 <= th,
        0 <= x1 < tw,
        0 <= x2 < tw,
        0 <= y1 < th,
        0 <= y2 < th,
        0 <= c1,
        0 <= c2,
        tensor_index(tw, th, x1, y1, c1) == tensor_index(tw, th, x2, y2, c2),
    ensures
        x1 == x2,
        y1 == y2,
        c1 == c2,
{
}

/// Every channel-planar position of a valid output coordinate lies below
/// the tensor length.
proof fn lemma_tensor_index_bound(tw: int, th: int, ox: int, oy: int, c: int)
    by (nonlinear_arith)
    requires
        1 <= tw,
        1 <= th,
        0 <= ox < tw,
        0 <= oy < th,
        0 <= c < 3,
    ensures
        0 <= tensor_index(tw, th, ox, oy, c) < 3 * (tw * th),
{
}

/// Resampler identity: resizing to the source dimensions reproduces every
/// source value exactly — the sample of (`ox`, `oy`) is the source pixel
/// itself under the full scale factor, with zero blending error.
pub proof fn lemma_resample_identity(rgb: Seq<u8>, w: int, h: int, ox: int, oy: int, c: int)
    requires
        1 <= w,
        1 <= h,
        0 <= ox < w,
        0 <= oy < h,
        0 <= c < 3,
    ensures
        sample_scaled(rgb, w, h, w, h, ox, oy, c) == 4 * (w * h) * rgb_at(rgb, w, ox, oy, c),
{
    lemma_axis_identity(ox, w);
    lemma_axis_identity(oy, h);
    let p = rgb_at(rgb, w, ox, oy, c);
    assert(2 * h * (2 * w * p) == 4 * (w * h) * p) by (nonlinear_arith);
}

/// Along one axis, mapping an extent onto itself lands exactly on each
/// pixel center: the lower index is the pixel and the weight vanishes.
proof fn lemma_axis_identity(o: int, src: int)
    requires
        1 <= src,
        0 <= o < src,
    ensures
        lower_index(o, src, src) == o,
        weight_num(o, src, src) == 0,
{
    assert(coord_num(o, src, src) == (2 * src) * o) by (nonlinear_arith);
    assert(o * (2 * src) >= 0) by (nonlinear_arith)
        requires
            0 <= o,
            1 <= src,
    ;
    lemma_div_multiples_vanish(o, 2 * src);
    assert(2 * src * lower_index(o, src, src) == (2 * src) * o) by (nonlinear_arith)
        requires
            lower_index(o, src, src) == o,
    ;
}

/// The horizontal blend is a convex combination whenever the horizontal
/// weight is nonnegative — that is, when the axis is not upscaled or the
/// source is a single column — so it stays within the scaled byte range.
proof fn lemma_row_blend_range(rgb: Seq<u8>, w: int, tw: int, ox: int, ys: int, c: int)
    requires
        1 <= w,
        1 <= tw,
        0 <= ox < tw,
        tw <= w || w == 1,
    ensures
        0 <= row_blend(rgb, w, tw, ox, ys, c) <= 510 * tw,
{
    let x0 = lower_index(ox, w, tw);
    let x1 = upper_index(ox, w, tw);
    let ax = weight_num(ox, w, tw);
    let p0 = rgb_at(rgb, w, x0, ys, c);
    let p1 = rgb_at(rgb, w, x1, ys, c);
    lemma_lower_index_range(ox, w, tw);
    lemma_weight_range(ox, w, tw);
    if w == 1 {
        assert(x1 == x0);
        assert(0 <= 2 * tw * p0 + ax * (p0 - p0) <= 510 * tw) by (nonlinear_arith)
            requires
                1 <= tw,
                0 <= p0 <= 255,
        ;
    } else {
        assert(0 <= 2 * tw * p0 + ax * (p1 - p0) <= 510 * tw) by (nonlinear_arith)
            requires
                1 <= tw,
                0 <= ax < 2 * tw,
                0 <= p0 <= 255,
                0 <= p1 <= 255,
        ;
    }
}

/// Tensor range: wherever neither axis is upscaled (or the source is a
/// single pixel wide or tall along the upscaled axis), every scaled
/// sample lies in `[0, 1020 * tw * th]` — that is, every normalized
/// tensor value lies in `[-1, 1]`.
pub proof fn lemma_tensor_range(
    rgb: Seq<u8>,
    w: int,
    h: int,
    tw: int,
    th: int,
    ox: int,
    oy: int,
    c: int,
)
    requires
        1 <= w,
        1 <= h,
        1 <= tw,
        1 <= th,
        0 <= ox < tw,
        0 <= oy < th,
        tw <= w || w == 1,
        th <= h || h == 1,
    ensures
        0 <= sample_scaled(rgb, w, h, tw, th, ox, oy, c) <= 1020 * (tw * th),
{
    let y0 = lower_index(oy, h, th);
    let y1 = upper_index(oy, h, th);
    let ay = weight_num(oy, h, th);
    let top = row_blend(rgb, w, tw, ox, y0, c);
    let bot = row_blend(rgb, w, tw, ox, y1, c);
    lemma_row_blend_range(rgb, w, tw, ox, y0, c);
    lemma_row_blend_range(rgb, w, tw, ox, y1, c);
    lemma_lower_index_range(oy, h, th);
    lemma_weight_range(oy, h, th);
    if h == 1 {
        assert(y1 == y0);
        assert(0 <= 2 * th * top + ay * (top - top) <= 1020 * (tw * th)) by (nonlinear_arith)
            requires
                1 <= th,
                1 <= tw,
                0 <= top <= 510 * tw,
        ;
    } else {
        assert(0 <= 2 * th * top + ay * (bot - top) <= 1020 * (tw * th)) by (nonlinear_arith)
            requires
                1 <= th,
                1 <= tw,
                0 <= ay < 2 * th,
                0 <= top <= 510 * tw,
                0 <= bot <= 510 * tw,
        ;
    }
}

/// Resample an interleaved RGB image of `w` by `h` pixels to `tw` by `th`
/// and lay the result out channel-planar. Each emitted value is the exact
/// bilinear sample scaled by `4 * tw * th`; dividing by `510 * tw * th`
/// and subtracting one yields the tensor value normalized to `[-1, 1]`.
#[verifier::loop_isolation(false)]
#[verifier::rlimit(100)]
pub fn resize_to_tensor(rgb: &[u8], w: usize, h: usize, tw: usize, th: usize) -> (out: Vec<i64>)
    requires
        1 <= w <= 0x100000,
        1 <= h <= 0x100000,
        1 <= tw <= 0x100000,
        1 <= th <= 0x100000,
        rgb@.len() == w * h * 3,
        w * h * 3 <= usize::MAX,
        3 * tw * th <= usize::MAX,
    ensures
        out@.len() == 3 * (tw as int) * (th as int),
        forall|c: int, oy: int, ox: int|
            0 <= c < 3 && 0 <= oy < th && 0 <= ox < tw ==> out@[tensor_index(
                tw as int,
                th as int,
                ox,
                oy,
                c,
            )] == #[trigger] sample_scaled(rgb@, w as int, h as int, tw as int, th as int, ox, oy, c),
{
    let ghost twi = tw as int;
    let ghost thi = th as int;
    let ghost wi = w as int;
    let ghost hi = h as int;
    let mut out: Vec<i64> = Vec::new();
    let mut c: usize = 0;
    while c < 3
        invariant
            c <= 3,
            out@.len() == c * (twi * thi),
            forall|c2: int, oy2: int, ox2: int|
                0 <= c2 < 3 && 0 <= oy2 < th && 0 <= ox2 < tw && tensor_index(twi, thi, ox2, oy2, c2)
                    < out@.len() ==> out@[tensor_index(twi, thi, ox2, oy2, c2)]
                    == #[trigger] sample_scaled(rgb@, wi, hi, twi, thi, ox2, oy2, c2),
        decreases 3 - c,
    {
        let mut oy: usize = 0;
        while oy < th
            invariant
                c < 3,
                oy <= th,
                out@.len() == c * (twi * thi) + oy * twi,
                forall|c2: int, oy2: int, ox2: int|
                    0 <= c2 < 3 && 0 <= oy2 < th && 0 <= ox2 < tw && tensor_index(
                        twi,
                        thi,
                        ox2,
                        oy2,
                        c2,
                    ) < out@.len() ==> out@[tensor_index(twi, thi, ox2, oy2, c2)]
                        == #[trigger] sample_scaled(rgb@, wi, hi, twi, thi, ox2, oy2, c2),
            decreases th - oy,
        {
            proof {
                lemma_lower_index_range(oy as int, hi, thi);
                lemma_weight_range(oy as int, hi, thi);
                lemma_axis_exec_fits(oy as int, hi, thi, 0);
            }
            let n_y: u64 = (2 * (oy as u64) + 1) * (h as u64);
            let y0: usize = if n_y < th as u64 {
                0
            } else {
                ((n_y - th as u64) / (2 * (th as u64))) as usize
            };
            let y1: usize = if y0 + 1 < h {
                y0 + 1
            } else {
                h - 1
            };
            proof {
                lemma_axis_exec_fits(oy as int, hi, thi, y0 as int);
            }
            let ay: i64 = n_y as i64 - th as i64 - 2 * (th as i64) * (y0 as i64);
            proof {
                assert(y0 == lower_index(oy as int, hi, thi));
                assert(y1 == upper_index(oy as int, hi, thi));
                assert(ay == weight_num(oy as int, hi, thi));
            }
            let mut ox: usize = 0;
            while ox < tw
                invariant
                    c < 3,
                    oy < th,
                    ox <= tw,
                    y0 == lower_index(oy as int, hi, thi),
                    y1 == upper_index(oy as int, hi, thi),
                    ay == weight_num(oy as int, hi, thi),
                    out@.len() == c * (twi * thi) + oy * twi + ox,
                    forall|c2: int, oy2: int, ox2: int|
                        0 <= c2 < 3 && 0 <= oy2 < th && 0 <= ox2 < tw && tensor_index(
                            twi,
                            thi,
                            ox2,
                            oy2,
                            c2,
                        ) < out@.len() ==> out@[tensor_index(twi, thi, ox2, oy2, c2)]
                            == #[trigger] sample_scaled(rgb@, wi, hi, twi, thi, ox2, oy2, c2),
                decreases tw - ox,
            {
                proof {
                    lemma_lower_index_range(ox as int, wi, twi);
                    lemma_weight_range(ox as int, wi, twi);
                    lemma_lower_index_range(oy as int, hi, thi);
                    lemma_weight_range(oy as int, hi, thi);
                    lemma_axis_exec_fits(ox as int, wi, twi, 0);
                }
                let n_x: u64 = (2 * (ox as u64) + 1) * (w as u64);
                let x0: usize = if n_x < tw as u64 {
                    0
                } else {
                    ((n_x - tw as u64) / (2 * (tw as u64))) as usize
                };
                let x1: usize = if x0 + 1 < w {
                    x0 + 1
                } else {
                    w - 1
                };
                proof {
                    lemma_axis_exec_fits(ox as int, wi, twi, x0 as int);
                }
                let ax: i64 = n_x as i64 - tw as i64 - 2 * (tw as i64) * (x0 as i64);
                proof {
                    assert(x0 == lower_index(ox as int, wi, twi));
                    assert(x1 == upper_index(ox as int, wi, twi));
                    assert(ax == weight_num(ox as int, wi, twi));
                    lemma_pixel_index_bound(wi, hi, y0 as int, x0 as int);
                    lemma_pixel_index_bound(wi, hi, y0 as int, x1 as int);
                    lemma_pixel_index_bound(wi, hi, y1 as int, x0 as int);
                    lemma_pixel_index_bound(wi, hi, y1 as int, x1 as int);
                }
                let p00 = rgb[(y0 * w + x0) * 3 + c] as i64;
                let p10 = rgb[(y0 * w + x1) * 3 + c] as i64;
                let p01 = rgb[(y1 * w + x0) * 3 + c] as i64;
                let p11 = rgb[(y1 * w + x1) * 3 + c] as i64;
                proof {
                    lemma_blend_fits(twi, ax as int, p00 as int, p10 as int);
                    lemma_blend_fits(twi, ax as int, p01 as int, p11 as int);
                }
                let top: i64 = 2 * (tw as i64) * p00 + ax * (p10 - p00);
                let bot: i64 = 2 * (tw as i64) * p01 + ax * (p11 - p01);
                proof {
                    lemma_outer_blend_fits(thi, ay as int, top as int, bot as int);
                }
                let val: i64 = 2 * (th as i64) * top + ay * (bot - top);
                let ghost prev = out@;
                out.push(val);
                proof {
                    assert(val == sample_scaled(rgb@, wi, hi, twi, thi, ox as int, oy as int, c as int));
                    assert forall|c2: int, oy2: int, ox2: int|
                        0 <= c2 < 3 && 0 <= oy2 < th && 0 <= ox2 < tw && tensor_index(
                            twi,
                            thi,
                            ox2,
                            oy2,
                            c2,
                        ) < out@.len() implies out@[tensor_index(twi, thi, ox2, oy2, c2)]
                            == #[trigger] sample_scaled(rgb@, wi, hi, twi, thi, ox2, oy2, c2) by {
                        lemma_tensor_index_bound(twi, thi, ox2, oy2, c2);
                        if tensor_index(twi, thi, ox2, oy2, c2) == prev.len() {
                            lemma_tensor_index_unique(
                                twi,
                                thi,
                                ox2,
                                oy2,
                                c2,
                                ox as int,
                                oy as int,
                                c as int,
                            );
                        } else {
                            assert(out@[tensor_index(twi, thi, ox2, oy2, c2)] == prev[tensor_index(
                                twi,
                                thi,
                                ox2,
                                oy2,
                                c2,
                            )]);
                        }
                    }
                }
                ox = ox + 1;
            }
            proof {
                assert(c * (twi * thi) + oy * twi + twi == c * (twi * thi) + (oy + 1) * twi)
                    by (nonlinear_arith);
            }
            oy = oy + 1;
        }
        proof {
            assert(c * (twi * thi) + thi * twi == (c + 1) * (twi * thi)) by (nonlinear_arith);
        }
        c = c + 1;
    }
    proof {
        assert(3 * (twi * thi) == 3 * twi * thi) by (nonlinear_arith);
        assert forall|c2: int, oy2: int, ox2: int| 0 <= c2 < 3 && 0 <= oy2 < th && 0 <= ox2 < tw
            implies out@[tensor_index(twi, thi, ox2, oy2, c2)] == #[trigger] sample_scaled(
            rgb@,
            wi,
            hi,
            twi,
            thi,
            ox2,
            oy2,
            c2,
        ) by {
            lemma_tensor_index_bound(twi, thi, ox2, oy2, c2);
        }
    }
    out
}

/// One axis blend and each of its two products stay within `i64` for the
/// supported frame sizes.
proof fn lemma_blend_fits(t: int, ax: int, p0: int, p1: int)
    by (nonlinear_arith)
    requires
        1 <= t <= 0x100000,
        -t < ax < 2 * t,
        0 <= p0 <= 255,
        0 <= p1 <= 255,
    ensures
        0 <= 2 * t * p0 <= 0x20000000,
        -0x20000000 <= ax * (p1 - p0) <= 0x20000000,
        -0x40000000 <= 2 * t * p0 + ax * (p1 - p0) <= 0x40000000,
{
}

/// The outer blend of the two row blends and each of its two products
/// stay within `i64` as well.
proof fn lemma_outer_blend_fits(th: int, ay: int, top: int, bot: int)
    by (nonlinear_arith)
    requires
        1 <= th <= 0x100000,
        -th < ay < 2 * th,
        -0x40000000 <= top <= 0x40000000,
        -0x40000000 <= bot <= 0x40000000,
    ensures
        -0x10000000000000 <= 2 * th * top <= 0x10000000000000,
        -0x20000000000000 <= ay * (bot - top) <= 0x20000000000000,
        -0x40000000000000 <= 2 * th * top + ay * (bot - top) <= 0x40000000000000,
{
}

/// The scaled coordinate numerator and the weight's index product of one
/// axis stay within the exec integer widths for the supported frame
/// sizes.
proof fn lemma_axis_exec_fits(o: int, src: int, dst: int, q: int)
    by (nonlinear_arith)
    requires
        0 <= o < dst,
        1 <= src <= 0x100000,
        1 <= dst <= 0x100000,
        0 <= q < src,
    ensures
        0 < (2 * o + 1) * src <= 0x20000000000,
        0 <= 2 * dst * q <= 0x20000000000,
{
}

} // verus!
