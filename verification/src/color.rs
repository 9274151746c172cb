//! Planar YUV 4:2:0 to interleaved RGB conversion.
//!
//! The conversion is the BT.601 fixed-point transform: per pixel,
//! `c = Y - 16`, `d = U - 128`, `e = V - 128`, and each channel is
//! `clamp((coeffs + 128) >> 8, 0, 255)`, where the `+ 128` rounds and the
//! shift divides by 256. Chroma is subsampled by two in both axes and is
//! looked up with floor indexing, so odd trailing rows and columns reuse
//! the previous chroma sample.

use vstd::prelude::*;

verus! {

/// Clamp a mathematical integer into the byte range.
pub open spec fn clamp_byte(x: int) -> u8 {
    if x < 0 {
        0u8
    } else if x > 255 {
        255u8
    } else {
        x as u8
    }
}

/// Red channel of the BT.601 fixed-point transform, given raw samples.
pub open spec fn yuv_r(yv: int, uv: int, vv: int) -> u8 {
    clamp_byte((256 * (yv - 16) + 359 * (vv - 128) + 128) / 256)
}

/// Green channel of the BT.601 fixed-point transform, given raw samples.
pub open spec fn yuv_g(yv: int, uv: int, vv: int) -> u8 {
    clamp_byte((256 * (yv - 16) - 88 * (uv - 128) - 183 * (vv - 128) + 128) / 256)
}

/// Blue channel of the BT.601 fixed-point transform, given raw samples.
pub open spec fn yuv_b(yv: int, uv: int, vv: int) -> u8 {
    clamp_byte((256 * (yv - 16) + 454 * (uv - 128) + 128) / 256)
}

/// Luma sample of pixel (row `j`, column `i`) in a strided plane.
pub open spec fn luma_at(y: Seq<u8>, stride: int, j: int, i: int) -> int {
    y[j * stride + i] as int
}

/// Chroma sample of pixel (row `j`, column `i`): the planes are subsampled
/// by two in both axes, with floor indexing.
pub open spec fn chroma_at(p: Seq<u8>, stride: int, j: int, i: int) -> int {
    p[(j / 2) * stride + i / 2] as int
}

/// Channel `c` (0 = R, 1 = G, 2 = B) of the converted pixel at
/// (row `j`, column `i`).
pub open spec fn rgb_pixel_channel(
    y: Seq<u8>,
    u: Seq<u8>,
    v: Seq<u8>,
    stride_y: int,
    stride_u: int,
    stride_v: int,
    j: int,
    i: int,
    c: int,
) -> u8 {
    let yv = luma_at(y, stride_y, j, i);
    let uv = chroma_at(u, stride_u, j, i);
    let vv = chroma_at(v, stride_v, j, i);
    if c == 0 {
        yuv_r(yv, uv, vv)
    } else if c == 1 {
        yuv_g(yv, uv, vv)
    } else {
        yuv_b(yv, uv, vv)
    }
}

/// Every converted channel lies in the byte range, for all sample values:
/// the clamp before the narrowing cast can never be bypassed.
pub proof fn lemma_channel_range(yv: int, uv: int, vv: int)
    ensures
        0 <= yuv_r(yv, uv, vv) <= 255,
        0 <= yuv_g(yv, uv, vv) <= 255,
        0 <= yuv_b(yv, uv, vv) <= 255,
{
}

/// Achromatic invariance: where both chroma samples sit at the neutral
/// value 128, the three converted channels agree, so gray input stays gray.
pub proof fn lemma_achromatic(yv: int)
    ensures
        yuv_r(yv, 128, 128) == yuv_g(yv, 128, 128),
        yuv_g(yv, 128, 128) == yuv_b(yv, 128, 128),
{
}

/// Achromatic invariance over whole planes: when both chroma planes hold
/// the neutral value 128 everywhere, every converted pixel of the frame
/// has equal R, G and B.
pub proof fn lemma_achromatic_frame(
    y: Seq<u8>,
    u: Seq<u8>,
    v: Seq<u8>,
    stride_y: int,
    stride_u: int,
    stride_v: int,
    w: int,
    h: int,
    j: int,
    i: int,
)
    requires
        1 <= w,
        0 <= j < h,
        0 <= i < w,
        (w + 1) / 2 <= stride_u,
        (w + 1) / 2 <= stride_v,
        ((h + 1) / 2) * stride_u <= u.len(),
        ((h + 1) / 2) * stride_v <= v.len(),
        forall|k: int| 0 <= k < u.len() ==> u[k] == 128,
        forall|k: int| 0 <= k < v.len() ==> v[k] == 128,
    ensures
        rgb_pixel_channel(y, u, v, stride_y, stride_u, stride_v, j, i, 0) == rgb_pixel_channel(
            y,
            u,
            v,
            stride_y,
            stride_u,
            stride_v,
            j,
            i,
            1,
        ),
        rgb_pixel_channel(y, u, v, stride_y, stride_u, stride_v, j, i, 1) == rgb_pixel_channel(
            y,
            u,
            v,
            stride_y,
            stride_u,
            stride_v,
            j,
            i,
            2,
        ),
{
    lemma_chroma_index_bound(j, i, h, w, stride_u);
    lemma_chroma_index_bound(j, i, h, w, stride_v);
    assert(chroma_at(u, stride_u, j, i) == 128);
    assert(chroma_at(v, stride_v, j, i) == 128);
    lemma_achromatic(luma_at(y, stride_y, j, i));
}

/// A pixel within the logical frame reads inside a plane of `h` rows of
/// `stride` bytes when the row payload `row_max` fits in the stride.
proof fn lemma_row_index_bound(j: int, i: int, h: int, row_max: int, stride: int)
    by (nonlinear_arith)
    requires
        0 <= j < h,
        0 <= i < row_max,
        row_max <= stride,
    ensures
        0 <= j * stride + i < h * stride,
{
}

/// The floor-indexed chroma lookup of a pixel within the logical frame
/// reads inside a plane of `ceil(h / 2)` rows of `stride` bytes.
proof fn lemma_chroma_index_bound(j: int, i: int, h: int, w: int, stride: int)
    by (nonlinear_arith)
    requires
        0 <= j < h,
        0 <= i < w,
        (w + 1) / 2 <= stride,
    ensures
        0 <= (j / 2) * stride + i / 2 < ((h + 1) / 2) * stride,
{
}

/// Row-major pixel coordinates map injectively to flat pixel indices.
proof fn lemma_pixel_index_unique(w: int, j1: int, i1: int, j2: int, i2: int)
    by (nonlinear_arith)
    requires
        1 <= w,
        0 <= i1 < w,
        0 <= i2 < w,
        0 <= j1,
        0 <= j2,
        j1 * w + i1 == j2 * w + i2,
    ensures
        j1 == j2,
        i1 == i2,
{
}

/// A pixel's flat index lies below the pixel count of the frame.
pub proof fn lemma_pixel_index_bound(w: int, h: int, j: int, i: int)
    by (nonlinear_arith)
    requires
        1 <= w,
        0 <= i < w,
        0 <= j < h,
    ensures
        0 <= j * w + i < w * h,
{
}

/// Clamp a rounded fixed-point channel value to a byte: the argument is the
/// numerator before the dividing shift.
fn clamp_shift8(x: i32) -> (r: u8)
    ensures
        r == clamp_byte(x as int / 256),
{
    if x < 0 {
        proof {
            vstd::arithmetic::div_mod::lemma_div_is_ordered(x as int, -1, 256);
            vstd::arithmetic::div_mod::lemma_basic_div_specific_divisor(256);
        }
        0
    } else {
        let q: u32 = (x as u32) / 256;
        if q > 255 {
            255
        } else {
            q as u8
        }
    }
}

/// Convert planar YUV 4:2:0 into interleaved RGB, row-major, three bytes
/// per pixel. Strides may exceed the logical row widths; the caller must
/// supply planes long enough for the requested geometry.
#[verifier::loop_isolation(false)]
pub fn yuv420_to_rgb(
    y: &[u8],
    u: &[u8],
    v: &[u8],
    w: usize,
    h: usize,
    stride_y: usize,
    stride_u: usize,
    stride_v: usize,
    out_rgb: &mut Vec<u8>,
)
    requires
        1 <= w,
        1 <= h,
        w <= stride_y,
        (w + 1) / 2 <= stride_u,
        (w + 1) / 2 <= stride_v,
        h * stride_y <= y@.len(),
        ((h + 1) / 2) * stride_u <= u@.len(),
        ((h + 1) / 2) * stride_v <= v@.len(),
        w * h * 3 <= usize::MAX,
    ensures
        final(out_rgb)@.len() == w * h * 3,
        forall|j: int, i: int, c: int|
            0 <= j < h && 0 <= i < w && 0 <= c < 3 ==> final(out_rgb)@[(j * w + i) * 3 + c]
                == #[trigger] rgb_pixel_channel(
                y@,
                u@,
                v@,
                stride_y as int,
                stride_u as int,
                stride_v as int,
                j,
                i,
                c,
            ),
{
    // Binding the plane lengths records that each fits in a machine word,
    // which bounds the strided index arithmetic below.
    let _y_len = y.len();
    let _u_len = u.len();
    let _v_len = v.len();
    out_rgb.clear();
    let mut j: usize = 0;
    while j < h
        invariant
            j <= h,
            out_rgb@.len() == (j * w) * 3,
            forall|j2: int, i2: int, c: int|
                0 <= j2 < h && 0 <= i2 < w && 0 <= c < 3 && j2 * w + i2 < j * w
                    ==> out_rgb@[(j2 * w + i2) * 3 + c] == #[trigger] rgb_pixel_channel(
                    y@,
                    u@,
                    v@,
                    stride_y as int,
                    stride_u as int,
                    stride_v as int,
                    j2,
                    i2,
                    c,
                ),
        decreases h - j,
    {
        let mut i: usize = 0;
        while i < w
            invariant
                j < h,
                i <= w,
                out_rgb@.len() == (j * w + i) * 3,
                forall|j2: int, i2: int, c: int|
                    0 <= j2 < h && 0 <= i2 < w && 0 <= c < 3 && j2 * w + i2 < j * w + i
                        ==> out_rgb@[(j2 * w + i2) * 3 + c] == #[trigger] rgb_pixel_channel(
                        y@,
                        u@,
                        v@,
                        stride_y as int,
                        stride_u as int,
                        stride_v as int,
                        j2,
                        i2,
                        c,
                    ),
            decreases w - i,
        {
            proof {
                lemma_row_index_bound(j as int, i as int, h as int, w as int, stride_y as int);
                lemma_chroma_index_bound(j as int, i as int, h as int, w as int, stride_u as int);
                lemma_chroma_index_bound(j as int, i as int, h as int, w as int, stride_v as int);
                lemma_pixel_index_bound(w as int, h as int, j as int, i as int);
            }
            let yv = y[j * stride_y + i] as i32;
            let uv = u[(j / 2) * stride_u + i / 2] as i32;
            let vv = v[(j / 2) * stride_v + i / 2] as i32;
            let c = yv - 16;
            let d = uv - 128;
            let e = vv - 128;
            let r = clamp_shift8(256 * c + 359 * e + 128);
            let g = clamp_shift8(256 * c - 88 * d - 183 * e + 128);
            let b = clamp_shift8(256 * c + 454 * d + 128);
            let ghost prev = out_rgb@;
            out_rgb.push(r);
            out_rgb.push(g);
            out_rgb.push(b);
            proof {
                let sy = stride_y as int;
                let su = stride_u as int;
                let sv = stride_v as int;
                assert(r == rgb_pixel_channel(y@, u@, v@, sy, su, sv, j as int, i as int, 0));
                assert(g == rgb_pixel_channel(y@, u@, v@, sy, su, sv, j as int, i as int, 1));
                assert(b == rgb_pixel_channel(y@, u@, v@, sy, su, sv, j as int, i as int, 2));
                assert forall|j2: int, i2: int, c2: int|
                    0 <= j2 < h && 0 <= i2 < w && 0 <= c2 < 3 && j2 * w + i2 < j * w + i + 1
                        implies out_rgb@[(j2 * w + i2) * 3 + c2] == #[trigger] rgb_pixel_channel(
                        y@,
                        u@,
                        v@,
                        sy,
                        su,
                        sv,
                        j2,
                        i2,
                        c2,
                    ) by {
                    if j2 * w + i2 == j * w + i {
                        lemma_pixel_index_unique(w as int, j2, i2, j as int, i as int);
                    } else {
                        assert(out_rgb@[(j2 * w + i2) * 3 + c2] == prev[(j2 * w + i2) * 3 + c2]);
                    }
                }
            }
            i = i + 1;
        }
        proof {
            assert((j * w + w) * 3 == ((j + 1) * w) * 3) by (nonlinear_arith);
        }
        j = j + 1;
    }
    proof {
        assert((h * w) * 3 == w * h * 3) by (nonlinear_arith);
        assert forall|j2: int, i2: int, c: int| 0 <= j2 < h && 0 <= i2 < w && 0 <= c < 3
            implies out_rgb@[(j2 * w + i2) * 3 + c] == #[trigger] rgb_pixel_channel(
            y@,
            u@,
            v@,
            stride_y as int,
            stride_u as int,
            stride_v as int,
            j2,
            i2,
            c,
        ) by {
            lemma_pixel_index_bound(w as int, h as int, j2, i2);
            assert(j2 * w + i2 < h * w) by (nonlinear_arith)
                requires 0 <= j2 < h && 0 <= i2 < w;
        }
    }
}

} // verus!
