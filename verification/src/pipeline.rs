//! Caller-facing pipeline: validation, conversion and RGBA packing.
//!
//! A frame is converted in two steps sharing one scratch arena: the color
//! converter produces interleaved RGB, and the packer expands it to RGBA
//! with the alpha byte fixed at 255. Geometry is validated once at entry;
//! past validation the pixel loops run without further checks.

use vstd::prelude::*;
use vstd::arithmetic::div_mod::lemma_fundamental_div_mod;
use vstd::arithmetic::div_mod::lemma_mod_bound;
use vstd::arithmetic::div_mod::lemma_multiply_divide_lt;
use crate::color::rgb_pixel_channel;
use crate::color::yuv420_to_rgb;
use crate::scratch::Scratch;
use crate::scratch::grown_capacity;

verus! {

/// Why a frame was rejected at validation.
#[derive(Clone, Copy, Debug, PartialEq, Eq, Structural)]
pub enum PipelineError {
    /// Zero extent, or a stride smaller than the row it must cover.
    BadGeometry,
    /// The frame's working set does not fit in the address space.
    FrameTooLarge,
    /// An input plane is shorter than its geometry requires.
    PlaneTooShort,
}

/// Geometry is well-formed: positive extents, the luma stride covers a
/// full row and each chroma stride covers a half-resolution row.
pub open spec fn geometry_ok(w: int, h: int, stride_y: int, stride_u: int, stride_v: int) -> bool {
    &&& 1 <= w
    &&& 1 <= h
    &&& w <= stride_y
    &&& (w + 1) / 2 <= stride_u
    &&& (w + 1) / 2 <= stride_v
}

/// The frame's working set — RGB plus RGBA regions, seven bytes per
/// pixel — fits in the address space.
pub open spec fn frame_fits(w: int, h: int) -> bool {
    w * h * 7 <= usize::MAX
}

/// Each plane is at least as long as its geometry requires: full-height
/// rows of `stride_y` bytes for luma, `ceil(h / 2)` rows for each chroma
/// plane.
pub open spec fn planes_ok(
    ylen: int,
    ulen: int,
    vlen: int,
    w: int,
    h: int,
    stride_y: int,
    stride_u: int,
    stride_v: int,
) -> bool {
    &&& h * stride_y <= ylen
    &&& ((h + 1) / 2) * stride_u <= ulen
    &&& ((h + 1) / 2) * stride_v <= vlen
}

/// Byte `k` of the packed RGBA image derived from an interleaved RGB
/// buffer: every fourth byte is the opaque alpha, the rest copy RGB.
pub open spec fn rgba_byte(rgb: Seq<u8>, k: int) -> u8 {
    if k % 4 == 3 {
        255u8
    } else {
        rgb[(k / 4) * 3 + k % 4]
    }
}

/// Byte `k` of the RGBA image converted straight from the YUV planes.
pub open spec fn rgba_frame_byte(
    y: Seq<u8>,
    u: Seq<u8>,
    v: Seq<u8>,
    w: int,
    stride_y: int,
    stride_u: int,
    stride_v: int,
    k: int,
) -> u8 {
    if k % 4 == 3 {
        255u8
    } else {
        rgb_pixel_channel(y, u, v, stride_y, stride_u, stride_v, (k / 4) / w, (k / 4) % w, k % 4)
    }
}

/// Expand interleaved RGB to RGBA, copying the three channels of each
/// pixel and setting every alpha byte to 255.
#[verifier::loop_isolation(false)]
pub fn pack_rgba(rgb: &Vec<u8>, w: usize, h: usize) -> (out: Vec<u8>)
    requires
        rgb@.len() == w * h * 3,
        w * h * 4 <= usize::MAX,
    ensures
        out@.len() == w * h * 4,
        forall|k: int| 0 <= k < w * h * 4 ==> #[trigger] out@[k] == rgba_byte(rgb@, k),
{
    let n = w * h;
    let mut out: Vec<u8> = Vec::new();
    let mut p: usize = 0;
    while p < n
        invariant
            p <= n,
            out@.len() == p * 4,
            forall|k: int| 0 <= k < p * 4 ==> #[trigger] out@[k] == rgba_byte(rgb@, k),
        decreases n - p,
    {
        out.push(rgb[p * 3]);
        out.push(rgb[p * 3 + 1]);
        out.push(rgb[p * 3 + 2]);
        out.push(255);
        proof {
            assert forall|k: int| 0 <= k < p * 4 + 4 implies #[trigger] out@[k] == rgba_byte(
                rgb@,
                k,
            ) by {
                if k >= p * 4 {
                    assert(k / 4 == p && k % 4 == k - p * 4) by {
                        vstd::arithmetic::div_mod::lemma_fundamental_div_mod_converse(
                            k,
                            4,
                            p as int,
                            k - p * 4,
                        );
                    }
                }
            }
        }
        p = p + 1;
    }
    out
}

impl Scratch {
    /// Convert planar YUV 4:2:0 into a freshly allocated RGBA image,
    /// four bytes per pixel with alpha fixed at 255. Validates the
    /// caller-supplied geometry once, sizes the scratch arena for the
    /// frame's working set, and only then runs the pixel loops.
    pub fn convert_yuv_to_rgba(
        &mut self,
        y: &[u8],
        u: &[u8],
        v: &[u8],
        w: usize,
        h: usize,
        stride_y: usize,
        stride_u: usize,
        stride_v: usize,
    ) -> (r: Result<Vec<u8>, PipelineError>)
        ensures
            r is Ok <==> {
                &&& geometry_ok(w as int, h as int, stride_y as int, stride_u as int, stride_v as int)
                &&& frame_fits(w as int, h as int)
                &&& planes_ok(
                    y@.len() as int,
                    u@.len() as int,
                    v@.len() as int,
                    w as int,
                    h as int,
                    stride_y as int,
                    stride_u as int,
                    stride_v as int,
                )
            },
            r == Err::<Vec<u8>, PipelineError>(PipelineError::BadGeometry) <==> !geometry_ok(
                w as int,
                h as int,
                stride_y as int,
                stride_u as int,
                stride_v as int,
            ),
            r == Err::<Vec<u8>, PipelineError>(PipelineError::FrameTooLarge) <==> {
                &&& geometry_ok(w as int, h as int, stride_y as int, stride_u as int, stride_v as int)
                &&& !frame_fits(w as int, h as int)
            },
            r == Err::<Vec<u8>, PipelineError>(PipelineError::PlaneTooShort) <==> {
                &&& geometry_ok(w as int, h as int, stride_y as int, stride_u as int, stride_v as int)
                &&& frame_fits(w as int, h as int)
                &&& !planes_ok(
                    y@.len() as int,
                    u@.len() as int,
                    v@.len() as int,
                    w as int,
                    h as int,
                    stride_y as int,
                    stride_u as int,
                    stride_v as int,
                )
            },
            r matches Ok(out) ==> {
                &&& out@.len() == w * h * 4
                &&& forall|k: int|
                    0 <= k < w * h * 4 ==> #[trigger] out@[k] == rgba_frame_byte(
                        y@,
                        u@,
                        v@,
                        w as int,
                        stride_y as int,
                        stride_u as int,
                        stride_v as int,
                        k,
                    )
            },
            r is Ok ==> final(self)@.len() == grown_capacity(
                old(self)@.len(),
                (w * h * 7) as nat,
            ),
            r is Err ==> final(self)@ == old(self)@,
            forall|k: int| 0 <= k < old(self)@.len() ==> final(self)@[k] == old(self)@[k],
            forall|k: int| old(self)@.len() <= k < final(self)@.len() ==> final(self)@[k] == 0,
    {
        let y_len = y.len();
        let u_len = u.len();
        let v_len = v.len();
        let half_w = w / 2 + w % 2;
        if w == 0 || h == 0 || stride_y < w || stride_u < half_w || stride_v < half_w {
            return Err(PipelineError::BadGeometry);
        }
        let pixels = match w.checked_mul(h) {
            Some(p) => p,
            None => {
                return Err(PipelineError::FrameTooLarge);
            },
        };
        let total = match pixels.checked_mul(7) {
            Some(t) => t,
            None => {
                return Err(PipelineError::FrameTooLarge);
            },
        };
        let half_h = h / 2 + h % 2;
        let y_needed = match h.checked_mul(stride_y) {
            Some(n) => n,
            None => {
                return Err(PipelineError::PlaneTooShort);
            },
        };
        let u_needed = match half_h.checked_mul(stride_u) {
            Some(n) => n,
            None => {
                return Err(PipelineError::PlaneTooShort);
            },
        };
        let v_needed = match half_h.checked_mul(stride_v) {
            Some(n) => n,
            None => {
                return Err(PipelineError::PlaneTooShort);
            },
        };
        if y_len < y_needed || u_len < u_needed || v_len < v_needed {
            return Err(PipelineError::PlaneTooShort);
        }
        self.ensure_scratch(total);
        let mut rgb: Vec<u8> = Vec::new();
        yuv420_to_rgb(y, u, v, w, h, stride_y, stride_u, stride_v, &mut rgb);
        let out = pack_rgba(&rgb, w, h);
        proof {
            lemma_rgba_of_rgb(
                y@,
                u@,
                v@,
                rgb@,
                out@,
                w as int,
                h as int,
                stride_y as int,
                stride_u as int,
                stride_v as int,
            );
        }
        Ok(out)
    }
}

/// Packing the converter's RGB output yields, byte for byte, the RGBA
/// image converted straight from the planes.
proof fn lemma_rgba_of_rgb(
    y: Seq<u8>,
    u: Seq<u8>,
    v: Seq<u8>,
    rgb: Seq<u8>,
    rgba: Seq<u8>,
    w: int,
    h: int,
    stride_y: int,
    stride_u: int,
    stride_v: int,
)
    requires
        1 <= w,
        1 <= h,
        rgb.len() == w * h * 3,
        rgba.len() == w * h * 4,
        forall|j: int, i: int, c: int|
            0 <= j < h && 0 <= i < w && 0 <= c < 3 ==> rgb[(j * w + i) * 3 + c]
                == #[trigger] rgb_pixel_channel(y, u, v, stride_y, stride_u, stride_v, j, i, c),
        forall|k: int| 0 <= k < w * h * 4 ==> #[trigger] rgba[k] == rgba_byte(rgb, k),
    ensures
        forall|k: int|
            0 <= k < w * h * 4 ==> #[trigger] rgba[k] == rgba_frame_byte(
                y,
                u,
                v,
                w,
                stride_y,
                stride_u,
                stride_v,
                k,
            ),
{
    assert forall|k: int| 0 <= k < w * h * 4 implies #[trigger] rgba[k] == rgba_frame_byte(
        y,
        u,
        v,
        w,
        stride_y,
        stride_u,
        stride_v,
        k,
    ) by {
        lemma_mod_bound(k, 4);
        if k % 4 != 3 {
            let p = k / 4;
            let c = k % 4;
            lemma_multiply_divide_lt(k, 4, w * h);
            let j = p / w;
            let i = p % w;
            lemma_multiply_divide_lt(p, w, h);
            lemma_mod_bound(p, w);
            lemma_fundamental_div_mod(p, w);
            assert(w * (p / w) == (p / w) * w) by (nonlinear_arith);
            assert(rgb[(j * w + i) * 3 + c] == rgb_pixel_channel(
                y,
                u,
                v,
                stride_y,
                stride_u,
                stride_v,
                j,
                i,
                c,
            ));
        }
    }
}

} // verus!
