use rustdepth::color::yuv420_to_rgb;
use rustdepth::pipeline::{pack_rgba, PipelineError};
use rustdepth::scratch::Scratch;

/// BT.601 reference for a single pixel, straight from the fixed-point
/// formula: used to cross-check the library on concrete samples.
fn reference_pixel(yv: i32, uv: i32, vv: i32) -> (u8, u8, u8) {
    let c = yv - 16;
    let d = uv - 128;
    let e = vv - 128;
    let r = ((256 * c + 359 * e + 128) >> 8).clamp(0, 255);
    let g = ((256 * c - 88 * d - 183 * e + 128) >> 8).clamp(0, 255);
    let b = ((256 * c + 454 * d + 128) >> 8).clamp(0, 255);
    (r as u8, g as u8, b as u8)
}

#[test]
fn black_row_then_bright_row() {
    let y = vec![16u8, 16, 16, 16, 235, 235, 235, 235];
    let u = vec![128u8, 128];
    let v = vec![128u8, 128];
    let mut rgb: Vec<u8> = Vec::new();
    yuv420_to_rgb(&y, &u, &v, 4, 2, 4, 2, 2, &mut rgb);
    assert_eq!(rgb.len(), 4 * 2 * 3);
    // c = Y - 16 is 0 on the first row and 219 on the second; with neutral
    // chroma each channel is exactly c after rounding and clamping.
    assert_eq!(&rgb[..12], &[0u8; 12]);
    assert_eq!(&rgb[12..], &[219u8; 12]);
}

#[test]
fn achromatic_input_stays_gray() {
    let y = vec![0u8, 10, 16, 100, 200, 255];
    let u = vec![128u8; 3];
    let v = vec![128u8; 3];
    let mut rgb: Vec<u8> = Vec::new();
    yuv420_to_rgb(&y, &u, &v, 6, 1, 6, 3, 3, &mut rgb);
    for p in 0..6 {
        assert_eq!(rgb[p * 3], rgb[p * 3 + 1]);
        assert_eq!(rgb[p * 3 + 1], rgb[p * 3 + 2]);
    }
    // Gray level is Y - 16, clamped below at zero.
    let gray: Vec<u8> = rgb.iter().step_by(3).copied().collect();
    assert_eq!(gray, vec![0, 0, 0, 84, 184, 239]);
}

#[test]
fn primary_colors_match_fixed_point_formula() {
    // (Y, U, V) triples close to the BT.601 primaries.
    let samples = [(81u8, 90u8, 240u8), (145, 54, 34), (41, 240, 110)];
    for (yv, uv, vv) in samples {
        let y = vec![yv];
        let u = vec![uv];
        let v = vec![vv];
        let mut rgb: Vec<u8> = Vec::new();
        yuv420_to_rgb(&y, &u, &v, 1, 1, 1, 1, 1, &mut rgb);
        let (er, eg, eb) = reference_pixel(yv as i32, uv as i32, vv as i32);
        assert_eq!(rgb, vec![er, eg, eb]);
    }
    // Spot values for the three samples above.
    let (r, g, b) = reference_pixel(81, 90, 240);
    assert_eq!((r, g, b), (222, 0, 0));
    let (r, g, b) = reference_pixel(145, 54, 34);
    assert_eq!((r, g, b), (0, 222, 0));
    let (r, g, b) = reference_pixel(41, 240, 110);
    assert_eq!((r, g, b), (0, 0, 224));
}

#[test]
fn stride_padding_is_ignored() {
    // 2x2 frame with luma stride 3 and chroma stride 2; 99s are padding.
    let y = vec![26u8, 36, 99, 46, 56, 99];
    let u = vec![128u8, 99];
    let v = vec![128u8, 99];
    let mut rgb: Vec<u8> = Vec::new();
    yuv420_to_rgb(&y, &u, &v, 2, 2, 3, 2, 2, &mut rgb);
    assert_eq!(rgb, vec![10, 10, 10, 20, 20, 20, 30, 30, 30, 40, 40, 40]);
}

#[test]
fn odd_dimensions_reuse_last_chroma_sample() {
    // 3x3 luma with a 2x2 chroma grid: the last column and row fall back
    // on the preceding chroma sample (floor indexing).
    let y = vec![126u8; 9];
    let u = vec![100u8, 110, 120, 130];
    let v = vec![128u8; 4];
    let mut rgb: Vec<u8> = Vec::new();
    yuv420_to_rgb(&y, &u, &v, 3, 3, 3, 2, 2, &mut rgb);
    let expected = vec![
        110u8, 120, 60, 110, 120, 60, 110, 116, 78, // row 0
        110, 120, 60, 110, 120, 60, 110, 116, 78, // row 1
        110, 113, 96, 110, 113, 96, 110, 109, 114, // row 2
    ];
    assert_eq!(rgb, expected);
}

#[test]
fn pack_rgba_sets_alpha_everywhere() {
    let rgb = vec![1u8, 2, 3, 4, 5, 6, 7, 8, 9, 10, 11, 12];
    let rgba = pack_rgba(&rgb, 2, 2);
    assert_eq!(rgba.len(), 2 * 2 * 4);
    for p in 0..4 {
        assert_eq!(rgba[p * 4], rgb[p * 3]);
        assert_eq!(rgba[p * 4 + 1], rgb[p * 3 + 1]);
        assert_eq!(rgba[p * 4 + 2], rgb[p * 3 + 2]);
        assert_eq!(rgba[p * 4 + 3], 255);
    }
}

#[test]
fn convert_produces_rgba_with_constant_alpha() {
    let y = vec![16u8, 16, 16, 16, 235, 235, 235, 235];
    let u = vec![128u8, 128];
    let v = vec![128u8, 128];
    let mut scratch = Scratch::new();
    let rgba = scratch.convert_yuv_to_rgba(&y, &u, &v, 4, 2, 4, 2, 2).unwrap();
    assert_eq!(rgba.len(), 4 * 2 * 4);
    let mut expected = Vec::new();
    for _ in 0..4 {
        expected.extend_from_slice(&[0u8, 0, 0, 255]);
    }
    for _ in 0..4 {
        expected.extend_from_slice(&[219u8, 219, 219, 255]);
    }
    assert_eq!(rgba, expected);
}

#[test]
fn zero_width_is_bad_geometry() {
    let mut scratch = Scratch::new();
    let r = scratch.convert_yuv_to_rgba(&[], &[], &[], 0, 2, 4, 2, 2);
    assert_eq!(r.unwrap_err(), PipelineError::BadGeometry);
}

#[test]
fn short_luma_stride_is_bad_geometry() {
    let y = vec![0u8; 8];
    let u = vec![128u8; 2];
    let v = vec![128u8; 2];
    let mut scratch = Scratch::new();
    let r = scratch.convert_yuv_to_rgba(&y, &u, &v, 4, 2, 3, 2, 2);
    assert_eq!(r.unwrap_err(), PipelineError::BadGeometry);
}

#[test]
fn short_chroma_stride_is_bad_geometry() {
    let y = vec![0u8; 8];
    let u = vec![128u8; 2];
    let v = vec![128u8; 2];
    let mut scratch = Scratch::new();
    let r = scratch.convert_yuv_to_rgba(&y, &u, &v, 4, 2, 4, 1, 2);
    assert_eq!(r.unwrap_err(), PipelineError::BadGeometry);
}

#[test]
fn short_plane_is_rejected() {
    let y = vec![0u8; 7];
    let u = vec![128u8; 2];
    let v = vec![128u8; 2];
    let mut scratch = Scratch::new();
    let r = scratch.convert_yuv_to_rgba(&y, &u, &v, 4, 2, 4, 2, 2);
    assert_eq!(r.unwrap_err(), PipelineError::PlaneTooShort);
}

#[test]
fn oversized_frame_is_rejected() {
    let mut scratch = Scratch::new();
    let r = scratch.convert_yuv_to_rgba(&[], &[], &[], usize::MAX, 2, usize::MAX, usize::MAX, usize::MAX);
    assert_eq!(r.unwrap_err(), PipelineError::FrameTooLarge);
}
