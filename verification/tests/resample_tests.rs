use rustdepth::resample::resize_to_tensor;

/// Scale factor of the emitted values: each value is the bilinear sample
/// times `4 * tw * th`, and dividing by `510 * tw * th` and subtracting
/// one yields the normalized tensor value in `[-1, 1]`.
fn normalize(v: i64, tw: usize, th: usize) -> f32 {
    v as f32 / (510.0 * tw as f32 * th as f32) - 1.0
}

#[test]
fn identity_resize_reproduces_source() {
    let rgb = vec![10u8, 20, 30, 40, 50, 60];
    let t = resize_to_tensor(&rgb, 2, 1, 2, 1);
    // Scaled by 4 * tw * th = 8: channel-planar, red plane first.
    assert_eq!(t, vec![80, 320, 160, 400, 240, 480]);
}

#[test]
fn identity_resize_is_exact_on_a_square() {
    let rgb: Vec<u8> = (0..27u8).collect();
    let t = resize_to_tensor(&rgb, 3, 3, 3, 3);
    assert_eq!(t.len(), 27);
    for oy in 0..3 {
        for ox in 0..3 {
            for c in 0..3 {
                let v = t[c * 9 + oy * 3 + ox];
                let src = rgb[(oy * 3 + ox) * 3 + c] as i64;
                assert_eq!(v, 36 * src);
            }
        }
    }
}

#[test]
fn checkerboard_center_is_mid_gray() {
    // 2x2 corners black, white, white, black collapsed to one pixel: the
    // bilinear sample at the image center is the average, mid-gray.
    let rgb = vec![0u8, 0, 0, 255, 255, 255, 255, 255, 255, 0, 0, 0];
    let t = resize_to_tensor(&rgb, 2, 2, 1, 1);
    assert_eq!(t, vec![510, 510, 510]);
    for &v in &t {
        assert_eq!(normalize(v, 1, 1), 0.0);
    }
}

#[test]
fn downscale_to_one_averages_four_neighbors() {
    let rgb = vec![10u8, 0, 0, 20, 0, 0, 30, 0, 0, 40, 0, 0];
    let t = resize_to_tensor(&rgb, 2, 2, 1, 1);
    assert_eq!(t[0], 10 + 20 + 30 + 40);
    assert_eq!(t[1], 0);
    assert_eq!(t[2], 0);
}

#[test]
fn single_pixel_source_broadcasts() {
    let rgb = vec![100u8, 150, 200];
    let t = resize_to_tensor(&rgb, 1, 1, 2, 2);
    assert_eq!(t.len(), 12);
    for k in 0..4 {
        assert_eq!(t[k], 100 * 16);
        assert_eq!(t[4 + k], 150 * 16);
        assert_eq!(t[8 + k], 200 * 16);
    }
}

#[test]
fn downscale_values_stay_normalizable() {
    let rgb: Vec<u8> = (0..4 * 4 * 3).map(|k| (k * 17 % 256) as u8).collect();
    let t = resize_to_tensor(&rgb, 4, 4, 2, 2);
    assert_eq!(t.len(), 12);
    for &v in &t {
        assert!(0 <= v && v <= 1020 * 2 * 2);
        let f = normalize(v, 2, 2);
        assert!((-1.0..=1.0).contains(&f));
    }
}

#[test]
fn upscale_keeps_unclamped_weights() {
    // Widening two pixels to three: the outermost output pixels sit past
    // the source pixel centers, and the blending weight stays the
    // fractional part of the un-clamped coordinate, so the first output
    // extrapolates below zero. Only the normalized value of interior
    // pixels is guaranteed to stay inside [-1, 1].
    let rgb = vec![0u8, 0, 0, 255, 255, 255];
    let t = resize_to_tensor(&rgb, 2, 1, 3, 1);
    for c in 0..3 {
        assert_eq!(&t[c * 3..c * 3 + 3], &[-510, 1530, 3060]);
    }
}

#[test]
fn extreme_bytes_map_to_unit_interval_ends() {
    let rgb = vec![0u8, 255, 0, 0, 255, 0];
    let t = resize_to_tensor(&rgb, 2, 1, 2, 1);
    assert_eq!(normalize(t[0], 2, 1), -1.0);
    assert_eq!(normalize(t[2], 2, 1), 1.0);
}
