use wallfacer::util::{extract_bright_areas, gaussian_blur, BLUR_RADIUS, HEIGHT, WIDTH};

#[test]
fn bright_areas_keep_bright_pixels_opaque() {
    // Pixel 0 averages (200 + 100 + 50) / 3 = 116 > 100: kept at full
    // alpha. Pixel 1 averages 10: zeroed entirely.
    let frame: Vec<u8> = vec![200, 100, 50, 7, 10, 10, 10, 255];
    let out = extract_bright_areas(&frame);
    assert_eq!(out, vec![200, 100, 50, 255, 0, 0, 0, 0]);
}

#[test]
fn bright_areas_threshold_is_strict() {
    // An average of exactly 100 is not bright.
    let frame: Vec<u8> = vec![100, 100, 100, 9, 100, 100, 103, 9];
    let out = extract_bright_areas(&frame);
    assert_eq!(out, vec![0, 0, 0, 0, 100, 100, 103, 255]);
}

#[test]
fn bright_areas_leave_partial_group_zero() {
    let frame: Vec<u8> = vec![200, 200, 200, 1, 77, 66];
    let out = extract_bright_areas(&frame);
    assert_eq!(out, vec![200, 200, 200, 255, 0, 0]);
}

#[test]
fn blur_keeps_uniform_frame_and_alpha() {
    // A frame with constant color channels is a fixed point of the box
    // blur, and the alpha channel is copied through every pass.
    let mut frame: Vec<u8> = vec![60u8; 4 * WIDTH * HEIGHT];
    for p in 0..(WIDTH * HEIGHT) {
        frame[4 * p + 3] = (p % 251) as u8;
    }
    let out = gaussian_blur(&frame);
    assert_eq!(out.len(), frame.len());
    assert!(BLUR_RADIUS > 0);
    for p in [0usize, 1, WIDTH, WIDTH + 1, 12_345, WIDTH * HEIGHT - 1] {
        assert_eq!(out[4 * p], 60);
        assert_eq!(out[4 * p + 1], 60);
        assert_eq!(out[4 * p + 2], 60);
        assert_eq!(out[4 * p + 3], (p % 251) as u8);
    }
}

#[test]
fn blur_averages_a_lone_corner_pixel() {
    // A single white channel byte at the corner pixel (0, 0): its 2-by-2
    // neighborhood averages 255 / 4 = 63 after the first pass.
    let mut frame: Vec<u8> = vec![0u8; 4 * WIDTH * HEIGHT];
    frame[0] = 255;
    let out = gaussian_blur(&frame);
    // After five passes the corner keeps a positive smeared remnant that
    // only the blur could have produced.
    assert!(out[0] > 0);
    assert!(out[0] < 255);
    // A pixel far from the corner stays black.
    let far = 4 * (400 * WIDTH + 600);
    assert_eq!(out[far], 0);
}
