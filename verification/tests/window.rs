use gemini_unmark::window::{window_flags, window_rgb, write_window_rgb};

/// 3×2 image whose pixel `(x, y)` has colour `(10y + x, 100 + x, 200 + y)` and alpha 255.
fn sample_image() -> Vec<u8> {
    let mut v = Vec::new();
    for y in 0..2u8 {
        for x in 0..3u8 {
            v.extend_from_slice(&[10 * y + x, 100 + x, 200 + y, 255]);
        }
    }
    v
}

#[test]
fn window_inside_copies_colours() {
    let img = sample_image();
    let r = window_rgb(&img, 3, 2, 1, 0, 2, 2);
    assert_eq!(r, vec![1, 101, 200, 2, 102, 200, 11, 101, 201, 12, 102, 201]);
}

#[test]
fn window_outside_reads_black() {
    let img = sample_image();
    // Corner one pixel left of and above the image.
    let r = window_rgb(&img, 3, 2, -1, -1, 2, 2);
    assert_eq!(r, vec![0, 0, 0, 0, 0, 0, 0, 0, 0, 0, 100, 200]);
}

#[test]
fn write_back_touches_only_masked_pixels_in_the_image() {
    let mut img = sample_image();
    let before = img.clone();
    // 2×2 window at (2, 1): only (0,0) lies in the image; (1,0) is masked but outside.
    let mask = vec![true, true, false, true];
    let rgb = vec![7, 8, 9, 1, 2, 3, 4, 5, 6, 4, 5, 6];
    write_window_rgb(&mut img, 3, 2, 2, 1, 2, 2, &mask, &rgb);
    let i = (1 * 3 + 2) * 4;
    assert_eq!(&img[i..i + 4], &[7, 8, 9, 255]);
    for j in 0..img.len() {
        if j < i || j >= i + 4 {
            assert_eq!(img[j], before[j]);
        }
    }
}

#[test]
fn write_back_skips_unmasked_pixels() {
    let mut img = sample_image();
    let before = img.clone();
    write_window_rgb(&mut img, 3, 2, 0, 0, 3, 2, &vec![false; 6], &vec![0; 18]);
    assert_eq!(img, before);
}

#[test]
fn flags_follow_the_mask_inside_the_image() {
    // 3×2 mask with pixels (1,0) and (2,1) set.
    let mask = vec![0, 1, 0, 0, 0, 3];
    let f = window_flags(&mask, 3, 2, 1, 0, 2, 3);
    assert_eq!(f, vec![true, false, false, true, false, false]);
}

#[test]
fn flags_clear_when_mask_size_differs() {
    let mask = vec![1u8; 5];
    let f = window_flags(&mask, 3, 2, 0, 0, 3, 2);
    assert_eq!(f, vec![false; 6]);
}

#[test]
fn writing_back_a_window_unchanged_is_identity() {
    let mut img = sample_image();
    let before = img.clone();
    let rgb = window_rgb(&img, 3, 2, -1, 0, 3, 3);
    write_window_rgb(&mut img, 3, 2, -1, 0, 3, 3, &vec![true; 9], &rgb);
    assert_eq!(img, before);
}
