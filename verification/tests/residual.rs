use gemini_unmark::residual::{fill_busy_residual, inpaint_pad_and_dilate, inpaint_seed};
use gemini_unmark::WatermarkTemplate;

#[test]
fn seed_marks_opaque_template_pixels_inside_the_image() {
    // 2×2 template: alpha 0, 1, 5, 0.
    let tpl = WatermarkTemplate {
        width: 2,
        height: 2,
        data: vec![255, 255, 255, 0, 255, 255, 255, 1, 255, 255, 255, 5, 255, 255, 255, 0],
    };
    let (seed, any) = inpaint_seed(&tpl, 5, 5, 1, 20, 20);
    assert!(any);
    assert_eq!(seed.len(), 16);
    let on: Vec<usize> = (0..16).filter(|i| seed[*i]).collect();
    // Window is 4×4; template pixel (1,0) → window (2,1), (0,1) → window (1,2).
    assert_eq!(on, vec![1 * 4 + 2, 2 * 4 + 1]);
}

#[test]
fn seed_is_empty_outside_the_image() {
    let tpl = WatermarkTemplate { width: 1, height: 1, data: vec![255, 255, 255, 200] };
    let (seed, any) = inpaint_seed(&tpl, 3, 0, 2, 3, 3);
    assert!(!any);
    assert!(seed.iter().all(|b| !*b));
    assert_eq!(seed.len(), 25);
}

#[test]
fn pad_and_dilate_by_texture() {
    assert_eq!(inpaint_pad_and_dilate(true), (3, 1));
    assert_eq!(inpaint_pad_and_dilate(false), (10, 4));
}

fn uniform(w: usize, h: usize, px: [u8; 4]) -> Vec<u8> {
    px.iter().copied().cycle().take(w * h * 4).collect()
}

#[test]
fn busy_fill_replaces_the_mark_by_its_surroundings() {
    let mut img = uniform(20, 20, [10, 20, 30, 255]);
    let expected = img.clone();
    let i = (5 * 20 + 5) * 4;
    img[i..i + 3].copy_from_slice(&[200, 200, 200]);
    let tpl = WatermarkTemplate { width: 1, height: 1, data: vec![255, 255, 255, 200] };
    assert!(fill_busy_residual(&mut img, 20, 20, &tpl, 5, 5));
    assert_eq!(img, expected);
}

#[test]
fn busy_fill_keeps_pixels_outside_the_dilated_seed() {
    let mut img = uniform(20, 20, [10, 20, 30, 255]);
    // A bright pixel two columns right of the mark lies outside the dilated seed.
    let far = (5 * 20 + 7) * 4;
    img[far..far + 3].copy_from_slice(&[250, 0, 0]);
    let before = img.clone();
    let tpl = WatermarkTemplate { width: 1, height: 1, data: vec![255, 255, 255, 200] };
    assert!(fill_busy_residual(&mut img, 20, 20, &tpl, 5, 5));
    assert_eq!(img, before);
}

#[test]
fn busy_fill_without_seed_changes_nothing() {
    let mut img = uniform(10, 10, [1, 2, 3, 255]);
    img[0] = 99;
    let before = img.clone();
    let tpl = WatermarkTemplate { width: 2, height: 1, data: vec![255, 255, 255, 0, 255, 255, 255, 0] };
    assert!(!fill_busy_residual(&mut img, 10, 10, &tpl, 4, 4));
    assert_eq!(img, before);
}
