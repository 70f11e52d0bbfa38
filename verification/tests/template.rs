use gemini_unmark::template::{
    sparkle_geometry, sparkle_template, sparkle_template_from, SPARKLE_NBYTES, SPARKLE_PEAK_ALPHA, SPARKLE_SIZE,
};

#[test]
fn sparkle_template_is_48x48_rgba() {
    let tpl = sparkle_template();
    assert_eq!(tpl.width, 48);
    assert_eq!(tpl.height, 48);
    assert_eq!(tpl.data.len(), 48 * 48 * 4);
    assert_eq!(SPARKLE_SIZE, 48);
    assert_eq!(sparkle_geometry().size_px, 48);
    assert_eq!(sparkle_geometry().inset_px, 96);
    // Peak opacity ~0.31 → alpha byte ≤ ~79; bound with headroom.
    let max_a = tpl
        .data
        .iter()
        .skip(3)
        .step_by(4)
        .copied()
        .max()
        .unwrap_or(0);
    assert!(max_a <= 90, "expected peak sparkle alpha ≤ 90, got {max_a}");
}

#[test]
fn stand_in_sparkle_is_white_star_centred() {
    // The geometric stand-in, not the captured mark.
    let tpl = sparkle_template();
    let alpha = |x: usize, y: usize| tpl.data[(y * 48 + x) * 4 + 3];
    // Colour is white everywhere.
    for i in 0..48 * 48 {
        assert_eq!(&tpl.data[i * 4..i * 4 + 3], &[255, 255, 255]);
    }
    // Peak at the centre, symmetric, zero in the corners, arms along the axes.
    assert_eq!(alpha(23, 23), 76);
    assert_eq!(alpha(24, 24), 76);
    assert_eq!(alpha(23, 23) as u32, (79 * 199 * 47) / 9600);
    assert_eq!(alpha(0, 0), 0);
    assert_eq!(alpha(47, 47), 0);
    assert_eq!(alpha(10, 23), alpha(23, 10));
    assert_eq!(alpha(10, 23), alpha(37, 24));
    assert!(alpha(10, 23) > 0);
    assert_eq!(alpha(10, 10), 0);
    let max_a = (0..48 * 48).map(|i| tpl.data[i * 4 + 3]).max().unwrap();
    assert_eq!(max_a as u32, 76);
    assert!(max_a as u32 <= SPARKLE_PEAK_ALPHA);
}

#[test]
fn captured_bytes_make_the_template() {
    let bytes: Vec<u8> = (0..SPARKLE_NBYTES).map(|i| (i % 251) as u8).collect();
    let tpl = sparkle_template_from(bytes.clone()).expect("48x48 RGBA");
    assert_eq!((tpl.width, tpl.height), (48, 48));
    assert_eq!(tpl.data, bytes);
}

#[test]
fn captured_bytes_of_the_wrong_size_are_refused() {
    assert!(sparkle_template_from(vec![0; SPARKLE_NBYTES - 1]).is_none());
    assert!(sparkle_template_from(vec![0; SPARKLE_NBYTES + 4]).is_none());
    assert!(sparkle_template_from(Vec::new()).is_none());
}
