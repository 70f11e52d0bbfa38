use gemini_unmark::detect::{
    bilinear_taps, candidate_sizes, control_positions, grab, inset_pairs, placement, placement_skew, InsetWalk,
    MAX_SIZE, MIN_SIZE,
};

#[test]
fn grab_copies_padded_window_with_opaque_alpha() {
    let (w, h) = (12u32, 10u32);
    let img: Vec<u8> = (0..(w * h * 4)).map(|i| (i % 251) as u8).collect();
    let p = grab(w, h, &img, 2, 3, 4).expect("window fits");
    assert_eq!((p.width, p.height), (8, 8));
    assert_eq!(p.data.len(), 8 * 8 * 4);
    for y in 0..8usize {
        for x in 0..8usize {
            let si = ((4 - 3 + y) * w as usize + (3 - 3 + x)) * 4;
            let di = (y * 8 + x) * 4;
            assert_eq!(&p.data[di..di + 3], &img[si..si + 3]);
            assert_eq!(p.data[di + 3], 255);
        }
    }
}

#[test]
fn grab_refuses_windows_leaving_the_image() {
    let (w, h) = (12u32, 10u32);
    let img = vec![7u8; (w * h * 4) as usize];
    assert!(grab(w, h, &img, 2, 2, 4).is_none());
    assert!(grab(w, h, &img, 2, 3, 2).is_none());
    assert!(grab(w, h, &img, 2, 7, 4).is_some());
    assert!(grab(w, h, &img, 2, 8, 4).is_none());
    assert!(grab(w, h, &img, 2, 3, 5).is_some());
    assert!(grab(w, h, &img, 2, 3, 6).is_none());
}

#[test]
fn candidate_sizes_stop_at_half_edge() {
    assert_eq!(candidate_sizes(1000, 1000, 1), (MIN_SIZE..=MAX_SIZE).collect::<Vec<_>>());
    assert_eq!(candidate_sizes(1000, 1000, 2), vec![42, 44, 46, 48, 50, 52, 54, 56]);
    assert_eq!(candidate_sizes(1000, 100, 1), vec![42, 43, 44, 45, 46, 47, 48, 49, 50]);
    assert_eq!(candidate_sizes(95, 1000, 2), vec![42, 44, 46]);
    assert!(candidate_sizes(83, 83, 1).is_empty());
    assert_eq!(candidate_sizes(84, 84, 1), vec![42]);
}

#[test]
fn placement_is_bottom_right_margin() {
    assert_eq!(placement(1376, 768, 73, 73, 48), Some((1255, 647)));
    assert_eq!(placement(100, 100, 60, 40, 40), Some((0, 20)));
    assert_eq!(placement(100, 100, 61, 40, 40), None);
    assert_eq!(placement(100, 100, 40, 61, 40), None);
}

#[test]
fn inset_pairs_walk_orders() {
    assert_eq!(inset_pairs(3, 5, InsetWalk::Diagonal), vec![(3, 3), (4, 4), (5, 5)]);
    assert_eq!(
        inset_pairs(1, 2, InsetWalk::Independent),
        vec![(1, 1), (2, 1), (1, 2), (2, 2)]
    );
    assert!(inset_pairs(5, 4, InsetWalk::Independent).is_empty());
    assert_eq!(inset_pairs(40, 116, InsetWalk::Independent).len(), 77 * 77);
}

#[test]
fn control_positions_skip_negative_corners() {
    assert_eq!(
        control_positions(200, 200, 48),
        vec![(144, 200), (200, 144), (144, 144), (104, 200), (200, 104), (104, 104)]
    );
    assert_eq!(control_positions(50, 200, 48), vec![(50, 144), (50, 104)]);
    assert_eq!(control_positions(60, 60, 48), vec![(4, 60), (60, 4), (4, 4)]);
    assert!(control_positions(10, 10, 48).is_empty());
}

#[test]
fn placement_skew_is_margin_difference() {
    assert_eq!(placement_skew(400, 300, 400 - 96 - 48, 300 - 72 - 48, 48), 24);
    assert_eq!(placement_skew(400, 300, 400 - 72 - 48, 300 - 96 - 48, 48), 24);
    assert_eq!(placement_skew(400, 300, 256, 156, 48), 0);
}

#[test]
fn taps_identity_resize() {
    for i in 0..47u32 {
        assert_eq!(bilinear_taps(48, 48, i), (i, i + 1));
    }
    assert_eq!(bilinear_taps(48, 48, 47), (47, 47));
}

#[test]
fn taps_downscale_and_upscale() {
    assert_eq!(bilinear_taps(48, 42, 0), (0, 1));
    assert_eq!(bilinear_taps(48, 42, 20), (22, 23));
    assert_eq!(bilinear_taps(48, 42, 41), (46, 47));
    assert_eq!(bilinear_taps(48, 56, 0), (0, 1));
    assert_eq!(bilinear_taps(48, 56, 27), (23, 24));
    assert_eq!(bilinear_taps(48, 56, 55), (47, 47));
    assert_eq!(bilinear_taps(1, 5, 3), (0, 0));
}

#[test]
fn taps_never_move_backwards() {
    for (src, dst) in [(48u32, 42u32), (48, 56), (48, 48), (3, 11)] {
        let mut prev = 0;
        for i in 0..dst {
            let (lo, hi) = bilinear_taps(src, dst, i);
            assert!(lo >= prev && lo < src && hi < src && (hi == lo || hi == lo + 1));
            prev = lo;
        }
    }
}

#[test]
fn sizes_with_a_wide_step_and_pairs_at_the_top_of_the_range() {
    assert_eq!(candidate_sizes(4000, 4000, 100), vec![42]);
    assert_eq!(candidate_sizes(4000, 4000, u32::MAX), vec![42]);
    assert_eq!(
        inset_pairs(u32::MAX - 1, u32::MAX, InsetWalk::Diagonal),
        vec![(u32::MAX - 1, u32::MAX - 1), (u32::MAX, u32::MAX)]
    );
    assert_eq!(inset_pairs(u32::MAX, u32::MAX, InsetWalk::Independent), vec![(u32::MAX, u32::MAX)]);
}
