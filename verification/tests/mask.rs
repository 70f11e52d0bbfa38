use gemini_unmark::mask::{dilate_mask, dilate_mask_3x3};

fn grid(w: usize, h: usize, set: &[(usize, usize)]) -> Vec<bool> {
    let mut g = vec![false; w * h];
    for &(x, y) in set {
        g[y * w + x] = true;
    }
    g
}

#[test]
fn dilate_radius_zero_is_identity() {
    let seed = grid(5, 4, &[(1, 1), (4, 3)]);
    assert_eq!(dilate_mask(&seed, 5, 4, 0), seed);
    assert_eq!(dilate_mask(&seed, 5, 4, -3), seed);
}

#[test]
fn dilate_sets_square_clipped_at_border() {
    let seed = grid(6, 5, &[(0, 0)]);
    let out = dilate_mask(&seed, 6, 5, 2);
    let want = grid(6, 5, &[(0, 0), (1, 0), (2, 0), (0, 1), (1, 1), (2, 1), (0, 2), (1, 2), (2, 2)]);
    assert_eq!(out, want);
}

#[test]
fn dilate_is_extensive_and_monotone() {
    let seed = grid(9, 7, &[(4, 3), (8, 0), (0, 6)]);
    let r1 = dilate_mask(&seed, 9, 7, 1);
    let r2 = dilate_mask(&seed, 9, 7, 2);
    for i in 0..seed.len() {
        assert!(!seed[i] || r1[i]);
        assert!(!r1[i] || r2[i]);
    }
    assert_eq!(r1.iter().filter(|b| **b).count(), 9 + 4 + 4);
}

#[test]
fn dilate_3x3_matches_radius_one() {
    let seed = grid(7, 6, &[(0, 0), (3, 2), (6, 5), (6, 0)]);
    let mut m = seed.clone();
    dilate_mask_3x3(&mut m, 7, 6);
    assert_eq!(m, dilate_mask(&seed, 7, 6, 1));
    let empty = vec![false; 12];
    let mut e = empty.clone();
    dilate_mask_3x3(&mut e, 4, 3);
    assert_eq!(e, empty);
}

#[test]
fn dilate_row_by_one() {
    assert_eq!(
        dilate_mask(&[false, false, true, false, false], 5, 1, 1),
        vec![false, true, true, true, false]
    );
    assert_eq!(dilate_mask(&[false, true, false], 3, 1, 0), vec![false, true, false]);
    assert_eq!(dilate_mask(&[false, true, false], 3, 1, -2), vec![false, true, false]);
}

#[test]
fn dilate_empty_seed_with_huge_radius() {
    assert_eq!(dilate_mask(&[false; 6], 3, 2, i32::MAX), vec![false; 6]);
}
