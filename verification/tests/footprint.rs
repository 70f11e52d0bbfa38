use gemini_unmark::blend::{footprint, FootprintCell};

#[test]
fn footprint_inside_covers_every_template_pixel() {
    let f = footprint(10, 8, 3, 2, 4, 5);
    assert_eq!(f.len(), 6);
    for (k, c) in f.iter().enumerate() {
        let (tx, ty) = (k % 3, k / 3);
        assert_eq!(c.tpl_index, k);
        assert_eq!(c.img_index, (5 + ty) * 10 + 4 + tx);
    }
}

#[test]
fn footprint_clips_at_image_edges() {
    let f = footprint(4, 4, 3, 3, -1, 2);
    assert_eq!(
        f,
        vec![
            FootprintCell { tpl_index: 1, img_index: 8 },
            FootprintCell { tpl_index: 2, img_index: 9 },
            FootprintCell { tpl_index: 4, img_index: 12 },
            FootprintCell { tpl_index: 5, img_index: 13 },
        ]
    );
    assert!(footprint(4, 4, 3, 3, 4, 0).is_empty());
    assert!(footprint(4, 4, 3, 3, -3, 0).is_empty());
}

#[test]
fn footprint_hits_each_image_pixel_once() {
    let f = footprint(50, 40, 48, 48, 10, -5);
    let mut seen = std::collections::HashSet::new();
    for c in &f {
        assert!(seen.insert(c.img_index));
    }
    assert_eq!(f.len(), 40 * 40);
}
