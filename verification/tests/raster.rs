use nihongo_run::raster::{canvas_layout, dilate, glyph_origin, stamp_glyph, CanvasLayout};

#[test]
fn dilate_radius_zero_copies() {
    let cov = vec![1u8, 2, 3, 4, 5, 6];
    assert_eq!(dilate(&cov, 3, 2, 0), cov);
}

#[test]
fn dilate_grows_a_point_into_a_square() {
    let mut cov = vec![0u8; 25];
    cov[2 * 5 + 2] = 200;
    let out = dilate(&cov, 5, 5, 1);
    for y in 0..5 {
        for x in 0..5 {
            let inside = (1..=3).contains(&x) && (1..=3).contains(&y);
            assert_eq!(out[y * 5 + x], if inside { 200 } else { 0 }, "cell {x},{y}");
        }
    }
}

#[test]
fn dilate_takes_window_maximum_clipped_at_edges() {
    let cov = vec![
        1, 0, 0, 0, //
        0, 0, 0, 9, //
        0, 5, 0, 0, //
    ];
    let out = dilate(&cov, 4, 3, 1);
    assert_eq!(
        out,
        vec![
            1, 1, 9, 9, //
            5, 5, 9, 9, //
            5, 5, 9, 9, //
        ]
    );
}

#[test]
fn dilate_never_lowers_a_cell() {
    let cov: Vec<u8> = (0..48u32).map(|i| ((i * 37) % 251) as u8).collect();
    let out = dilate(&cov, 8, 6, 2);
    for i in 0..48 {
        assert!(out[i] >= cov[i]);
    }
}

#[test]
fn stamp_keeps_larger_coverage_and_clips() {
    let mut cov = vec![0u8; 12];
    cov[0] = 50;
    let bitmap = vec![10u8, 20, 30, 40];
    // 2x2 glyph with its top-left cell at (-1, 0): only its right column lands
    stamp_glyph(&mut cov, 4, 3, -1, 0, &bitmap, 2, 2);
    assert_eq!(cov, vec![50, 0, 0, 0, 40, 0, 0, 0, 0, 0, 0, 0]);
    // fully inside at (2, 1)
    stamp_glyph(&mut cov, 4, 3, 2, 1, &bitmap, 2, 2);
    assert_eq!(cov, vec![50, 0, 0, 0, 40, 0, 10, 20, 0, 0, 30, 40]);
    // a glyph past the canvas changes nothing
    let before = cov.clone();
    stamp_glyph(&mut cov, 4, 3, 10, 10, &bitmap, 2, 2);
    assert_eq!(cov, before);
}

#[test]
fn layout_spans_tallest_and_lowest_glyph() {
    // glyphs: one from 2 below the baseline, 9 tall; one on the baseline, 12 tall
    let l = canvas_layout(40, &vec![(-2, 9), (0, 12)], 6);
    assert_eq!(l, CanvasLayout { width: 40 + 16, height: 14 + 16, ascent: 12, pad: 8 });
}

#[test]
fn layout_of_empty_text_is_one_pixel_plus_padding() {
    let l = canvas_layout(0, &vec![], 0);
    assert_eq!(l, CanvasLayout { width: 5, height: 5, ascent: 1, pad: 2 });
}

#[test]
fn glyph_origin_offsets_by_padding() {
    let l = CanvasLayout { width: 56, height: 30, ascent: 12, pad: 8 };
    assert_eq!(glyph_origin(&l, 3, -2, 9), (11, 13));
    assert_eq!(glyph_origin(&l, 0, 0, 12), (8, 8));
}
