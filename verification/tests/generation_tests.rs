use font_rasterizer::generation::{
    generate_gradient_data, gradient_atlas, invert_ymin, raster_fits, retain_fitting,
    select_gradient_rasters, GenerationLayout,
};
use font_rasterizer::rasterization::{CharRaster, GlyphMetrics};

fn glyph(xmin: i32, ymin: i32, width: usize, height: usize, value: u8) -> CharRaster {
    CharRaster::new((GlyphMetrics { xmin, ymin, width, height }, vec![value; width * height]))
}

#[test]
fn inverted_ymin_counts_down_from_the_pixel_height() {
    assert_eq!(invert_ymin(0, 8, 8), 0);
    assert_eq!(invert_ymin(2, 8, 3), 3);
    assert_eq!(invert_ymin(-1, 8, 3), 6);
    assert_eq!(invert_ymin(0, 2, 5), -3);
}

#[test]
fn gradient_counts() {
    assert_eq!(GenerationLayout::Horizontal.get_counts(5), (5, 1));
    assert_eq!(GenerationLayout::Vertical.get_counts(5), (1, 5));
    assert_eq!(GenerationLayout::Square.get_counts(5), (3, 2));
    assert_eq!(GenerationLayout::Square.get_counts(9), (3, 3));
    assert_eq!(GenerationLayout::Square.get_counts(10), (4, 3));
    assert_eq!(GenerationLayout::Square.get_counts(0), (0, 0));
    assert_eq!(GenerationLayout::Horizontal.get_counts(0), (0, 1));
}

#[test]
fn fitting_tests_all_four_edges() {
    // Cell 4 by 4, pixel height 4.
    assert!(raster_fits(&glyph(0, 0, 4, 4, 1), 4, 4, 4));
    assert!(raster_fits(&glyph(1, 1, 2, 2, 1), 4, 4, 4));
    assert!(!raster_fits(&glyph(-1, 0, 2, 2, 1), 4, 4, 4));
    assert!(!raster_fits(&glyph(3, 0, 2, 2, 1), 4, 4, 4));
    // Too high above the baseline: the top lies above the pixel height.
    assert!(!raster_fits(&glyph(0, 3, 2, 2, 1), 4, 4, 4));
    // Too far below: the bottom lies below the cell.
    assert!(!raster_fits(&glyph(0, -1, 2, 2, 1), 4, 4, 4));
    assert!(raster_fits(&glyph(0, -1, 2, 2, 1), 4, 5, 4));
}

#[test]
fn retain_fitting_keeps_order() {
    let mut rasters = vec![
        glyph(0, 0, 1, 1, 1),
        glyph(0, 0, 9, 1, 2),
        glyph(0, 0, 2, 2, 3),
        glyph(-1, 0, 1, 1, 4),
        glyph(1, 1, 1, 1, 5),
    ];
    retain_fitting(&mut rasters, 4, 4, 4);
    let values: Vec<u8> = rasters.iter().map(|r| r.pixels()[0]).collect();
    assert_eq!(values, vec![1, 3, 5]);
}

#[test]
fn selection_sorts_dedups_and_filters() {
    let make = || {
        vec![
            glyph(0, 0, 2, 1, 9),
            glyph(0, 0, 1, 1, 3),
            glyph(0, 0, 9, 1, 0),
            glyph(0, 0, 1, 2, 9),
            glyph(1, 0, 1, 1, 3),
        ]
    };
    let marks = |v: &Vec<CharRaster>| {
        v.iter()
            .map(|r| (r.get_brightness(), r.get_metrics().xmin, r.get_width()))
            .collect::<Vec<_>>()
    };
    let mut all = make();
    select_gradient_rasters(&mut all, 4, 4, 4, false);
    assert_eq!(marks(&all), vec![(3, 0, 1), (3, 1, 1), (18, 0, 2), (18, 0, 1)]);
    let mut first = make();
    select_gradient_rasters(&mut first, 4, 4, 4, true);
    // The widest raster is the darkest and the first of its brightness; it
    // does not fit and goes after the dedup.
    assert_eq!(marks(&first), vec![(3, 0, 1), (18, 0, 2)]);
}

#[test]
fn gradient_places_by_bearing_and_centres() {
    // Cells 4 by 4, pixel height 4. A glyph 2 by 2 on the baseline: its
    // top is 2 below the pixel height, and it has 1 to spare on each side.
    let rasters = vec![glyph(0, 0, 2, 2, 7)];
    let (width, height, pixels) =
        gradient_atlas(&rasters, 4, 4, 4, GenerationLayout::Horizontal).unwrap();
    assert_eq!((width, height), (4, 4));
    // Column 0 + 0 + 1, row 0 + 2 + 1.
    assert_eq!(
        pixels,
        vec![0, 0, 0, 0, 0, 0, 0, 0, 0, 0, 0, 0, 0, 7, 7, 0]
    );
}

#[test]
fn gradient_square_fills_rows() {
    let rasters = vec![
        glyph(0, 0, 1, 1, 1),
        glyph(0, 0, 1, 1, 2),
        glyph(0, 0, 1, 1, 3),
    ];
    let (width, height, pixels) = gradient_atlas(&rasters, 1, 1, 1, GenerationLayout::Square).unwrap();
    assert_eq!((width, height), (2, 2));
    assert_eq!(pixels, vec![1, 2, 3, 0]);
    let (width, height, pixels) =
        gradient_atlas(&rasters, 1, 1, 1, GenerationLayout::Vertical).unwrap();
    assert_eq!((width, height), (1, 3));
    assert_eq!(pixels, vec![1, 2, 3]);
}

#[test]
fn gradient_of_nothing() {
    let none: Vec<CharRaster> = Vec::new();
    assert_eq!(
        gradient_atlas(&none, 4, 4, 4, GenerationLayout::Square),
        Some((0, 0, vec![]))
    );
    assert_eq!(
        gradient_atlas(&none, 4, 4, 4, GenerationLayout::Horizontal),
        Some((0, 4, vec![]))
    );
    assert_eq!(
        generate_gradient_data(Vec::new(), 4, 4, 4, GenerationLayout::Vertical, true),
        Some((4, 0, vec![]))
    );
}

#[test]
fn gradient_runs_from_dark_to_bright() {
    let rasters = vec![
        glyph(0, 0, 1, 1, 200),
        glyph(0, 0, 1, 1, 5),
        glyph(0, 0, 3, 1, 1),
        glyph(0, 0, 1, 1, 200),
        glyph(0, 0, 1, 1, 90),
    ];
    let (width, height, pixels) =
        generate_gradient_data(rasters, 1, 1, 1, GenerationLayout::Horizontal, true).unwrap();
    assert_eq!((width, height), (3, 1));
    assert_eq!(pixels, vec![5, 90, 200]);
}

#[test]
fn gradient_beyond_the_word_is_refused() {
    let rasters = vec![glyph(0, 0, 1, 1, 1), glyph(0, 0, 1, 1, 2)];
    assert_eq!(
        gradient_atlas(&rasters, usize::MAX, 1, 1, GenerationLayout::Horizontal),
        None
    );
    assert_eq!(
        generate_gradient_data(rasters, usize::MAX, 1, 1, GenerationLayout::Horizontal, false),
        None
    );
}
