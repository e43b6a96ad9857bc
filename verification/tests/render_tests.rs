use font_rasterizer::compositor::{composite, placed_count, AtlasFrame, Padding, RenderDirection};
use font_rasterizer::layout::RenderLayout;
use font_rasterizer::rasterization::{CharRaster, GlyphMetrics, RasterizationProperty};
use font_rasterizer::renderer::{
    generate_render_data, prepare_rasters, render_frame, resolve, try_generate_render_data, LineSpan,
    RenderData, RenderInfo, RenderSettings, MAX_TEXTURE_SIDE,
};

fn raster(width: usize, height: usize, ymin: i32, pixels: Vec<u8>) -> CharRaster {
    CharRaster::new((GlyphMetrics { xmin: 0, ymin, width, height }, pixels))
}

fn block(width: usize, height: usize, value: u8) -> CharRaster {
    raster(width, height, 0, vec![value; width * height])
}

fn settings(layout: RenderLayout) -> RenderSettings {
    RenderSettings {
        input: None,
        render_height: 8,
        render_padding: Padding::default(),
        render_layout: layout,
        render_direction: RenderDirection::LeftToRight,
        sort_property: None,
        dedup_property: None,
        dedup_exact_duplicate: false,
    }
}

#[test]
fn default_settings() {
    let s = RenderSettings::default();
    assert!(s.input.is_none());
    assert_eq!(s.render_height, 8);
    assert_eq!(s.render_padding, Padding { left: 0, right: 0, up: 0, down: 0 });
    assert!(s.render_layout == RenderLayout::Squarish);
    assert!(s.render_direction == RenderDirection::LeftToRight);
    assert!(s.sort_property == Some(RasterizationProperty::Brightness));
    assert!(s.dedup_property == Some(RasterizationProperty::Brightness));
    assert!(s.dedup_exact_duplicate);
}

#[test]
fn padding_sums() {
    let p = Padding { left: 1, right: 2, up: 3, down: 4 };
    assert_eq!(p.horizontal(), 3);
    assert_eq!(p.vertical(), 7);
    assert_eq!(Padding::default().horizontal(), 0);
}

#[test]
fn default_data_and_info_are_empty() {
    let d = RenderData::default();
    assert_eq!((d.width(), d.height()), (0, 0));
    assert!(d.pixels().is_empty());
    assert!(d.renderable());
    let i = RenderInfo::default();
    assert_eq!(i.cell_size(), (0, 0));
    assert_eq!(i.cell_count(), (0, 0));
    assert_eq!(i.cell_filled(), 0);
    assert_eq!(i.cell_padding(), (0, 0, 0, 0));
}

#[test]
fn two_glyphs_in_a_row_share_the_baseline() {
    let rasters = vec![raster(2, 2, 0, vec![1, 2, 3, 4]), raster(1, 1, 0, vec![9])];
    let (data, info) = generate_render_data(None, None, rasters, &settings(RenderLayout::Horizontal));
    assert_eq!((data.width(), data.height()), (4, 2));
    assert_eq!(data.pixels(), &vec![1, 2, 0, 0, 3, 4, 9, 0]);
    assert_eq!(info.cell_size(), (2, 2));
    assert_eq!(info.cell_count(), (2, 1));
    assert_eq!(info.cell_filled(), 2);
    assert_eq!(info.cell_padding(), (0, 0, 0, 0));
}

#[test]
fn glyph_is_centred_rounding_down() {
    // Cell 4 wide from the widest glyph; the glyph of width 1 has 1.5 to
    // spare on each side and moves 1 to the right.
    let rasters = vec![block(4, 1, 7), block(1, 1, 5)];
    let (data, _) = generate_render_data(None, None, rasters, &settings(RenderLayout::Vertical));
    assert_eq!((data.width(), data.height()), (4, 2));
    assert_eq!(data.pixels(), &vec![7, 7, 7, 7, 0, 5, 0, 0]);
}

#[test]
fn bearing_moves_the_glyph_down_from_the_ascent() {
    // Ascent 4, descent -1: cells 5 tall. A glyph 2 tall that starts 1
    // below the baseline has its top 3 below the cell's upper edge.
    let rasters = vec![raster(1, 2, -1, vec![8, 9])];
    let line = Some(LineSpan { ascent: 4, descent: -1 });
    let (data, info) = generate_render_data(line, None, rasters, &settings(RenderLayout::Horizontal));
    assert_eq!(info.cell_size(), (1, 5));
    assert_eq!((data.width(), data.height()), (1, 5));
    assert_eq!(data.pixels(), &vec![0, 0, 0, 8, 9]);
}

#[test]
fn glyph_above_the_cell_is_clamped_to_the_upper_edge() {
    // Ascent 1: a glyph 3 tall on the baseline would start 2 above the
    // cell; its first three rows all land on row 0, the last one stays.
    let rasters = vec![raster(1, 3, 0, vec![1, 2, 3])];
    let line = Some(LineSpan { ascent: 1, descent: -1 });
    let (data, _) = generate_render_data(line, None, rasters, &settings(RenderLayout::Horizontal));
    assert_eq!((data.width(), data.height()), (1, 2));
    assert_eq!(data.pixels(), &vec![3, 0]);
}

#[test]
fn vertical_line_metrics_give_the_cell_width() {
    let rasters = vec![block(1, 1, 4)];
    let line = Some(LineSpan { ascent: 3, descent: 0 });
    let (data, info) = generate_render_data(None, line, rasters, &settings(RenderLayout::Horizontal));
    assert_eq!(info.cell_size(), (3, 1));
    assert_eq!(data.pixels(), &vec![0, 4, 0]);
}

#[test]
fn line_metrics_upside_down_give_an_empty_cell() {
    let rasters = vec![block(1, 1, 4)];
    let line = Some(LineSpan { ascent: -2, descent: 5 });
    let (data, info) = generate_render_data(line, line, rasters, &settings(RenderLayout::Horizontal));
    assert_eq!(info.cell_size(), (0, 0));
    assert_eq!((data.width(), data.height()), (0, 0));
    assert!(data.pixels().is_empty());
}

#[test]
fn padding_insets_every_cell() {
    let rasters = vec![block(1, 1, 5), block(1, 1, 6)];
    let mut s = settings(RenderLayout::Horizontal);
    s.render_padding = Padding { left: 1, right: 2, up: 1, down: 0 };
    let (data, info) = generate_render_data(None, None, rasters, &s);
    assert_eq!(info.cell_size(), (1, 1));
    assert_eq!(info.cell_padding(), (1, 2, 1, 0));
    assert_eq!((data.width(), data.height()), (8, 2));
    assert_eq!(
        data.pixels(),
        &vec![0, 0, 0, 0, 0, 0, 0, 0, 0, 5, 0, 0, 0, 6, 0, 0]
    );
}

#[test]
fn directions_fill_rows_or_columns() {
    let make = || vec![block(1, 1, 1), block(1, 1, 2), block(1, 1, 3), block(1, 1, 4), block(1, 1, 5)];
    let mut s = settings(RenderLayout::Custom(3, 2));
    let (rows_first, _) = generate_render_data(None, None, make(), &s);
    assert_eq!(rows_first.pixels(), &vec![1, 2, 3, 4, 5, 0]);
    s.render_direction = RenderDirection::TopToBottom;
    let (cols_first, _) = generate_render_data(None, None, make(), &s);
    assert_eq!(cols_first.pixels(), &vec![1, 3, 5, 2, 4, 0]);
}

#[test]
fn custom_grid_truncates() {
    let rasters = vec![block(1, 1, 1), block(1, 1, 2), block(1, 1, 3), block(1, 1, 4), block(1, 1, 5)];
    let (data, info) = generate_render_data(None, None, rasters, &settings(RenderLayout::Custom(2, 2)));
    assert_eq!(info.cell_filled(), 4);
    assert_eq!(info.cell_count(), (2, 2));
    assert_eq!((data.width(), data.height()), (2, 2));
    assert_eq!(data.pixels(), &vec![1, 2, 3, 4]);
    assert!(!data.pixels().contains(&5));
}

#[test]
fn custom_grid_without_columns_places_nothing() {
    let rasters = vec![block(1, 1, 1), block(1, 1, 2)];
    let (data, info) = generate_render_data(None, None, rasters, &settings(RenderLayout::Custom(0, 3)));
    assert_eq!(info.cell_filled(), 0);
    assert_eq!((data.width(), data.height()), (0, 3));
    assert!(data.pixels().is_empty());
}

#[test]
fn custom_grid_with_room_leaves_cells_empty() {
    let rasters = vec![block(1, 1, 1)];
    let (data, info) = generate_render_data(None, None, rasters, &settings(RenderLayout::Custom(2, 2)));
    assert_eq!(info.cell_filled(), 1);
    assert_eq!(data.pixels(), &vec![1, 0, 0, 0]);
}

#[test]
fn glyph_wider_than_its_cell_stays_inside_the_buffer() {
    // Cell 1 wide, glyph 3 wide: moved 1 to the left and clamped; the
    // third pixel has no place and is left out.
    let rasters = vec![raster(3, 1, 0, vec![5, 6, 7])];
    let line = Some(LineSpan { ascent: 1, descent: 0 });
    let (data, _) = generate_render_data(None, line, rasters, &settings(RenderLayout::Horizontal));
    assert_eq!((data.width(), data.height()), (1, 1));
    assert_eq!(data.pixels(), &vec![6]);
}

#[test]
fn oversized_glyphs_never_change_the_buffer_length() {
    let mut seed: u64 = 0x2545_F491_4F6C_DD1D;
    let mut next = move |bound: u64| {
        seed ^= seed << 13;
        seed ^= seed >> 7;
        seed ^= seed << 17;
        seed % bound
    };
    for _ in 0..200 {
        let count = next(6) as usize;
        let mut rasters = Vec::new();
        for _ in 0..count {
            let w = next(9) as usize;
            let h = next(9) as usize;
            let ymin = next(41) as i32 - 20;
            rasters.push(raster(w, h, ymin, vec![200; w * h]));
        }
        let frame = AtlasFrame {
            cell_width: next(5) as usize,
            cell_height: next(5) as usize,
            ascent: next(21) as i128 - 10,
            padding: Padding { left: next(3) as usize, right: next(3) as usize, up: next(3) as usize, down: next(3) as usize },
            grid_cols: next(4) as usize,
            grid_rows: next(4) as usize,
            direction: if next(2) == 0 { RenderDirection::LeftToRight } else { RenderDirection::TopToBottom },
        };
        let pixels = composite(&rasters, &frame);
        let width = frame.grid_cols * (frame.cell_width + frame.padding.left + frame.padding.right);
        let height = frame.grid_rows * (frame.cell_height + frame.padding.up + frame.padding.down);
        assert_eq!(pixels.len(), width * height);
        let (data, info) = render_frame(&rasters, &frame);
        assert_eq!(data.pixels(), &pixels);
        assert_eq!((data.width(), data.height()), (width, height));
        assert_eq!(info.cell_filled(), count.min(frame.grid_cols * frame.grid_rows));
    }
}

#[test]
fn pixel_past_the_row_end_lands_on_the_next_row() {
    // One cell of 2 by 2 and a glyph 3 wide and 1 tall, bearing 1: it is
    // written to row 0 from column 0 on, and its third pixel has the place
    // after the row's end, which is the start of row 1.
    let frame = AtlasFrame {
        cell_width: 2,
        cell_height: 2,
        ascent: 2,
        padding: Padding::default(),
        grid_cols: 1,
        grid_rows: 1,
        direction: RenderDirection::LeftToRight,
    };
    let rasters = vec![raster(3, 1, 1, vec![1, 2, 3])];
    assert_eq!(composite(&rasters, &frame), vec![2, 3, 0, 0]);
}

#[test]
fn later_glyph_overwrites_earlier() {
    let frame = AtlasFrame {
        cell_width: 1,
        cell_height: 1,
        ascent: 1,
        padding: Padding::default(),
        grid_cols: 2,
        grid_rows: 1,
        direction: RenderDirection::LeftToRight,
    };
    // The first glyph is 3 wide: moved 1 left, clamped, it covers both cells.
    let rasters = vec![raster(3, 1, 0, vec![1, 2, 3]), raster(1, 1, 0, vec![9])];
    assert_eq!(composite(&rasters, &frame), vec![2, 9]);
}

#[test]
fn composing_twice_gives_the_same_bytes() {
    let make = || {
        vec![
            raster(2, 3, -1, vec![1, 2, 3, 4, 5, 6]),
            raster(3, 1, 2, vec![7, 8, 9]),
            raster(1, 1, 0, vec![10]),
            raster(0, 0, 0, vec![]),
        ]
    };
    for layout in [RenderLayout::Squarish, RenderLayout::Packed(false), RenderLayout::Vertical] {
        let mut s = settings(layout);
        s.render_padding = Padding { left: 1, right: 0, up: 0, down: 1 };
        let (a, ia) = generate_render_data(None, None, make(), &s);
        let (b, ib) = generate_render_data(None, None, make(), &s);
        assert_eq!(a.pixels(), b.pixels());
        assert_eq!((a.width(), a.height()), (b.width(), b.height()));
        assert_eq!(ia.cell_count(), ib.cell_count());
        assert_eq!(ia.cell_filled(), ib.cell_filled());
        let c = a.clone();
        assert_eq!(c.pixels(), a.pixels());
        assert_eq!((c.width(), c.height()), (a.width(), a.height()));
    }
}

#[test]
fn no_rasters_give_no_pixels() {
    for layout in [
        RenderLayout::Squarish,
        RenderLayout::Horizontal,
        RenderLayout::Vertical,
        RenderLayout::Packed(false),
        RenderLayout::Packed(true),
    ] {
        let (data, info) = generate_render_data(None, None, Vec::new(), &settings(layout));
        assert_eq!(data.width() * data.height(), 0);
        assert!(data.pixels().is_empty());
        assert_eq!(info.cell_filled(), 0);
        // Without rasters the cell has the render height on both sides.
        assert_eq!(info.cell_size(), (8, 8));
    }
}

#[test]
fn no_rasters_in_a_custom_grid_give_a_blank_atlas() {
    let (data, info) = generate_render_data(None, None, Vec::new(), &settings(RenderLayout::Custom(2, 1)));
    assert_eq!((data.width(), data.height()), (16, 8));
    assert_eq!(data.pixels(), &vec![0u8; 128]);
    assert_eq!(info.cell_filled(), 0);
}

#[test]
fn sixty_two_glyphs_in_tall_cells() {
    // 62 cells of 10 by 12: 7440 pixels, a side of 87, 8.7 columns.
    let rasters: Vec<CharRaster> = (0..62).map(|i| block(10, 12, i as u8 + 1)).collect();
    let (data, info) = generate_render_data(None, None, rasters, &settings(RenderLayout::Squarish));
    assert_eq!(info.cell_size(), (10, 12));
    assert_eq!(info.cell_count(), (9, 7));
    assert_eq!((data.width(), data.height()), (90, 84));
    assert_eq!(info.cell_filled(), 62);
    assert_eq!(info.cell_count().0 * info.cell_count().1 - info.cell_filled(), 1);
    // The last cell is empty, the one before holds the last glyph.
    assert_eq!(data.pixels()[83 * 90 + 89], 0);
    assert_eq!(data.pixels()[83 * 90 + 79], 62);
    assert_eq!(data.pixels()[0], 1);
}

#[test]
fn sixty_two_glyphs_in_eight_columns() {
    // Square cells give 8 columns and 8 rows; in cells of 10 by 12 the
    // same grid is 80 by 96 pixels with 2 cells left over.
    assert_eq!(RenderLayout::Squarish.get_cell_counts(62, 10, 10), (8, 8));
    let rasters: Vec<CharRaster> = (0..62).map(|i| block(10, 12, i as u8 + 1)).collect();
    let (data, info) = generate_render_data(None, None, rasters, &settings(RenderLayout::Custom(8, 8)));
    assert_eq!((data.width(), data.height()), (80, 96));
    assert_eq!(info.cell_filled(), 62);
    assert_eq!(info.cell_count().0 * info.cell_count().1 - info.cell_filled(), 2);
    assert_eq!(data.pixels()[95 * 80 + 79], 0);
    assert_eq!(data.pixels()[95 * 80 + 69], 0);
    assert_eq!(data.pixels()[95 * 80 + 59], 62);
}

#[test]
fn renderable_up_to_the_largest_side() {
    let wide = vec![block(MAX_TEXTURE_SIDE, 1, 1)];
    let (data, _) = generate_render_data(None, None, wide, &settings(RenderLayout::Horizontal));
    assert_eq!(data.width(), 16384);
    assert!(data.renderable());
    let wider = vec![block(MAX_TEXTURE_SIDE + 1, 1, 1)];
    let (data, _) = generate_render_data(None, None, wider, &settings(RenderLayout::Horizontal));
    assert!(!data.renderable());
    let tall = vec![block(1, MAX_TEXTURE_SIDE + 1, 1)];
    let (data, _) = generate_render_data(None, None, tall, &settings(RenderLayout::Horizontal));
    assert!(!data.renderable());
}

#[test]
fn sizes_beyond_the_word_are_refused() {
    let big = settings(RenderLayout::Custom(usize::MAX, 2));
    assert!(try_generate_render_data(None, None, vec![block(2, 1, 1)], &big).is_none());
    assert!(resolve(None, None, &vec![block(2, 1, 1)], &big).is_none());
    let mut padded = settings(RenderLayout::Horizontal);
    padded.render_padding = Padding { left: usize::MAX, right: 0, up: 0, down: 0 };
    assert!(try_generate_render_data(None, None, vec![block(1, 1, 1)], &padded).is_none());
    let fine = settings(RenderLayout::Custom(usize::MAX, 0));
    let (data, info) = try_generate_render_data(None, None, vec![block(1, 1, 1)], &fine).unwrap();
    assert_eq!((data.width(), data.height()), (usize::MAX, 0));
    assert_eq!(info.cell_filled(), 0);
}

#[test]
fn try_generate_agrees_with_generate() {
    let make = || vec![raster(2, 2, 0, vec![1, 2, 3, 4]), raster(1, 1, 0, vec![9])];
    let s = settings(RenderLayout::Horizontal);
    let (a, _) = generate_render_data(None, None, make(), &s);
    let (b, _) = try_generate_render_data(None, None, make(), &s).unwrap();
    assert_eq!(a.pixels(), b.pixels());
    let frame = resolve(None, None, &make(), &s).unwrap();
    assert_eq!((frame.cell_width, frame.cell_height, frame.ascent), (2, 2, 2));
    assert_eq!((frame.grid_cols, frame.grid_rows), (2, 1));
}

#[test]
fn placed_count_is_the_smaller() {
    assert_eq!(placed_count(5, 2, 2), 4);
    assert_eq!(placed_count(3, 2, 2), 3);
    assert_eq!(placed_count(3, 0, 9), 0);
    assert_eq!(placed_count(7, usize::MAX, usize::MAX), 7);
}

#[test]
fn prepare_dedups_then_sorts() {
    let make = || {
        vec![
            raster(1, 1, 0, vec![9]),
            raster(1, 1, 1, vec![3]),
            raster(1, 1, 2, vec![9]),
            raster(2, 1, 3, vec![3, 0]),
            raster(1, 1, 4, vec![1]),
        ]
    };
    let marks = |v: &Vec<CharRaster>| v.iter().map(|r| r.get_metrics().ymin).collect::<Vec<i32>>();
    let mut s = RenderSettings::default();
    let mut v = make();
    prepare_rasters(&mut v, &s);
    assert_eq!(marks(&v), vec![4, 1, 0]);
    s.dedup_property = None;
    let mut v = make();
    prepare_rasters(&mut v, &s);
    assert_eq!(marks(&v), vec![4, 1, 3, 0]);
    s.dedup_exact_duplicate = false;
    let mut v = make();
    prepare_rasters(&mut v, &s);
    assert_eq!(marks(&v), vec![4, 1, 3, 0, 2]);
    s.sort_property = None;
    let mut v = make();
    prepare_rasters(&mut v, &s);
    assert_eq!(marks(&v), vec![0, 1, 2, 3, 4]);
    s.dedup_property = Some(RasterizationProperty::Width);
    let mut v = make();
    prepare_rasters(&mut v, &s);
    assert_eq!(marks(&v), vec![0, 3]);
}

#[test]
fn frame_sizes_are_tested_against_the_word() {
    let mut frame = AtlasFrame {
        cell_width: 4,
        cell_height: 4,
        ascent: 4,
        padding: Padding { left: 1, right: 1, up: 1, down: 1 },
        grid_cols: 10,
        grid_rows: 10,
        direction: RenderDirection::TopToBottom,
    };
    assert!(frame.fits_word());
    frame.grid_cols = usize::MAX;
    assert!(!frame.fits_word());
    frame.grid_cols = usize::MAX / 6;
    frame.grid_rows = 0;
    assert!(frame.fits_word());
    frame.grid_rows = 1;
    assert!(!frame.fits_word());
    frame.grid_cols = 1;
    frame.padding.up = usize::MAX - 3;
    assert!(!frame.fits_word());
    frame.padding.up = 0;
    frame.ascent = i128::MAX;
    assert!(!frame.fits_word());
}
