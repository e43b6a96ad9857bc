use font_rasterizer::layout::{ceil_div_of, ceil_sqrt_of, packed_cols_of, pixel_total, squarish_cols_of, RenderLayout};

#[test]
fn ceil_sqrt_exact_squares() {
    assert_eq!(ceil_sqrt_of(0), 0);
    assert_eq!(ceil_sqrt_of(1), 1);
    assert_eq!(ceil_sqrt_of(4), 2);
    assert_eq!(ceil_sqrt_of(7569), 87);
}

#[test]
fn ceil_sqrt_rounds_up() {
    assert_eq!(ceil_sqrt_of(2), 2);
    assert_eq!(ceil_sqrt_of(5), 3);
    assert_eq!(ceil_sqrt_of(7440), 87);
    assert_eq!(ceil_sqrt_of(6200), 79);
    assert_eq!(ceil_sqrt_of(7397), 87);
    assert_eq!(ceil_sqrt_of(7396), 86);
}

#[test]
fn ceil_sqrt_of_largest_word() {
    let s = ceil_sqrt_of(usize::MAX) as u128;
    assert!(s * s >= usize::MAX as u128);
    assert!((s - 1) * (s - 1) < usize::MAX as u128);
}

#[test]
fn ceil_div_values() {
    assert_eq!(ceil_div_of(62, 8), 8);
    assert_eq!(ceil_div_of(62, 9), 7);
    assert_eq!(ceil_div_of(64, 8), 8);
    assert_eq!(ceil_div_of(0, 5), 0);
    assert_eq!(ceil_div_of(5, 0), 0);
    assert_eq!(ceil_div_of(usize::MAX, 1), usize::MAX);
}

#[test]
fn pixel_total_fits_or_not() {
    assert_eq!(pixel_total(62, 10, 12), Some(7440));
    assert_eq!(pixel_total(0, usize::MAX, usize::MAX), Some(0));
    assert_eq!(pixel_total(2, usize::MAX, 1), None);
    assert_eq!(pixel_total(1, usize::MAX, 2), None);
    assert_eq!(pixel_total(1, usize::MAX, 1), Some(usize::MAX));
}

#[test]
fn horizontal_is_one_row() {
    assert_eq!(RenderLayout::Horizontal.get_cell_counts(7, 3, 5), (7, 1));
}

#[test]
fn vertical_is_one_column() {
    assert_eq!(RenderLayout::Vertical.get_cell_counts(7, 3, 5), (1, 7));
}

#[test]
fn custom_is_taken_as_given() {
    assert_eq!(RenderLayout::Custom(2, 2).get_cell_counts(5, 3, 5), (2, 2));
    assert_eq!(RenderLayout::Custom(0, 9).get_cell_counts(5, 3, 5), (0, 9));
    assert_eq!(RenderLayout::Custom(100, 1).get_cell_counts(0, 0, 0), (100, 1));
}

#[test]
fn squarish_square_cells() {
    // 62 cells of 10 by 10: side 79, 7.9 columns, rounded to 8.
    assert_eq!(squarish_cols_of(62, 10, 10), 8);
    assert_eq!(RenderLayout::Squarish.get_cell_counts(62, 10, 10), (8, 8));
}

#[test]
fn squarish_tall_cells() {
    // 62 cells of 10 by 12: 7440 pixels, side 87, 8.7 columns, rounded to 9.
    assert_eq!(squarish_cols_of(62, 10, 12), 9);
    assert_eq!(RenderLayout::Squarish.get_cell_counts(62, 10, 12), (9, 7));
}

#[test]
fn squarish_rounds_half_up() {
    // 6 cells of 2 by 2: 24 pixels, side 5, 2.5 columns, rounded to 3.
    assert_eq!(squarish_cols_of(6, 2, 2), 3);
    assert_eq!(RenderLayout::Squarish.get_cell_counts(6, 2, 2), (3, 2));
}

#[test]
fn squarish_has_at_least_one_column() {
    // One cell of 100 by 1: side 10, 0.1 columns.
    assert_eq!(squarish_cols_of(1, 100, 1), 1);
    assert_eq!(RenderLayout::Squarish.get_cell_counts(1, 100, 1), (1, 1));
    assert_eq!(RenderLayout::Squarish.get_cell_counts(3, 0, 4), (1, 3));
}

#[test]
fn packed_ten_cells_wastes_none() {
    // Candidates 2..=5; 2 and 5 waste nothing. Target for square cells is 3.
    let target = squarish_cols_of(10, 8, 8);
    assert_eq!(target, 3);
    assert_eq!(packed_cols_of(10, target), 2);
    assert_eq!(RenderLayout::Packed(false).get_cell_counts(10, 8, 8), (2, 5));
    // Wide target: 5 is the closer divisor.
    assert_eq!(packed_cols_of(10, 4), 5);
    assert_eq!(packed_cols_of(10, 100), 5);
}

#[test]
fn packed_choice_divides_when_a_candidate_does() {
    for count in 4usize..200 {
        let has_divisor = (2..=count / 2).any(|d| count % d == 0);
        for target in [1usize, 2, 3, 7, 20, 1000] {
            let cols = packed_cols_of(count, target);
            assert!(cols >= 2 && cols <= count / 2);
            if has_divisor {
                assert_eq!(count % cols, 0);
            }
        }
    }
}

#[test]
fn packed_tie_prefers_larger() {
    // 12 cells: 2, 3, 4, 6 waste nothing; 3 and 5 are not both divisors, so
    // take target 5: 4 and 6 are equally far, the larger wins.
    assert_eq!(packed_cols_of(12, 5), 6);
    // 24 cells, target 5: 4 and 6 again.
    assert_eq!(packed_cols_of(24, 5), 6);
}

#[test]
fn packed_prime_count_takes_least_waste() {
    // 7 cells: candidates 2 and 3 waste 1 and 2 cells.
    assert_eq!(packed_cols_of(7, 3), 2);
    assert_eq!(RenderLayout::Packed(false).get_cell_counts(7, 4, 4), (2, 4));
    // 11 cells: 2, 3, 4, 5 waste 1, 1, 1, 4; target 3 picks 3.
    assert_eq!(packed_cols_of(11, 3), 3);
    // Target 1: 2 is closest.
    assert_eq!(packed_cols_of(11, 1), 2);
}

#[test]
fn packed_without_candidates_is_one_row() {
    assert_eq!(RenderLayout::Packed(false).get_cell_counts(1, 4, 4), (1, 1));
    assert_eq!(RenderLayout::Packed(false).get_cell_counts(2, 4, 4), (2, 1));
    assert_eq!(RenderLayout::Packed(false).get_cell_counts(3, 4, 4), (3, 1));
    assert_eq!(RenderLayout::Packed(true).get_cell_counts(3, 4, 4), (1, 3));
}

#[test]
fn packed_flip_swaps() {
    assert_eq!(RenderLayout::Packed(true).get_cell_counts(10, 8, 8), (5, 2));
}

#[test]
fn no_cells_gives_no_grid() {
    for layout in [
        RenderLayout::Squarish,
        RenderLayout::Horizontal,
        RenderLayout::Vertical,
        RenderLayout::Packed(false),
        RenderLayout::Packed(true),
    ] {
        for (w, h) in [(0usize, 0usize), (8, 8), (0, 5), (5, 0), (usize::MAX, usize::MAX)] {
            let (cols, rows) = layout.get_cell_counts(0, w, h);
            assert_eq!(cols * rows, 0);
        }
    }
    assert_eq!(RenderLayout::Squarish.get_cell_counts(0, 8, 8), (1, 0));
    assert_eq!(RenderLayout::Horizontal.get_cell_counts(0, 8, 8), (0, 1));
    assert_eq!(RenderLayout::Vertical.get_cell_counts(0, 8, 8), (1, 0));
    assert_eq!(RenderLayout::Packed(false).get_cell_counts(0, 8, 8), (0, 0));
}

#[test]
fn checked_counts_refuse_an_area_beyond_the_word() {
    assert_eq!(RenderLayout::Squarish.checked_cell_counts(2, usize::MAX, 1), None);
    assert_eq!(RenderLayout::Packed(true).checked_cell_counts(2, usize::MAX, 1), None);
    assert_eq!(
        RenderLayout::Horizontal.checked_cell_counts(2, usize::MAX, 1),
        Some((2, 1))
    );
    assert_eq!(
        RenderLayout::Custom(3, 4).checked_cell_counts(2, usize::MAX, usize::MAX),
        Some((3, 4))
    );
    assert_eq!(RenderLayout::Squarish.checked_cell_counts(62, 10, 12), Some((9, 7)));
}

#[test]
fn layouts_compare() {
    assert!(RenderLayout::Packed(true) == RenderLayout::Packed(true));
    assert!(RenderLayout::Packed(true) != RenderLayout::Packed(false));
    assert!(RenderLayout::Custom(1, 2) != RenderLayout::Custom(2, 1));
}
