//! The brightness gradient: glyphs ordered from dark to bright, each in a
//! cell of a size that the caller gives, those that do not fit left out.

use vstd::prelude::*;
use crate::collection::{first_occurrences, is_stable_sort, property_key, RasterManip};
use crate::compositor::{blank, blank_buffer};
use crate::layout::{
    ceil_div,
    ceil_div_of,
    ceil_sqrt,
    ceil_sqrt_of,
    is_ceil_sqrt,
    lemma_ceil_sqrt_exists,
};
use crate::rasterization::{raster_views, CharRaster, GlyphRaster, RasterizationProperty};
use crate::text::lowercase;

verus! {

/// What can go wrong when a gradient is set up.
#[derive(PartialEq, Eq, Structural, Clone, Copy, Debug)]
pub enum GenerationError {
    /// The text names no layout.
    LayoutParsingError,
}

/// The shape of the gradient's grid.
#[derive(PartialEq, Eq, Structural, Clone, Copy, Debug)]
pub enum GenerationLayout {
    /// As many columns as rows, or one column more.
    Square,
    /// One row.
    Horizontal,
    /// One column.
    Vertical,
}

/// `text` in lower case, as std's `str::to_lowercase` gives it.
pub uninterp spec fn lowercased(text: Seq<char>) -> Seq<char>;

impl GenerationLayout {
    /// The layout's name.
    pub open spec fn label_text(self) -> Seq<char> {
        match self {
            GenerationLayout::Horizontal => "horizontal"@,
            GenerationLayout::Vertical => "vertical"@,
            GenerationLayout::Square => "square"@,
        }
    }

    /// The layout that a text in lower case names.
    pub open spec fn named_by(lower: Seq<char>) -> Result<GenerationLayout, GenerationError> {
        if lower == "square"@ {
            Ok(GenerationLayout::Square)
        } else if lower == "horizontal"@ {
            Ok(GenerationLayout::Horizontal)
        } else if lower == "vertical"@ {
            Ok(GenerationLayout::Vertical)
        } else {
            Err(GenerationError::LayoutParsingError)
        }
    }

    /// The layout's name.
    pub fn label(&self) -> (text: String)
        ensures
            text@ == self.label_text(),
    {
        match self {
            GenerationLayout::Horizontal => "horizontal".to_owned(),
            GenerationLayout::Vertical => "vertical".to_owned(),
            GenerationLayout::Square => "square".to_owned(),
        }
    }

    /// The names of all layouts: square, horizontal, vertical.
    pub fn keys() -> (names: Vec<String>)
        ensures
            names@.len() == 3,
            names@[0]@ == GenerationLayout::Square.label_text(),
            names@[1]@ == GenerationLayout::Horizontal.label_text(),
            names@[2]@ == GenerationLayout::Vertical.label_text(),
    {
        let mut names: Vec<String> = Vec::new();
        names.push(GenerationLayout::Square.label());
        names.push(GenerationLayout::Horizontal.label());
        names.push(GenerationLayout::Vertical.label());
        names
    }

    /// The layout that a text in lower case names, or the error where it
    /// names none.
    pub fn from_lowercase(lower: &String) -> (layout: Result<GenerationLayout, GenerationError>)
        ensures
            layout == GenerationLayout::named_by(lower@),
    {
        let square = "square".to_owned();
        let horizontal = "horizontal".to_owned();
        let vertical = "vertical".to_owned();
        if *lower == square {
            Ok(GenerationLayout::Square)
        } else if *lower == horizontal {
            Ok(GenerationLayout::Horizontal)
        } else if *lower == vertical {
            Ok(GenerationLayout::Vertical)
        } else {
            Err(GenerationError::LayoutParsingError)
        }
    }

    /// The layout that a text names, whatever the case of its letters.
    pub fn parse_name(text: &str) -> (layout: Result<GenerationLayout, GenerationError>)
        ensures
            layout == GenerationLayout::named_by(lowercased(text@)),
    {
        let lower = lowercase(text);
        GenerationLayout::from_lowercase(&lower)
    }

    /// The grid, as (columns, rows), for `count` cells.
    pub open spec fn counts(self, count: nat) -> (nat, nat) {
        match self {
            GenerationLayout::Horizontal => (count, 1),
            GenerationLayout::Vertical => (1, count),
            GenerationLayout::Square => (ceil_sqrt(count), ceil_div(count, ceil_sqrt(count))),
        }
    }

    /// The grid, as (columns, rows), for `count` cells.
    pub fn get_counts(self, count: usize) -> (counts: (usize, usize))
        ensures
            (counts.0 as nat, counts.1 as nat) == self.counts(count as nat),
    {
        match self {
            GenerationLayout::Horizontal => (count, 1),
            GenerationLayout::Vertical => (1, count),
            GenerationLayout::Square => {
                let cols = ceil_sqrt_of(count);
                (cols, ceil_div_of(count, cols))
            },
        }
    }
}

impl core::str::FromStr for GenerationLayout {
    type Err = GenerationError;

    /// The layout that a text names, whatever the case of its letters, or
    /// the error where it names none.
    fn from_str(s: &str) -> (layout: Result<Self, Self::Err>)
        ensures
            layout == GenerationLayout::named_by(lowercased(s@)),
    {
        GenerationLayout::parse_name(s)
    }
}

/// How far the glyph's upper edge lies below the line `pixel_height` above
/// the baseline.
pub open spec fn inverted_ymin(ymin: int, pixel_height: nat, height: nat) -> int {
    pixel_height - ymin - height
}

/// How far the glyph's upper edge lies below the line `pixel_height` above
/// the baseline.
pub fn invert_ymin(ymin: i32, pixel_height: usize, height: usize) -> (inverted: i128)
    ensures
        inverted == inverted_ymin(ymin as int, pixel_height as nat, height as nat),
{
    pixel_height as i128 - ymin as i128 - height as i128
}

/// The glyph lies inside a cell of the given size: from left to right by
/// its bearing and width, from top to bottom by its inverted bearing and
/// height.
pub open spec fn fits_cell(glyph: GlyphRaster, cell_width: nat, cell_height: nat, pixel_height: nat) -> bool {
    let inverted = inverted_ymin(glyph.ymin, pixel_height, glyph.height);
    &&& glyph.xmin >= 0
    &&& glyph.xmin + glyph.width <= cell_width
    &&& inverted >= 0
    &&& glyph.height + inverted <= cell_height
}

/// The test whether a raster lies inside a cell of the given size.
pub open spec fn fitting(cell_width: nat, cell_height: nat, pixel_height: nat) -> spec_fn(
    CharRaster,
) -> bool {
    |raster: CharRaster| fits_cell(raster@, cell_width, cell_height, pixel_height)
}

/// Whether the raster lies inside a cell of the given size.
pub fn raster_fits(raster: &CharRaster, cell_width: usize, cell_height: usize, pixel_height: usize) -> (fit: bool)
    ensures
        fit == fits_cell(raster@, cell_width as nat, cell_height as nat, pixel_height as nat),
{
    let metrics = raster.get_metrics();
    let inverted = invert_ymin(metrics.ymin, pixel_height, metrics.height);
    metrics.xmin >= 0 && metrics.xmin as i128 + metrics.width as i128 <= cell_width as i128
        && inverted >= 0 && metrics.height as i128 + inverted <= cell_height as i128
}

/// Keeps the rasters that lie inside a cell of the given size.
pub fn retain_fitting(
    rasterizations: &mut Vec<CharRaster>,
    cell_width: usize,
    cell_height: usize,
    pixel_height: usize,
)
    ensures
        final(rasterizations)@ == old(rasterizations)@.filter(
            fitting(cell_width as nat, cell_height as nat, pixel_height as nat),
        ),
{
    let ghost given = rasterizations@;
    let ghost test = fitting(cell_width as nat, cell_height as nat, pixel_height as nat);
    let ghost mut done: int = 0;
    let mut i: usize = 0;
    proof {
        assert(given.take(0).filter(test) =~= Seq::empty()) by {
            given.take(0).lemma_filter_len(test);
        }
    }
    while i < rasterizations.len()
        invariant
            test == fitting(cell_width as nat, cell_height as nat, pixel_height as nat),
            0 <= done <= given.len(),
            i <= rasterizations@.len(),
            rasterizations@.len() - i == given.len() - done,
            rasterizations@.take(i as int) == given.take(done).filter(test),
            rasterizations@.skip(i as int) == given.skip(done),
        decreases rasterizations@.len() - i,
    {
        let ghost current = rasterizations@;
        proof {
            assert(current[i as int] == current.skip(i as int)[0]);
            assert(given[done] == given.skip(done)[0]);
            assert(given.take(done + 1) =~= given.take(done).push(given[done]));
            given.take(done).lemma_filter_push(given[done], test);
            assert(current.skip(i + 1) =~= given.skip(done + 1)) by {
                assert(current.skip(i + 1) =~= current.skip(i as int).skip(1));
                assert(given.skip(done + 1) =~= given.skip(done).skip(1));
            }
        }
        if raster_fits(&rasterizations[i], cell_width, cell_height, pixel_height) {
            proof {
                assert(current.take(i + 1) =~= current.take(i as int).push(current[i as int]));
            }
            i = i + 1;
        } else {
            rasterizations.remove(i);
            proof {
                assert(rasterizations@.take(i as int) =~= current.take(i as int));
                assert(rasterizations@.skip(i as int) =~= current.skip(i + 1));
            }
        }
        proof {
            done = done + 1;
        }
    }
    proof {
        assert(rasterizations@.skip(i as int).len() == 0);
        assert(given.take(done) =~= given);
        assert(rasterizations@.take(i as int) =~= rasterizations@);
    }
}

/// The geometry of a gradient as mathematical integers.
pub ghost struct GradientFrame {
    pub cell_width: nat,
    pub cell_height: nat,
    /// The height above the baseline from which bearings are counted down.
    pub pixel_height: nat,
    /// Cells across.
    pub cols: nat,
    /// Cells down.
    pub rows: nat,
}

impl GradientFrame {
    /// Width of the picture in pixels.
    pub open spec fn width(self) -> nat {
        self.cols * self.cell_width
    }

    /// Height of the picture in pixels.
    pub open spec fn height(self) -> nat {
        self.rows * self.cell_height
    }

    /// Length of the pixel buffer.
    pub open spec fn area(self) -> nat {
        self.width() * self.height()
    }

    /// Every size fits the machine word.
    pub open spec fn fits(self) -> bool {
        &&& self.cell_width <= usize::MAX
        &&& self.cell_height <= usize::MAX
        &&& self.pixel_height <= usize::MAX
        &&& self.cols <= usize::MAX
        &&& self.rows <= usize::MAX
        &&& self.width() <= usize::MAX
        &&& self.height() <= usize::MAX
        &&& self.area() <= usize::MAX
    }

    /// The picture column of pixel `i` of the glyph in cell `index`: the
    /// cell's left edge, the pixel's column, the bearing, and half of the
    /// room that the glyph leaves.
    pub open spec fn target_x(self, index: int, glyph: GlyphRaster, i: int) -> int {
        (index % (self.cols as int)) * self.cell_width + i % (glyph.width as int) + glyph.xmin + (
        self.cell_width - glyph.width) / 2
    }

    /// The picture row of pixel `i` of the glyph in cell `index`.
    pub open spec fn target_y(self, index: int, glyph: GlyphRaster, i: int) -> int {
        (index / (self.cols as int)) * self.cell_height + i / (glyph.width as int) + inverted_ymin(
            glyph.ymin,
            self.pixel_height,
            glyph.height,
        ) + (self.cell_height - glyph.height) / 2
    }

    /// The place in the pixel buffer of pixel `i` of the glyph in cell `index`.
    pub open spec fn target(self, index: int, glyph: GlyphRaster, i: int) -> int {
        self.target_x(index, glyph, i) + self.target_y(index, glyph, i) * self.width()
    }
}

/// The buffer after the first `k` pixels of `glyph` were written for cell
/// `index`, each where the buffer has its place.
pub open spec fn gradient_blit(
    buffer: Seq<u8>,
    frame: GradientFrame,
    index: int,
    glyph: GlyphRaster,
    k: nat,
) -> Seq<u8>
    decreases k,
{
    if k == 0 {
        buffer
    } else {
        let before = gradient_blit(buffer, frame, index, glyph, (k - 1) as nat);
        let at = frame.target(index, glyph, k - 1);
        if 0 <= at < before.len() {
            before.update(at, glyph.pixels[k - 1])
        } else {
            before
        }
    }
}

/// The buffer after the first `m` glyphs were written.
pub open spec fn gradient_upto(buffer: Seq<u8>, frame: GradientFrame, glyphs: Seq<GlyphRaster>, m: nat) -> Seq<
    u8,
>
    decreases m,
{
    if m == 0 {
        buffer
    } else {
        let before = gradient_upto(buffer, frame, glyphs, (m - 1) as nat);
        gradient_blit(before, frame, m - 1, glyphs[m - 1], glyphs[m - 1].pixels.len())
    }
}

/// The geometry of the gradient of `count` glyphs.
pub open spec fn gradient_frame(
    count: nat,
    cell_width: nat,
    cell_height: nat,
    pixel_height: nat,
    layout: GenerationLayout,
) -> GradientFrame {
    GradientFrame {
        cell_width,
        cell_height,
        pixel_height,
        cols: layout.counts(count).0,
        rows: layout.counts(count).1,
    }
}

/// `out` is the gradient picture of the glyphs: its width, its height and
/// its pixels, a blank buffer into which every glyph was written in order.
pub open spec fn is_gradient(out: (usize, usize, Vec<u8>), frame: GradientFrame, glyphs: Seq<GlyphRaster>) -> bool {
    &&& out.0 == frame.width()
    &&& out.1 == frame.height()
    &&& out.2@ == gradient_upto(blank(frame.area()), frame, glyphs, glyphs.len())
}

/// Every glyph lies inside a cell of the given size.
pub open spec fn all_fit(glyphs: Seq<GlyphRaster>, cell_width: nat, cell_height: nat, pixel_height: nat) -> bool {
    forall|i: int| 0 <= i < glyphs.len() ==> fits_cell(
        #[trigger] glyphs[i],
        cell_width,
        cell_height,
        pixel_height,
    )
}

/// `kept` is what the gradient shows of `rasters`: ordered by brightness,
/// the first of each brightness only where `dedup` is set, and of those the
/// rasters that lie inside a cell.
pub open spec fn is_gradient_selection(
    kept: Seq<CharRaster>,
    rasters: Seq<CharRaster>,
    cell_width: nat,
    cell_height: nat,
    pixel_height: nat,
    dedup: bool,
) -> bool {
    exists|sorted: Seq<CharRaster>| #[trigger]
        is_stable_sort(sorted, rasters, RasterizationProperty::Brightness) && kept == (if dedup {
            first_occurrences(sorted, property_key(RasterizationProperty::Brightness))
        } else {
            sorted
        }).filter(fitting(cell_width, cell_height, pixel_height))
}

/// Orders the rasters by brightness, keeps the first of each brightness
/// where `dedup` is set, and then those that lie inside a cell.
pub fn select_gradient_rasters(
    rasterizations: &mut Vec<CharRaster>,
    cell_width: usize,
    cell_height: usize,
    pixel_height: usize,
    dedup: bool,
)
    ensures
        is_gradient_selection(
            final(rasterizations)@,
            old(rasterizations)@,
            cell_width as nat,
            cell_height as nat,
            pixel_height as nat,
            dedup,
        ),
        all_fit(
            raster_views(final(rasterizations)@),
            cell_width as nat,
            cell_height as nat,
            pixel_height as nat,
        ),
{
    let ghost given = rasterizations@;
    rasterizations.sort_rasters_by(RasterizationProperty::Brightness);
    let ghost sorted = rasterizations@;
    if dedup {
        rasterizations.dedup_rasters_by(RasterizationProperty::Brightness);
    }
    let ghost before = rasterizations@;
    retain_fitting(rasterizations, cell_width, cell_height, pixel_height);
    proof {
        let test = fitting(cell_width as nat, cell_height as nat, pixel_height as nat);
        assert(is_stable_sort(sorted, given, RasterizationProperty::Brightness));
        let kept = rasterizations@;
        let glyphs = raster_views(kept);
        assert forall|i: int| 0 <= i < glyphs.len() implies fits_cell(
            #[trigger] glyphs[i],
            cell_width as nat,
            cell_height as nat,
            pixel_height as nat,
        ) by {
            before.lemma_filter_pred(test, i);
            assert(test(kept[i]));
        }
    }
}

/// Writes one glyph into the cell of position `index`.
fn blit_gradient_raster(
    buffer: &mut Vec<u8>,
    index: usize,
    raster: &CharRaster,
    cell_width: usize,
    cell_height: usize,
    pixel_height: usize,
    cols: usize,
    rows: usize,
    Ghost(frame): Ghost<GradientFrame>,
)
    requires
        frame.fits(),
        frame.cell_width == cell_width,
        frame.cell_height == cell_height,
        frame.pixel_height == pixel_height,
        frame.cols == cols,
        frame.rows == rows,
        index < cols * rows,
        fits_cell(raster@, cell_width as nat, cell_height as nat, pixel_height as nat),
        old(buffer)@.len() == frame.area(),
    ensures
        final(buffer)@ == gradient_blit(
            old(buffer)@,
            frame,
            index as int,
            raster@,
            raster@.pixels.len(),
        ),
        final(buffer)@.len() == old(buffer)@.len(),
{
    let ghost start = buffer@;
    let ghost glyph = raster@;
    let source = raster.pixels();
    let count = source.len();
    if count == 0 {
        return ;
    }
    let metrics = raster.get_metrics();
    let glyph_width = metrics.width;
    assert(glyph_width >= 1) by (nonlinear_arith)
        requires
            count == glyph_width * metrics.height,
            count > 0,
    ;
    assert(cols >= 1 && rows >= 1) by (nonlinear_arith)
        requires
            index < cols * rows,
            cols >= 0,
            rows >= 0,
    ;
    assert(index / cols < rows) by (nonlinear_arith)
        requires
            index < cols * rows,
            cols >= 1,
    ;
    let cell_col = index % cols;
    let cell_row = index / cols;
    let atlas_width = cols * cell_width;
    let atlas_height = rows * cell_height;
    assert(cell_col * cell_width <= atlas_width) by (nonlinear_arith)
        requires
            cell_col < cols,
            atlas_width == cols * cell_width,
    ;
    assert(cell_row * cell_height <= atlas_height) by (nonlinear_arith)
        requires
            cell_row < rows,
            atlas_height == rows * cell_height,
    ;
    let base_x: i128 = (cell_col * cell_width) as i128 + metrics.xmin as i128 + ((cell_width
        - glyph_width) / 2) as i128;
    let base_y: i128 = (cell_row * cell_height) as i128 + invert_ymin(
        metrics.ymin,
        pixel_height,
        metrics.height,
    ) + ((cell_height - metrics.height) / 2) as i128;
    let area: usize = buffer.len();
    let mut i: usize = 0;
    while i < count
        invariant
            i <= count,
            count == glyph.pixels.len(),
            source@ == glyph.pixels,
            glyph == raster@,
            glyph_width == glyph.width,
            glyph_width >= 1,
            frame.fits(),
            atlas_width == frame.width(),
            atlas_height == frame.height(),
            area == frame.area(),
            0 <= base_x <= 4 * usize::MAX,
            0 <= base_y <= 4 * usize::MAX,
            forall|j: int| #![trigger frame.target_x(index as int, glyph, j)]
                frame.target_x(index as int, glyph, j) == base_x + j % (glyph_width as int),
            forall|j: int| #![trigger frame.target_y(index as int, glyph, j)]
                frame.target_y(index as int, glyph, j) == base_y + j / (glyph_width as int),
            buffer@.len() == area,
            buffer@ == gradient_blit(start, frame, index as int, glyph, i as nat),
        decreases count - i,
    {
        let x: i128 = base_x + (i % glyph_width) as i128;
        let y: i128 = base_y + (i / glyph_width) as i128;
        assert(x == frame.target_x(index as int, glyph, i as int));
        assert(y == frame.target_y(index as int, glyph, i as int));
        let ghost at = frame.target(index as int, glyph, i as int);
        if y < atlas_height as i128 {
            assert(0 <= y * atlas_width <= area) by (nonlinear_arith)
                requires
                    0 <= y < atlas_height,
                    atlas_width >= 0,
                    area == atlas_width * atlas_height,
            ;
            let place: i128 = x + y * (atlas_width as i128);
            assert(place == at);
            if place < area as i128 {
                buffer[place as usize] = source[i];
            }
        } else {
            assert(at >= area) by (nonlinear_arith)
                requires
                    at == x + y * atlas_width,
                    x >= 0,
                    y >= atlas_height,
                    atlas_width >= 0,
                    area == atlas_width * atlas_height,
            ;
        }
        i = i + 1;
    }
}

/// The gradient picture of the rasters, each of which lies inside a cell:
/// its width, its height and its pixels. `None` where one of the picture's
/// sizes does not fit the machine word.
pub fn gradient_atlas(
    rasterizations: &Vec<CharRaster>,
    cell_width: usize,
    cell_height: usize,
    pixel_height: usize,
    layout: GenerationLayout,
) -> (out: Option<(usize, usize, Vec<u8>)>)
    requires
        all_fit(
            raster_views(rasterizations@),
            cell_width as nat,
            cell_height as nat,
            pixel_height as nat,
        ),
    ensures
        out is Some <==> gradient_frame(
            rasterizations@.len(),
            cell_width as nat,
            cell_height as nat,
            pixel_height as nat,
            layout,
        ).fits(),
        out matches Some(made) ==> is_gradient(
            made,
            gradient_frame(
                rasterizations@.len(),
                cell_width as nat,
                cell_height as nat,
                pixel_height as nat,
                layout,
            ),
            raster_views(rasterizations@),
        ),
{
    let ghost glyphs = raster_views(rasterizations@);
    let count = rasterizations.len();
    let ghost frame = gradient_frame(
        count as nat,
        cell_width as nat,
        cell_height as nat,
        pixel_height as nat,
        layout,
    );
    let (cols, rows) = layout.get_counts(count);
    let width = match cols.checked_mul(cell_width) {
        None => { return None; },
        Some(width) => width,
    };
    let height = match rows.checked_mul(cell_height) {
        None => { return None; },
        Some(height) => height,
    };
    let area = match width.checked_mul(height) {
        None => { return None; },
        Some(area) => area,
    };
    proof {
        lemma_grid_holds_all(layout, count as nat);
    }
    let mut pixels = blank_buffer(area);
    let mut index: usize = 0;
    while index < count
        invariant
            index <= count,
            count == rasterizations@.len(),
            count <= cols * rows,
            glyphs == raster_views(rasterizations@),
            all_fit(glyphs, cell_width as nat, cell_height as nat, pixel_height as nat),
            frame.fits(),
            frame.cell_width == cell_width,
            frame.cell_height == cell_height,
            frame.pixel_height == pixel_height,
            frame.cols == cols,
            frame.rows == rows,
            pixels@.len() == frame.area(),
            pixels@ == gradient_upto(blank(frame.area()), frame, glyphs, index as nat),
        decreases count - index,
    {
        assert(fits_cell(
            glyphs[index as int],
            cell_width as nat,
            cell_height as nat,
            pixel_height as nat,
        ));
        blit_gradient_raster(
            &mut pixels,
            index,
            &rasterizations[index],
            cell_width,
            cell_height,
            pixel_height,
            cols,
            rows,
            Ghost(frame),
        );
        index = index + 1;
    }
    Some((width, height, pixels))
}

/// The grid of every layout has a cell for each glyph.
pub proof fn lemma_grid_holds_all(layout: GenerationLayout, count: nat)
    ensures
        count <= layout.counts(count).0 * layout.counts(count).1,
{
    match layout {
        GenerationLayout::Horizontal => {},
        GenerationLayout::Vertical => {},
        GenerationLayout::Square => {
            let cols = ceil_sqrt(count);
            let rows = ceil_div(count, cols);
            if count == 0 {
                assert(cols * rows >= 0) by (nonlinear_arith)
                    requires
                        cols >= 0,
                        rows >= 0,
                ;
            } else {
                assert(is_ceil_sqrt(count, cols)) by {
                    lemma_ceil_sqrt_exists(count);
                }
                assert(cols >= 1) by (nonlinear_arith)
                    requires
                        cols * cols >= count,
                        count >= 1,
                        cols >= 0,
                ;
                assert(count <= cols * rows) by (nonlinear_arith)
                    requires
                        cols >= 1,
                        rows == if count % cols == 0 {
                            count / cols
                        } else {
                            count / cols + 1
                        },
                ;
            }
        },
    }
}

/// The gradient picture of the rasters: they are ordered by brightness,
/// the first of each brightness is kept where `dedup` is set, those that
/// do not lie inside a cell are left out, and the rest is written into
/// the cells row by row. `None` where one of the picture's sizes does not
/// fit the machine word.
pub fn generate_gradient_data(
    rasterizations: Vec<CharRaster>,
    cell_width: usize,
    cell_height: usize,
    pixel_height: usize,
    layout: GenerationLayout,
    dedup: bool,
) -> (out: Option<(usize, usize, Vec<u8>)>)
    ensures
        exists|kept: Seq<CharRaster>| #[trigger]
            is_gradient_selection(
                kept,
                rasterizations@,
                cell_width as nat,
                cell_height as nat,
                pixel_height as nat,
                dedup,
            ) && (out is Some <==> gradient_frame(
                kept.len(),
                cell_width as nat,
                cell_height as nat,
                pixel_height as nat,
                layout,
            ).fits()) && (out matches Some(made) ==> is_gradient(
                made,
                gradient_frame(
                    kept.len(),
                    cell_width as nat,
                    cell_height as nat,
                    pixel_height as nat,
                    layout,
                ),
                raster_views(kept),
            )),
{
    let mut kept = rasterizations;
    select_gradient_rasters(&mut kept, cell_width, cell_height, pixel_height, dedup);
    let out = gradient_atlas(&kept, cell_width, cell_height, pixel_height, layout);
    proof {
        assert(is_gradient_selection(
            kept@,
            rasterizations@,
            cell_width as nat,
            cell_height as nat,
            pixel_height as nat,
            dedup,
        ));
    }
    out
}

} // verus!
