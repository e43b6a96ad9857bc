//! From a collection of glyph rasters and render settings to an atlas.

use vstd::prelude::*;
use crate::compositor::{
    ascent_limit,
    atlas_pixels,
    composite,
    lemma_atlas_len,
    placed_count,
    AtlasFrame,
    Frame,
    Padding,
    RenderDirection,
};
use crate::collection::{first_occurrences, is_stable_sort, pixels_key, property_key, RasterManip};
use crate::layout::{lemma_grid_has_room, lemma_no_cells, RenderLayout};
use crate::rasterization::{raster_views, CharRaster, GlyphRaster, RasterizationProperty};
use crate::text::{decimal, decimal_digits, join};

verus! {

/// What can go wrong on the way from an atlas to a picture file.
#[derive(PartialEq, Eq, Structural, Clone, Copy, Debug)]
pub enum RendererError {
    /// No usable path was given for the file.
    InvalidPath,
    /// The file could not be created.
    CreationError,
    /// The atlas is too large to be shown.
    TooLarge,
}

impl RendererError {
    /// The text of the error.
    pub open spec fn message_text(self) -> Seq<char> {
        match self {
            RendererError::InvalidPath => "Path provided is invalid"@,
            RendererError::CreationError => "Encountered error creating render file"@,
            RendererError::TooLarge => "Texture too large"@,
        }
    }

    /// The text of the error.
    pub fn message(&self) -> (text: String)
        ensures
            text@ == self.message_text(),
    {
        match self {
            RendererError::InvalidPath => "Path provided is invalid".to_owned(),
            RendererError::CreationError => "Encountered error creating render file".to_owned(),
            RendererError::TooLarge => "Texture too large".to_owned(),
        }
    }
}

/// The largest width or height of an atlas that can be shown.
pub const MAX_TEXTURE_SIDE: usize = 16384;

/// The line metrics of a font at one size, in whole pixels.
#[derive(PartialEq, Eq, Structural, Clone, Copy, Debug)]
pub struct LineSpan {
    /// Highest point that a glyph reaches above the baseline.
    pub ascent: i32,
    /// Lowest point that a glyph reaches below the baseline; mostly negative.
    pub descent: i32,
}

/// What the caller chooses for one rendering.
#[derive(Clone, Debug)]
pub struct RenderSettings {
    /// The characters to render, or `None` for all that the font has.
    pub input: Option<String>,
    /// The size at which glyphs are rasterized, in whole pixels; the cell
    /// size where there is neither a raster nor a line metric to go by.
    pub render_height: usize,
    pub render_padding: Padding,
    pub render_layout: RenderLayout,
    pub render_direction: RenderDirection,
    /// The property by which the rasters are ordered, if any.
    pub sort_property: Option<RasterizationProperty>,
    /// The property of which each value is kept once, if any.
    pub dedup_property: Option<RasterizationProperty>,
    /// Whether rasters with the same bitmap are kept once.
    pub dedup_exact_duplicate: bool,
}

impl Default for RenderSettings {
    fn default() -> (settings: Self)
        ensures
            settings.input is None,
            settings.render_height == 8,
            settings.render_padding == (Padding { left: 0, right: 0, up: 0, down: 0 }),
            settings.render_layout == RenderLayout::Squarish,
            settings.render_direction == RenderDirection::LeftToRight,
            settings.sort_property == Some(RasterizationProperty::Brightness),
            settings.dedup_property == Some(RasterizationProperty::Brightness),
            settings.dedup_exact_duplicate,
    {
        RenderSettings {
            input: None,
            render_height: 8,
            render_padding: Padding { left: 0, right: 0, up: 0, down: 0 },
            render_layout: RenderLayout::Squarish,
            render_direction: RenderDirection::LeftToRight,
            sort_property: Some(RasterizationProperty::Brightness),
            dedup_property: Some(RasterizationProperty::Brightness),
            dedup_exact_duplicate: true,
        }
    }
}

/// The mathematical content of an atlas: `width` by `height` coverage
/// values, row by row.
pub ghost struct AtlasBuffer {
    pub width: nat,
    pub height: nat,
    pub pixels: Seq<u8>,
}

/// The pixels of an atlas and its size.
#[derive(Debug)]
pub struct RenderData {
    width: usize,
    height: usize,
    pixels: Vec<u8>,
}

impl View for RenderData {
    type V = AtlasBuffer;

    closed spec fn view(&self) -> AtlasBuffer {
        AtlasBuffer {
            width: self.width as nat,
            height: self.height as nat,
            pixels: self.pixels@,
        }
    }
}

impl Default for RenderData {
    fn default() -> (data: Self)
        ensures
            data@ == (AtlasBuffer { width: 0, height: 0, pixels: Seq::empty() }),
    {
        RenderData { width: 0, height: 0, pixels: Vec::new() }
    }
}

impl Clone for RenderData {
    fn clone(&self) -> (copy: Self)
        ensures
            copy@ == self@,
    {
        proof {
            use_type_invariant(self);
        }
        let pixels = self.pixels.clone();
        assert(pixels@ =~= self.pixels@);
        RenderData { width: self.width, height: self.height, pixels }
    }
}

impl RenderData {
    #[verifier::type_invariant]
    closed spec fn inv(self) -> bool {
        self.pixels@.len() == self.width * self.height
    }

    /// An atlas from its size and its pixels, row by row; `None` where the
    /// pixels are not one for each place of that size.
    pub fn new(width: usize, height: usize, pixels: Vec<u8>) -> (data: Option<Self>)
        ensures
            data is Some <==> pixels@.len() == width * height,
            data matches Some(made) ==> made@ == (AtlasBuffer {
                width: width as nat,
                height: height as nat,
                pixels: pixels@,
            }),
    {
        let len = pixels.len();
        match width.checked_mul(height) {
            Some(area) => {
                if len == area {
                    Some(RenderData { width, height, pixels })
                } else {
                    None
                }
            },
            None => None,
        }
    }

    /// Whether the atlas is small enough to be shown: neither side is
    /// longer than `MAX_TEXTURE_SIDE`.
    pub fn renderable(&self) -> (fit: bool)
        ensures
            fit == (self@.width <= MAX_TEXTURE_SIDE && self@.height <= MAX_TEXTURE_SIDE),
    {
        self.width <= MAX_TEXTURE_SIDE && self.height <= MAX_TEXTURE_SIDE
    }

    /// Width in pixels.
    pub fn width(&self) -> (width: usize)
        ensures
            width == self@.width,
    {
        self.width
    }

    /// Height in pixels.
    pub fn height(&self) -> (height: usize)
        ensures
            height == self@.height,
    {
        self.height
    }

    /// The coverage values, row by row: one for each pixel.
    pub fn pixels(&self) -> (pixels: &Vec<u8>)
        ensures
            pixels@ == self@.pixels,
            pixels@.len() == self@.width * self@.height,
    {
        proof {
            use_type_invariant(self);
        }
        &self.pixels
    }
}

/// The mathematical content of an atlas summary.
pub ghost struct AtlasInfo {
    /// Width and height of a cell without its padding.
    pub cell_size: (nat, nat),
    /// Cells across and down.
    pub cell_count: (nat, nat),
    /// How many cells hold a raster.
    pub cell_filled: nat,
    /// Padding to the left, to the right, above and below.
    pub cell_padding: (nat, nat, nat, nat),
}

/// A summary of an atlas.
#[derive(Clone, Copy, Debug)]
pub struct RenderInfo {
    cell_size: (usize, usize),
    cell_count: (usize, usize),
    cell_filled: usize,
    cell_padding: (usize, usize, usize, usize),
}

impl View for RenderInfo {
    type V = AtlasInfo;

    closed spec fn view(&self) -> AtlasInfo {
        AtlasInfo {
            cell_size: (self.cell_size.0 as nat, self.cell_size.1 as nat),
            cell_count: (self.cell_count.0 as nat, self.cell_count.1 as nat),
            cell_filled: self.cell_filled as nat,
            cell_padding: (
                self.cell_padding.0 as nat,
                self.cell_padding.1 as nat,
                self.cell_padding.2 as nat,
                self.cell_padding.3 as nat,
            ),
        }
    }
}

impl Default for RenderInfo {
    fn default() -> (info: Self)
        ensures
            info@ == (AtlasInfo {
                cell_size: (0, 0),
                cell_count: (0, 0),
                cell_filled: 0,
                cell_padding: (0, 0, 0, 0),
            }),
    {
        RenderInfo {
            cell_size: (0, 0),
            cell_count: (0, 0),
            cell_filled: 0,
            cell_padding: (0, 0, 0, 0),
        }
    }
}

impl RenderInfo {
    /// The name under which the atlas of a font is saved: the font's name,
    /// then the cell's width and height, then the cells across and down.
    pub open spec fn texture_name_of(self, stem: Seq<char>) -> Seq<char> {
        stem + "-("@ + decimal_digits(self@.cell_size.0) + "w-"@ + decimal_digits(
            self@.cell_size.1,
        ) + "h)-("@ + decimal_digits(self@.cell_count.0) + "H-"@ + decimal_digits(
            self@.cell_count.1,
        ) + "V)"@
    }

    /// The name under which the atlas of a font is saved.
    pub fn texture_name(&self, stem: &str) -> (name: String)
        ensures
            name@ == self.texture_name_of(stem@),
    {
        let cell_width = decimal(self.cell_size.0);
        let cell_height = decimal(self.cell_size.1);
        let cols = decimal(self.cell_count.0);
        let rows = decimal(self.cell_count.1);
        let a = join(stem, "-(", cell_width.as_str());
        let b = join(a.as_str(), "w-", cell_height.as_str());
        let c = join(b.as_str(), "h)-(", cols.as_str());
        let d = join(c.as_str(), "H-", rows.as_str());
        let name = join(d.as_str(), "V)", "");
        proof {
            reveal_strlit("");
            assert(d@ + "V)"@ + ""@ =~= d@ + "V)"@);
        }
        name
    }

    /// Width and height of a cell without its padding.
    pub fn cell_size(&self) -> (size: (usize, usize))
        ensures
            (size.0 as nat, size.1 as nat) == self@.cell_size,
    {
        self.cell_size
    }

    /// Cells across and down.
    pub fn cell_count(&self) -> (count: (usize, usize))
        ensures
            (count.0 as nat, count.1 as nat) == self@.cell_count,
    {
        self.cell_count
    }

    /// How many cells hold a raster.
    pub fn cell_filled(&self) -> (filled: usize)
        ensures
            filled == self@.cell_filled,
    {
        self.cell_filled
    }

    /// Padding to the left, to the right, above and below.
    pub fn cell_padding(&self) -> (padding: (usize, usize, usize, usize))
        ensures
            (padding.0 as nat, padding.1 as nat, padding.2 as nat, padding.3 as nat)
                == self@.cell_padding,
    {
        self.cell_padding
    }
}

/// The largest width among the glyphs; 0 where there is none.
pub open spec fn widest(glyphs: Seq<GlyphRaster>) -> nat
    decreases glyphs.len(),
{
    if glyphs.len() == 0 {
        0
    } else {
        let before = widest(glyphs.drop_last());
        if glyphs.last().width > before {
            glyphs.last().width
        } else {
            before
        }
    }
}

/// The largest height among the glyphs; 0 where there is none.
pub open spec fn tallest(glyphs: Seq<GlyphRaster>) -> nat
    decreases glyphs.len(),
{
    if glyphs.len() == 0 {
        0
    } else {
        let before = tallest(glyphs.drop_last());
        if glyphs.last().height > before {
            glyphs.last().height
        } else {
            before
        }
    }
}

/// The upper end of a cell's span: the line's ascent, or without line
/// metrics the largest glyph, or without glyphs the fallback.
pub open spec fn span_ascent(line: Option<LineSpan>, largest: nat, count: nat, fallback: nat) -> int {
    match line {
        Some(l) => l.ascent as int,
        None => if count == 0 {
            fallback as int
        } else {
            largest as int
        },
    }
}

/// The length of a cell's span: from the line's descent to its ascent and
/// never negative, or without line metrics the largest glyph, or without
/// glyphs the fallback.
pub open spec fn span_size(line: Option<LineSpan>, largest: nat, count: nat, fallback: nat) -> nat {
    match line {
        Some(l) => if l.ascent >= l.descent {
            (l.ascent - l.descent) as nat
        } else {
            0
        },
        None => if count == 0 {
            fallback
        } else {
            largest
        },
    }
}

/// The geometry of the atlas for the given glyphs and settings. The cell's
/// height and the common baseline come from the horizontal line metrics,
/// the cell's width from the vertical ones; the grid is the layout's for
/// the padded cell.
pub open spec fn resolve_frame(
    h_line_metrics: Option<LineSpan>,
    v_line_metrics: Option<LineSpan>,
    glyphs: Seq<GlyphRaster>,
    settings: RenderSettings,
) -> Frame {
    let count = glyphs.len();
    let fallback = settings.render_height as nat;
    let cell_height = span_size(h_line_metrics, tallest(glyphs), count, fallback);
    let cell_width = span_size(v_line_metrics, widest(glyphs), count, fallback);
    let padding = settings.render_padding;
    let counts = settings.render_layout.cell_counts(
        count,
        (cell_width + padding.left + padding.right) as nat,
        (cell_height + padding.up + padding.down) as nat,
    );
    Frame {
        cell_width,
        cell_height,
        ascent: span_ascent(h_line_metrics, tallest(glyphs), count, fallback),
        left: padding.left as nat,
        right: padding.right as nat,
        up: padding.up as nat,
        down: padding.down as nat,
        cols: counts.0,
        rows: counts.1,
        direction: settings.render_direction,
    }
}

/// Every size of the atlas for the given glyphs and settings fits the
/// machine word, and so does the area that the layout measures.
pub open spec fn render_fits(
    h_line_metrics: Option<LineSpan>,
    v_line_metrics: Option<LineSpan>,
    glyphs: Seq<GlyphRaster>,
    settings: RenderSettings,
) -> bool {
    let frame = resolve_frame(h_line_metrics, v_line_metrics, glyphs, settings);
    &&& frame.fits()
    &&& settings.render_layout.measures_area() ==> frame.padded_width() * frame.padded_height()
        * glyphs.len() <= usize::MAX
}

/// `out` is the atlas that `frame` lays out for `glyphs`, with its summary.
pub open spec fn is_rendering(out: (RenderData, RenderInfo), frame: Frame, glyphs: Seq<GlyphRaster>) -> bool {
    &&& out.0@ == (AtlasBuffer {
        width: frame.width(),
        height: frame.height(),
        pixels: atlas_pixels(frame, glyphs),
    })
    &&& out.1@ == (AtlasInfo {
        cell_size: (frame.cell_width, frame.cell_height),
        cell_count: (frame.cols, frame.rows),
        cell_filled: frame.placed(glyphs.len()),
        cell_padding: (frame.left, frame.right, frame.up, frame.down),
    })
}

/// Rendering is a function of the glyphs and the settings: two renderings
/// of the same glyphs, in the same order and with the same settings, hold
/// the same pixels and the same summary.
pub proof fn lemma_rendering_is_determined(
    first: (RenderData, RenderInfo),
    second: (RenderData, RenderInfo),
    h_line_metrics: Option<LineSpan>,
    v_line_metrics: Option<LineSpan>,
    glyphs: Seq<GlyphRaster>,
    settings: RenderSettings,
)
    requires
        is_rendering(
            first,
            resolve_frame(h_line_metrics, v_line_metrics, glyphs, settings),
            glyphs,
        ),
        is_rendering(
            second,
            resolve_frame(h_line_metrics, v_line_metrics, glyphs, settings),
            glyphs,
        ),
    ensures
        first.0@ == second.0@,
        first.1@ == second.1@,
{
}

/// With every layout but a custom one each glyph gets a cell: none is
/// left out.
pub proof fn lemma_all_placed(
    h_line_metrics: Option<LineSpan>,
    v_line_metrics: Option<LineSpan>,
    glyphs: Seq<GlyphRaster>,
    settings: RenderSettings,
)
    requires
        !(settings.render_layout is Custom),
    ensures
        resolve_frame(h_line_metrics, v_line_metrics, glyphs, settings).capacity() >= glyphs.len(),
        resolve_frame(h_line_metrics, v_line_metrics, glyphs, settings).placed(glyphs.len())
            == glyphs.len(),
{
    let frame = resolve_frame(h_line_metrics, v_line_metrics, glyphs, settings);
    lemma_grid_has_room(
        settings.render_layout,
        glyphs.len(),
        frame.padded_width(),
        frame.padded_height(),
    );
}

/// Without glyphs, the atlas of every layout but a custom one has no pixels.
pub proof fn lemma_empty_atlas(
    h_line_metrics: Option<LineSpan>,
    v_line_metrics: Option<LineSpan>,
    settings: RenderSettings,
)
    requires
        !(settings.render_layout is Custom),
    ensures
        resolve_frame(h_line_metrics, v_line_metrics, Seq::empty(), settings).area() == 0,
        atlas_pixels(
            resolve_frame(h_line_metrics, v_line_metrics, Seq::empty(), settings),
            Seq::empty(),
        ).len() == 0,
{
    let frame = resolve_frame(h_line_metrics, v_line_metrics, Seq::empty(), settings);
    lemma_no_cells(settings.render_layout, frame.padded_width(), frame.padded_height());
    assert(frame.cols == 0 || frame.rows == 0);
    assert(frame.width() * frame.height() == 0) by (nonlinear_arith)
        requires
            frame.width() == frame.cols * frame.padded_width(),
            frame.height() == frame.rows * frame.padded_height(),
            frame.cols == 0 || frame.rows == 0,
    ;
    lemma_atlas_len(frame, Seq::empty());
}

/// The rasters that the settings keep: the first of each value of the
/// dedup property where one is set; else the first of each bitmap where
/// exact duplicates are to go; else all.
pub open spec fn deduplicated(rasters: Seq<CharRaster>, settings: RenderSettings) -> Seq<CharRaster> {
    match settings.dedup_property {
        Some(property) => first_occurrences(rasters, property_key(property)),
        None => if settings.dedup_exact_duplicate {
            first_occurrences(rasters, pixels_key())
        } else {
            rasters
        },
    }
}

/// `prepared` holds the rasters that the settings keep of `rasters`, in
/// the order of the sort property where one is set, else as they were.
pub open spec fn is_prepared(
    prepared: Seq<CharRaster>,
    rasters: Seq<CharRaster>,
    settings: RenderSettings,
) -> bool {
    match settings.sort_property {
        Some(property) => is_stable_sort(prepared, deduplicated(rasters, settings), property),
        None => prepared == deduplicated(rasters, settings),
    }
}

/// Filters and orders the rasters as the settings say: duplicates go
/// first, then the rest is sorted.
pub fn prepare_rasters(rasterizations: &mut Vec<CharRaster>, render_settings: &RenderSettings)
    ensures
        is_prepared(final(rasterizations)@, old(rasterizations)@, *render_settings),
{
    match render_settings.dedup_property {
        Some(property) => {
            rasterizations.dedup_rasters_by(property);
        },
        None => {
            if render_settings.dedup_exact_duplicate {
                rasterizations.dedup_exact_duplicate();
            }
        },
    }
    match render_settings.sort_property {
        Some(property) => {
            rasterizations.sort_rasters_by(property);
        },
        None => {},
    }
}

/// The largest width and the largest height among the rasters.
fn largest_sizes(rasterizations: &Vec<CharRaster>) -> (sizes: (usize, usize))
    ensures
        sizes.0 == widest(raster_views(rasterizations@)),
        sizes.1 == tallest(raster_views(rasterizations@)),
{
    let ghost glyphs = raster_views(rasterizations@);
    let mut wide: usize = 0;
    let mut tall: usize = 0;
    let mut i: usize = 0;
    while i < rasterizations.len()
        invariant
            i <= rasterizations@.len(),
            glyphs == raster_views(rasterizations@),
            wide == widest(glyphs.take(i as int)),
            tall == tallest(glyphs.take(i as int)),
        decreases rasterizations@.len() - i,
    {
        proof {
            assert(glyphs.take(i + 1).drop_last() =~= glyphs.take(i as int));
        }
        let width = rasterizations[i].get_width();
        let height = rasterizations[i].get_height();
        if width > wide {
            wide = width;
        }
        if height > tall {
            tall = height;
        }
        i = i + 1;
    }
    assert(glyphs.take(i as int) =~= glyphs);
    (wide, tall)
}

/// The upper end and the length of a cell's span.
fn span_of(line: Option<LineSpan>, largest: usize, count: usize, fallback: usize) -> (span: (
    i128,
    usize,
))
    ensures
        span.0 == span_ascent(line, largest as nat, count as nat, fallback as nat),
        span.1 == span_size(line, largest as nat, count as nat, fallback as nat),
        -ascent_limit() <= span.0 <= ascent_limit(),
{
    match line {
        Some(l) => {
            let size: usize = if l.ascent >= l.descent {
                (l.ascent as i64 - l.descent as i64) as usize
            } else {
                0
            };
            (l.ascent as i128, size)
        },
        None => {
            let size = if count == 0 {
                fallback
            } else {
                largest
            };
            (size as i128, size)
        },
    }
}

/// The geometry of the atlas for the given rasters and settings, or `None`
/// where one of its sizes does not fit the machine word.
pub fn resolve(
    h_line_metrics: Option<LineSpan>,
    v_line_metrics: Option<LineSpan>,
    rasterizations: &Vec<CharRaster>,
    render_settings: &RenderSettings,
) -> (frame: Option<AtlasFrame>)
    ensures
        frame is Some <==> render_fits(
            h_line_metrics,
            v_line_metrics,
            raster_views(rasterizations@),
            *render_settings,
        ),
        frame matches Some(f) ==> f@ == resolve_frame(
            h_line_metrics,
            v_line_metrics,
            raster_views(rasterizations@),
            *render_settings,
        ),
{
    let ghost glyphs = raster_views(rasterizations@);
    let ghost goal = resolve_frame(h_line_metrics, v_line_metrics, glyphs, *render_settings);
    let count = rasterizations.len();
    let (wide, tall) = largest_sizes(rasterizations);
    let (ascent, cell_height) = span_of(h_line_metrics, tall, count, render_settings.render_height);
    let (_, cell_width) = span_of(v_line_metrics, wide, count, render_settings.render_height);
    let padding = render_settings.render_padding;
    let padded_width = match cell_width.checked_add(padding.left) {
        None => { return None; },
        Some(sum) => match sum.checked_add(padding.right) {
            None => { return None; },
            Some(sum) => sum,
        },
    };
    let padded_height = match cell_height.checked_add(padding.up) {
        None => { return None; },
        Some(sum) => match sum.checked_add(padding.down) {
            None => { return None; },
            Some(sum) => sum,
        },
    };
    let (cols, rows) = match render_settings.render_layout.checked_cell_counts(
        count,
        padded_width,
        padded_height,
    ) {
        None => { return None; },
        Some(counts) => counts,
    };
    let width = match cols.checked_mul(padded_width) {
        None => { return None; },
        Some(width) => width,
    };
    let height = match rows.checked_mul(padded_height) {
        None => { return None; },
        Some(height) => height,
    };
    if width.checked_mul(height).is_none() {
        return None;
    }
    let frame = AtlasFrame {
        cell_width,
        cell_height,
        ascent,
        padding,
        grid_cols: cols,
        grid_rows: rows,
        direction: render_settings.render_direction,
    };
    assert(frame@ == goal);
    Some(frame)
}

/// The atlas of `frame` for the rasters, with its summary.
pub fn render_frame(rasterizations: &Vec<CharRaster>, frame: &AtlasFrame) -> (out: (
    RenderData,
    RenderInfo,
))
    requires
        frame@.fits(),
    ensures
        is_rendering(out, frame@, raster_views(rasterizations@)),
{
    let pixels = composite(rasterizations, frame);
    let padding = frame.padding;
    let padded_width = frame.cell_width + padding.left + padding.right;
    let padded_height = frame.cell_height + padding.up + padding.down;
    let data = RenderData {
        width: frame.grid_cols * padded_width,
        height: frame.grid_rows * padded_height,
        pixels,
    };
    let info = RenderInfo {
        cell_size: (frame.cell_width, frame.cell_height),
        cell_count: (frame.grid_cols, frame.grid_rows),
        cell_filled: placed_count(rasterizations.len(), frame.grid_cols, frame.grid_rows),
        cell_padding: (padding.left, padding.right, padding.up, padding.down),
    };
    (data, info)
}

/// The atlas for the given rasters and settings, with its summary.
///
/// The sizes of the atlas must fit the machine word;
/// `try_generate_render_data` tests that first.
pub fn generate_render_data(
    h_line_metrics: Option<LineSpan>,
    v_line_metrics: Option<LineSpan>,
    rasterizations: Vec<CharRaster>,
    render_settings: &RenderSettings,
) -> (out: (RenderData, RenderInfo))
    requires
        render_fits(
            h_line_metrics,
            v_line_metrics,
            raster_views(rasterizations@),
            *render_settings,
        ),
    ensures
        is_rendering(
            out,
            resolve_frame(
                h_line_metrics,
                v_line_metrics,
                raster_views(rasterizations@),
                *render_settings,
            ),
            raster_views(rasterizations@),
        ),
{
    let frame = resolve(h_line_metrics, v_line_metrics, &rasterizations, render_settings).unwrap();
    render_frame(&rasterizations, &frame)
}

/// The atlas for the given rasters and settings, with its summary, or
/// `None` where one of its sizes does not fit the machine word.
pub fn try_generate_render_data(
    h_line_metrics: Option<LineSpan>,
    v_line_metrics: Option<LineSpan>,
    rasterizations: Vec<CharRaster>,
    render_settings: &RenderSettings,
) -> (out: Option<(RenderData, RenderInfo)>)
    ensures
        out is Some <==> render_fits(
            h_line_metrics,
            v_line_metrics,
            raster_views(rasterizations@),
            *render_settings,
        ),
        out matches Some(made) ==> is_rendering(
            made,
            resolve_frame(
                h_line_metrics,
                v_line_metrics,
                raster_views(rasterizations@),
                *render_settings,
            ),
            raster_views(rasterizations@),
        ),
{
    match resolve(h_line_metrics, v_line_metrics, &rasterizations, render_settings) {
        Some(frame) => Some(render_frame(&rasterizations, &frame)),
        None => None,
    }
}

} // verus!
