//! Copying glyph bitmaps into the cells of one flat pixel buffer.

use vstd::prelude::*;
use crate::rasterization::{raster_views, CharRaster, GlyphRaster};

verus! {

/// The order in which the cells of the grid are filled.
#[derive(PartialEq, Eq, Structural, Clone, Copy, Debug)]
pub enum RenderDirection {
    /// Row by row.
    LeftToRight,
    /// Column by column.
    TopToBottom,
}

impl RenderDirection {
    /// The direction's name.
    pub open spec fn label_text(self) -> Seq<char> {
        match self {
            RenderDirection::LeftToRight => "Left to right"@,
            RenderDirection::TopToBottom => "Top to bottom"@,
        }
    }

    /// The direction's name.
    pub fn label(&self) -> (text: String)
        ensures
            text@ == self.label_text(),
    {
        match self {
            RenderDirection::LeftToRight => "Left to right".to_owned(),
            RenderDirection::TopToBottom => "Top to bottom".to_owned(),
        }
    }
}

/// Empty space kept inside every cell, in pixels.
#[derive(PartialEq, Eq, Structural, Clone, Copy, Debug)]
pub struct Padding {
    pub left: usize,
    pub right: usize,
    pub up: usize,
    pub down: usize,
}

impl Default for Padding {
    fn default() -> (padding: Self)
        ensures
            padding == (Padding { left: 0, right: 0, up: 0, down: 0 }),
    {
        Padding { left: 0, right: 0, up: 0, down: 0 }
    }
}

impl Padding {
    /// Left and right padding together.
    pub fn horizontal(&self) -> (sum: usize)
        requires
            self.left + self.right <= usize::MAX,
        ensures
            sum == self.left + self.right,
    {
        self.left + self.right
    }

    /// Upper and lower padding together.
    pub fn vertical(&self) -> (sum: usize)
        requires
            self.up + self.down <= usize::MAX,
        ensures
            sum == self.up + self.down,
    {
        self.up + self.down
    }
}

/// The geometry of an atlas as mathematical integers.
pub ghost struct Frame {
    /// Width of a cell without its padding.
    pub cell_width: nat,
    /// Height of a cell without its padding.
    pub cell_height: nat,
    /// Distance from a cell's upper edge to the common baseline.
    pub ascent: int,
    pub left: nat,
    pub right: nat,
    pub up: nat,
    pub down: nat,
    /// Cells across.
    pub cols: nat,
    /// Cells down.
    pub rows: nat,
    pub direction: RenderDirection,
}

/// The largest magnitude of an ascent that the compositor takes.
pub open spec fn ascent_limit() -> int {
    0x1_0000_0000_0000_0000
}

/// `v`, or 0 where `v` is negative.
pub open spec fn at_least_zero(v: int) -> int {
    if v < 0 {
        0
    } else {
        v
    }
}

impl Frame {
    /// Width of a cell with its padding.
    pub open spec fn padded_width(self) -> nat {
        self.cell_width + self.left + self.right
    }

    /// Height of a cell with its padding.
    pub open spec fn padded_height(self) -> nat {
        self.cell_height + self.up + self.down
    }

    /// Width of the atlas in pixels.
    pub open spec fn width(self) -> nat {
        self.cols * self.padded_width()
    }

    /// Height of the atlas in pixels.
    pub open spec fn height(self) -> nat {
        self.rows * self.padded_height()
    }

    /// Length of the pixel buffer.
    pub open spec fn area(self) -> nat {
        self.width() * self.height()
    }

    /// How many cells the grid has.
    pub open spec fn capacity(self) -> nat {
        self.cols * self.rows
    }

    /// How many of `count` rasters get a cell: the others are left out.
    pub open spec fn placed(self, count: nat) -> nat {
        if count <= self.capacity() {
            count
        } else {
            self.capacity()
        }
    }

    /// Every size fits the machine word.
    pub open spec fn fits(self) -> bool {
        &&& self.padded_width() <= usize::MAX
        &&& self.padded_height() <= usize::MAX
        &&& self.cols <= usize::MAX
        &&& self.rows <= usize::MAX
        &&& self.width() <= usize::MAX
        &&& self.height() <= usize::MAX
        &&& self.area() <= usize::MAX
        &&& -ascent_limit() <= self.ascent <= ascent_limit()
    }

    /// The column of the cell that raster `index` goes to.
    pub open spec fn cell_col(self, index: int) -> int {
        match self.direction {
            RenderDirection::LeftToRight => index % (self.cols as int),
            RenderDirection::TopToBottom => index / (self.rows as int),
        }
    }

    /// The row of the cell that raster `index` goes to.
    pub open spec fn cell_row(self, index: int) -> int {
        match self.direction {
            RenderDirection::LeftToRight => index / (self.cols as int),
            RenderDirection::TopToBottom => index % (self.rows as int),
        }
    }

    /// What centres the glyph in its cell from left to right, rounded down.
    pub open spec fn offset_x(self, glyph: GlyphRaster) -> int {
        (self.cell_width - glyph.width) / 2
    }

    /// What puts the glyph's baseline on the common one.
    pub open spec fn offset_y(self, glyph: GlyphRaster) -> int {
        self.ascent - (glyph.height + glyph.ymin)
    }

    /// The atlas column of pixel `i` of the glyph in cell `index`.
    pub open spec fn target_x(self, index: int, glyph: GlyphRaster, i: int) -> int {
        at_least_zero(
            self.cell_col(index) * self.padded_width() + i % (glyph.width as int) + self.offset_x(
                glyph,
            ),
        ) + self.left
    }

    /// The atlas row of pixel `i` of the glyph in cell `index`.
    pub open spec fn target_y(self, index: int, glyph: GlyphRaster, i: int) -> int {
        at_least_zero(
            self.cell_row(index) * self.padded_height() + i / (glyph.width as int) + self.offset_y(
                glyph,
            ),
        ) + self.up
    }

    /// The place in the pixel buffer of pixel `i` of the glyph in cell `index`.
    pub open spec fn target(self, index: int, glyph: GlyphRaster, i: int) -> int {
        self.target_x(index, glyph, i) + self.target_y(index, glyph, i) * self.width()
    }
}

/// The buffer after the first `k` pixels of `glyph` were written for cell
/// `index`: each goes to its place where the buffer has that place, and is
/// left out where it has not.
pub open spec fn blit(buffer: Seq<u8>, frame: Frame, index: int, glyph: GlyphRaster, k: nat) -> Seq<
    u8,
>
    decreases k,
{
    if k == 0 {
        buffer
    } else {
        let before = blit(buffer, frame, index, glyph, (k - 1) as nat);
        let at = frame.target(index, glyph, k - 1);
        if 0 <= at < before.len() {
            before.update(at, glyph.pixels[k - 1])
        } else {
            before
        }
    }
}

/// The buffer after the first `m` glyphs were written, each to the cell of
/// its position.
pub open spec fn composite_upto(buffer: Seq<u8>, frame: Frame, glyphs: Seq<GlyphRaster>, m: nat) -> Seq<
    u8,
>
    decreases m,
{
    if m == 0 {
        buffer
    } else {
        let before = composite_upto(buffer, frame, glyphs, (m - 1) as nat);
        blit(before, frame, m - 1, glyphs[m - 1], glyphs[m - 1].pixels.len())
    }
}

/// A buffer of `len` zeros.
pub open spec fn blank(len: nat) -> Seq<u8> {
    Seq::new(len, |i: int| 0u8)
}

/// The pixels of the atlas: a blank buffer into which the glyphs that get a
/// cell were written in order.
pub open spec fn atlas_pixels(frame: Frame, glyphs: Seq<GlyphRaster>) -> Seq<u8> {
    composite_upto(blank(frame.area()), frame, glyphs, frame.placed(glyphs.len()))
}

/// The geometry of an atlas.
#[derive(Clone, Copy, Debug)]
pub struct AtlasFrame {
    /// Width of a cell without its padding.
    pub cell_width: usize,
    /// Height of a cell without its padding.
    pub cell_height: usize,
    /// Distance from a cell's upper edge to the common baseline.
    pub ascent: i128,
    pub padding: Padding,
    /// Cells across.
    pub grid_cols: usize,
    /// Cells down.
    pub grid_rows: usize,
    pub direction: RenderDirection,
}

impl View for AtlasFrame {
    type V = Frame;

    open spec fn view(&self) -> Frame {
        Frame {
            cell_width: self.cell_width as nat,
            cell_height: self.cell_height as nat,
            ascent: self.ascent as int,
            left: self.padding.left as nat,
            right: self.padding.right as nat,
            up: self.padding.up as nat,
            down: self.padding.down as nat,
            cols: self.grid_cols as nat,
            rows: self.grid_rows as nat,
            direction: self.direction,
        }
    }
}

impl AtlasFrame {
    /// Whether every size of the frame fits the machine word, which is what
    /// `composite` asks of a frame.
    pub fn fits_word(&self) -> (fit: bool)
        ensures
            fit == self@.fits(),
    {
        if self.ascent < -0x1_0000_0000_0000_0000 || self.ascent > 0x1_0000_0000_0000_0000 {
            return false;
        }
        let padded_width = match self.cell_width.checked_add(self.padding.left) {
            None => { return false; },
            Some(sum) => match sum.checked_add(self.padding.right) {
                None => { return false; },
                Some(sum) => sum,
            },
        };
        let padded_height = match self.cell_height.checked_add(self.padding.up) {
            None => { return false; },
            Some(sum) => match sum.checked_add(self.padding.down) {
                None => { return false; },
                Some(sum) => sum,
            },
        };
        let width = match self.grid_cols.checked_mul(padded_width) {
            None => { return false; },
            Some(width) => width,
        };
        let height = match self.grid_rows.checked_mul(padded_height) {
            None => { return false; },
            Some(height) => height,
        };
        width.checked_mul(height).is_some()
    }
}

/// Writing pixels leaves the buffer's length as it was.
pub proof fn lemma_blit_len(buffer: Seq<u8>, frame: Frame, index: int, glyph: GlyphRaster, k: nat)
    ensures
        blit(buffer, frame, index, glyph, k).len() == buffer.len(),
    decreases k,
{
    if k > 0 {
        lemma_blit_len(buffer, frame, index, glyph, (k - 1) as nat);
    }
}

/// Writing glyphs leaves the buffer's length as it was.
pub proof fn lemma_composite_len(buffer: Seq<u8>, frame: Frame, glyphs: Seq<GlyphRaster>, m: nat)
    ensures
        composite_upto(buffer, frame, glyphs, m).len() == buffer.len(),
    decreases m,
{
    if m > 0 {
        lemma_composite_len(buffer, frame, glyphs, (m - 1) as nat);
        lemma_blit_len(
            composite_upto(buffer, frame, glyphs, (m - 1) as nat),
            frame,
            m - 1,
            glyphs[m - 1],
            glyphs[m - 1].pixels.len(),
        );
    }
}

/// What was written after the first `m` glyphs depends on those glyphs only.
pub proof fn lemma_composite_reads_prefix(
    buffer: Seq<u8>,
    frame: Frame,
    a: Seq<GlyphRaster>,
    b: Seq<GlyphRaster>,
    m: nat,
)
    requires
        m <= a.len(),
        m <= b.len(),
        a.take(m as int) == b.take(m as int),
    ensures
        composite_upto(buffer, frame, a, m) == composite_upto(buffer, frame, b, m),
    decreases m,
{
    if m > 0 {
        assert(a.take(m - 1) =~= a.take(m as int).take(m - 1));
        assert(b.take(m - 1) =~= b.take(m as int).take(m - 1));
        lemma_composite_reads_prefix(buffer, frame, a, b, (m - 1) as nat);
        assert(a[m - 1] == a.take(m as int)[m - 1]);
        assert(b[m - 1] == b.take(m as int)[m - 1]);
    }
}

/// The glyphs beyond the grid's capacity are left out: the atlas is that of
/// the glyphs that get a cell.
pub proof fn lemma_excess_is_dropped(frame: Frame, glyphs: Seq<GlyphRaster>)
    requires
        glyphs.len() >= frame.capacity(),
    ensures
        frame.placed(glyphs.len()) == frame.capacity(),
        atlas_pixels(frame, glyphs) == atlas_pixels(frame, glyphs.take(frame.capacity() as int)),
{
    let m = frame.capacity();
    let kept = glyphs.take(m as int);
    assert(kept.take(m as int) =~= glyphs.take(m as int));
    lemma_composite_reads_prefix(blank(frame.area()), frame, glyphs, kept, m);
}

/// The atlas holds one value for each pixel of its width and height,
/// whatever the glyphs' sizes and bearings.
pub proof fn lemma_atlas_len(frame: Frame, glyphs: Seq<GlyphRaster>)
    ensures
        atlas_pixels(frame, glyphs).len() == frame.width() * frame.height(),
{
    lemma_composite_len(blank(frame.area()), frame, glyphs, frame.placed(glyphs.len()));
}

impl Frame {
    /// The glyph lies inside a cell: it is no wider than the cell, and the
    /// common baseline puts it between the cell's upper and lower edge.
    pub open spec fn holds(self, glyph: GlyphRaster) -> bool {
        &&& glyph.width <= self.cell_width
        &&& 0 <= self.offset_y(glyph)
        &&& glyph.height + self.offset_y(glyph) <= self.cell_height
    }

    /// The left edge of the cell of raster `index`, past its padding.
    pub open spec fn cell_left(self, index: int) -> int {
        self.cell_col(index) * self.padded_width() + self.left
    }

    /// The upper edge of the cell of raster `index`, past its padding.
    pub open spec fn cell_top(self, index: int) -> int {
        self.cell_row(index) * self.padded_height() + self.up
    }

    /// Each of the glyphs that get a cell is well formed and lies inside it.
    pub open spec fn holds_all(self, glyphs: Seq<GlyphRaster>) -> bool {
        forall|index: int|
            0 <= index < self.placed(glyphs.len()) ==> (#[trigger] glyphs[index]).wf() && self.holds(
                glyphs[index],
            )
    }
}

/// A column and a row make one place in the buffer only.
proof fn lemma_place_is_one(width: int, x1: int, y1: int, x2: int, y2: int)
    requires
        0 <= x1 < width,
        0 <= x2 < width,
        x1 + y1 * width == x2 + y2 * width,
    ensures
        x1 == x2,
        y1 == y2,
{
    if y1 < y2 {
        assert((y2 - y1) * width >= width) by (nonlinear_arith)
            requires
                y2 - y1 >= 1,
                width > 0,
        ;
        assert(y2 * width - y1 * width == (y2 - y1) * width) by (nonlinear_arith);
    }
    if y2 < y1 {
        assert((y1 - y2) * width >= width) by (nonlinear_arith)
            requires
                y1 - y2 >= 1,
                width > 0,
        ;
        assert(y1 * width - y2 * width == (y1 - y2) * width) by (nonlinear_arith);
    }
}

/// The cell of a raster that gets one lies in the grid, and no other raster
/// gets the same.
proof fn lemma_cell_of_index(frame: Frame, index: int)
    requires
        0 <= index < frame.capacity(),
    ensures
        0 <= frame.cell_col(index) < frame.cols,
        0 <= frame.cell_row(index) < frame.rows,
        match frame.direction {
            RenderDirection::LeftToRight => index == frame.cell_row(index) * frame.cols
                + frame.cell_col(index),
            RenderDirection::TopToBottom => index == frame.cell_col(index) * frame.rows
                + frame.cell_row(index),
        },
{
    let cols = frame.cols as int;
    let rows = frame.rows as int;
    assert(cols >= 1 && rows >= 1) by (nonlinear_arith)
        requires
            0 <= index < cols * rows,
            cols >= 0,
            rows >= 0,
    ;
    match frame.direction {
        RenderDirection::LeftToRight => {
            assert(0 <= index / cols < rows && index == (index / cols) * cols + index % cols
                && 0 <= index % cols < cols) by (nonlinear_arith)
                requires
                    0 <= index < cols * rows,
                    cols >= 1,
            ;
        },
        RenderDirection::TopToBottom => {
            assert(0 <= index / rows < cols && index == (index / rows) * rows + index % rows
                && 0 <= index % rows < rows) by (nonlinear_arith)
                requires
                    0 <= index < cols * rows,
                    rows >= 1,
            ;
        },
    }
}

/// A pixel of a glyph that lies inside its cell goes to the cell: to the
/// column of the cell's left edge plus what centres the glyph plus the
/// pixel's own column, and to the row of the cell's upper edge plus what
/// puts the glyph on the baseline plus the pixel's own row; that place is
/// inside the cell and inside the buffer.
pub proof fn lemma_target_in_cell(frame: Frame, index: int, glyph: GlyphRaster, i: int)
    requires
        0 <= index < frame.capacity(),
        glyph.wf(),
        frame.holds(glyph),
        0 <= i < glyph.pixels.len(),
    ensures
        frame.target_x(index, glyph, i) == frame.cell_left(index) + frame.offset_x(glyph) + i % (
        glyph.width as int),
        frame.target_y(index, glyph, i) == frame.cell_top(index) + frame.offset_y(glyph) + i / (
        glyph.width as int),
        frame.cell_left(index) <= frame.target_x(index, glyph, i) < frame.cell_left(index)
            + frame.cell_width,
        frame.cell_top(index) <= frame.target_y(index, glyph, i) < frame.cell_top(index)
            + frame.cell_height,
        0 <= frame.target_x(index, glyph, i) < frame.width(),
        0 <= frame.target_y(index, glyph, i) < frame.height(),
        0 <= frame.target(index, glyph, i) < frame.area(),
{
    lemma_cell_of_index(frame, index);
    let w = glyph.width as int;
    let h = glyph.height as int;
    let col = frame.cell_col(index);
    let row = frame.cell_row(index);
    let pw = frame.padded_width() as int;
    let ph = frame.padded_height() as int;
    assert(w >= 1 && 0 <= i % w < w && 0 <= i / w < h) by (nonlinear_arith)
        requires
            0 <= i < w * h,
            w >= 0,
            h >= 0,
    ;
    assert(0 <= col * pw && col * pw + pw <= frame.cols * pw) by (nonlinear_arith)
        requires
            0 <= col < frame.cols,
            pw >= 0,
    ;
    assert(0 <= row * ph && row * ph + ph <= frame.rows * ph) by (nonlinear_arith)
        requires
            0 <= row < frame.rows,
            ph >= 0,
    ;
    let x = frame.target_x(index, glyph, i);
    let y = frame.target_y(index, glyph, i);
    assert(0 <= x < frame.width());
    assert(0 <= y < frame.height());
    assert(0 <= x + y * frame.width() < frame.width() * frame.height()) by (nonlinear_arith)
        requires
            0 <= x < frame.width(),
            0 <= y < frame.height(),
    ;
}

/// Two pixels of glyphs that lie inside their cells go to different places,
/// be they two pixels of one glyph or pixels of glyphs in different cells.
pub proof fn lemma_targets_differ(
    frame: Frame,
    a: int,
    first: GlyphRaster,
    i: int,
    b: int,
    second: GlyphRaster,
    j: int,
)
    requires
        0 <= a < frame.capacity(),
        0 <= b < frame.capacity(),
        first.wf(),
        second.wf(),
        frame.holds(first),
        frame.holds(second),
        0 <= i < first.pixels.len(),
        0 <= j < second.pixels.len(),
        a == b ==> first == second && i != j,
    ensures
        frame.target(a, first, i) != frame.target(b, second, j),
{
    lemma_target_in_cell(frame, a, first, i);
    lemma_target_in_cell(frame, b, second, j);
    lemma_cell_of_index(frame, a);
    lemma_cell_of_index(frame, b);
    if frame.target(a, first, i) == frame.target(b, second, j) {
        lemma_place_is_one(
            frame.width() as int,
            frame.target_x(a, first, i),
            frame.target_y(a, first, i),
            frame.target_x(b, second, j),
            frame.target_y(b, second, j),
        );
        let pw = frame.padded_width() as int;
        let ph = frame.padded_height() as int;
        let ca = frame.cell_col(a);
        let cb = frame.cell_col(b);
        let ra = frame.cell_row(a);
        let rb = frame.cell_row(b);
        if ca != cb {
            assert(ca * pw + pw <= cb * pw || cb * pw + pw <= ca * pw) by (nonlinear_arith)
                requires
                    ca != cb,
                    pw >= 0,
            ;
        }
        if ra != rb {
            assert(ra * ph + ph <= rb * ph || rb * ph + ph <= ra * ph) by (nonlinear_arith)
                requires
                    ra != rb,
                    ph >= 0,
            ;
        }
        assert(ca == cb && ra == rb);
        assert(a == b);
        let w = first.width as int;
        assert(i == (i / w) * w + i % w && j == (j / w) * w + j % w) by (nonlinear_arith)
            requires
                w >= 1,
        ;
    }
}

/// A place to which none of the first `k` pixels goes is as it was.
proof fn lemma_blit_keeps(buffer: Seq<u8>, frame: Frame, index: int, glyph: GlyphRaster, k: nat, p: int)
    requires
        0 <= p < buffer.len(),
        forall|i: int| 0 <= i < k ==> #[trigger] frame.target(index, glyph, i) != p,
    ensures
        blit(buffer, frame, index, glyph, k).len() == buffer.len(),
        blit(buffer, frame, index, glyph, k)[p] == buffer[p],
    decreases k,
{
    lemma_blit_len(buffer, frame, index, glyph, k);
    if k > 0 {
        lemma_blit_len(buffer, frame, index, glyph, (k - 1) as nat);
        lemma_blit_keeps(buffer, frame, index, glyph, (k - 1) as nat, p);
        assert(frame.target(index, glyph, k - 1) != p);
    }
}

/// The place of pixel `i` holds that pixel after the first `k` were
/// written, where no later one of them goes to the same place.
proof fn lemma_blit_shows(buffer: Seq<u8>, frame: Frame, index: int, glyph: GlyphRaster, k: nat, i: int)
    requires
        0 <= i < k,
        0 <= frame.target(index, glyph, i) < buffer.len(),
        forall|j: int|
            i < j < k ==> #[trigger] frame.target(index, glyph, j) != frame.target(index, glyph, i),
    ensures
        blit(buffer, frame, index, glyph, k)[frame.target(index, glyph, i)] == glyph.pixels[i],
    decreases k,
{
    lemma_blit_len(buffer, frame, index, glyph, (k - 1) as nat);
    if i < k - 1 {
        lemma_blit_shows(buffer, frame, index, glyph, (k - 1) as nat, i);
        assert(frame.target(index, glyph, k - 1) != frame.target(index, glyph, i));
    }
}

/// A place to which no pixel of the first `m` glyphs goes is as it was.
proof fn lemma_composite_keeps(buffer: Seq<u8>, frame: Frame, glyphs: Seq<GlyphRaster>, m: nat, p: int)
    requires
        0 <= p < buffer.len(),
        m <= glyphs.len(),
        forall|index: int, i: int|
            0 <= index < m && 0 <= i < glyphs[index].pixels.len() ==> #[trigger] frame.target(
                index,
                glyphs[index],
                i,
            ) != p,
    ensures
        composite_upto(buffer, frame, glyphs, m).len() == buffer.len(),
        composite_upto(buffer, frame, glyphs, m)[p] == buffer[p],
    decreases m,
{
    lemma_composite_len(buffer, frame, glyphs, m);
    if m > 0 {
        let before = composite_upto(buffer, frame, glyphs, (m - 1) as nat);
        lemma_composite_keeps(buffer, frame, glyphs, (m - 1) as nat, p);
        let glyph = glyphs[m - 1];
        assert forall|i: int| 0 <= i < glyph.pixels.len() implies #[trigger] frame.target(
            m - 1,
            glyph,
            i,
        ) != p by {
            assert(frame.target(m - 1, glyphs[m - 1], i) != p);
        }
        lemma_blit_keeps(before, frame, m - 1, glyph, glyph.pixels.len(), p);
    }
}

/// Where every glyph that gets a cell lies inside it, the atlas shows each
/// of their pixels at its place: in the glyph's cell, centred from left to
/// right and on the common baseline.
pub proof fn lemma_atlas_shows_glyph(frame: Frame, glyphs: Seq<GlyphRaster>, index: int, i: int)
    requires
        frame.holds_all(glyphs),
        0 <= index < frame.placed(glyphs.len()),
        0 <= i < glyphs[index].pixels.len(),
    ensures
        0 <= frame.target(index, glyphs[index], i) < atlas_pixels(frame, glyphs).len(),
        atlas_pixels(frame, glyphs)[frame.target(index, glyphs[index], i)]
            == glyphs[index].pixels[i],
        frame.target(index, glyphs[index], i) == (frame.cell_left(index) + frame.offset_x(
            glyphs[index],
        ) + i % (glyphs[index].width as int)) + (frame.cell_top(index) + frame.offset_y(
            glyphs[index],
        ) + i / (glyphs[index].width as int)) * frame.width(),
{
    lemma_atlas_len(frame, glyphs);
    lemma_target_in_cell(frame, index, glyphs[index], i);
    lemma_shown_after(frame, glyphs, frame.placed(glyphs.len()), index, i);
}

/// The pixel is at its place after the first `m` glyphs were written, the
/// pixel's own glyph among them.
proof fn lemma_shown_after(frame: Frame, glyphs: Seq<GlyphRaster>, m: nat, index: int, i: int)
    requires
        frame.holds_all(glyphs),
        0 <= index < m <= frame.placed(glyphs.len()),
        0 <= i < glyphs[index].pixels.len(),
    ensures
        composite_upto(blank(frame.area()), frame, glyphs, m)[frame.target(
            index,
            glyphs[index],
            i,
        )] == glyphs[index].pixels[i],
    decreases m,
{
    let start = blank(frame.area());
    let before = composite_upto(start, frame, glyphs, (m - 1) as nat);
    let last = glyphs[m - 1];
    let place = frame.target(index, glyphs[index], i);
    lemma_composite_len(start, frame, glyphs, (m - 1) as nat);
    lemma_target_in_cell(frame, index, glyphs[index], i);
    if index == m - 1 {
        assert forall|j: int| i < j < last.pixels.len() implies #[trigger] frame.target(
            index,
            last,
            j,
        ) != place by {
            lemma_targets_differ(frame, index, last, j, index, last, i);
        }
        lemma_blit_shows(before, frame, index, last, last.pixels.len(), i);
    } else {
        lemma_shown_after(frame, glyphs, (m - 1) as nat, index, i);
        assert forall|j: int| 0 <= j < last.pixels.len() implies #[trigger] frame.target(
            m - 1,
            last,
            j,
        ) != place by {
            lemma_targets_differ(frame, m - 1, last, j, index, glyphs[index], i);
        }
        lemma_blit_keeps(before, frame, m - 1, last, last.pixels.len(), place);
    }
}

/// A place of the atlas to which no pixel of a glyph goes is blank.
pub proof fn lemma_atlas_blank_elsewhere(frame: Frame, glyphs: Seq<GlyphRaster>, p: int)
    requires
        0 <= p < frame.area(),
        forall|index: int, i: int|
            0 <= index < frame.placed(glyphs.len()) && 0 <= i < glyphs[index].pixels.len()
                ==> #[trigger] frame.target(index, glyphs[index], i) != p,
    ensures
        atlas_pixels(frame, glyphs)[p] == 0,
{
    lemma_composite_keeps(blank(frame.area()), frame, glyphs, frame.placed(glyphs.len()), p);
}

/// Half of `a - b`, rounded down.
fn half_difference(a: usize, b: usize) -> (half: i128)
    ensures
        half == (a - b) / 2,
        -ascent_limit() <= half <= ascent_limit(),
{
    if a >= b {
        ((a - b) / 2) as i128
    } else {
        let over: u128 = (b - a) as u128 + 1;
        -((over / 2) as i128)
    }
}

/// A buffer of `len` zeros.
pub(crate) fn blank_buffer(len: usize) -> (buffer: Vec<u8>)
    ensures
        buffer@ == blank(len as nat),
{
    let buffer = vec![0u8; len];
    assert(buffer@ =~= blank(len as nat));
    buffer
}

/// Writes one glyph into the cell of position `index`.
fn blit_raster(buffer: &mut Vec<u8>, frame: &AtlasFrame, index: usize, raster: &CharRaster)
    requires
        frame@.fits(),
        index < frame@.capacity(),
        old(buffer)@.len() == frame@.area(),
    ensures
        final(buffer)@ == blit(old(buffer)@, frame@, index as int, raster@, raster@.pixels.len()),
        final(buffer)@.len() == old(buffer)@.len(),
{
    let ghost start = buffer@;
    let ghost glyph = raster@;
    let source = raster.pixels();
    let count = source.len();
    if count == 0 {
        return ;
    }
    let glyph_width = raster.get_width();
    let glyph_height = raster.get_height();
    let ymin = raster.get_metrics().ymin;
    assert(glyph_width >= 1) by (nonlinear_arith)
        requires
            count == glyph_width * glyph_height,
            count > 0,
    ;
    let padded_width = frame.cell_width + frame.padding.left + frame.padding.right;
    let padded_height = frame.cell_height + frame.padding.up + frame.padding.down;
    let atlas_width = frame.grid_cols * padded_width;
    let atlas_height = frame.grid_rows * padded_height;
    let cols = frame.grid_cols;
    let rows = frame.grid_rows;
    assert(cols >= 1 && rows >= 1) by (nonlinear_arith)
        requires
            index < cols * rows,
            cols >= 0,
            rows >= 0,
    ;
    let (cell_col, cell_row) = match frame.direction {
        RenderDirection::LeftToRight => {
            assert(index / cols < rows) by (nonlinear_arith)
                requires
                    index < cols * rows,
                    cols >= 1,
            ;
            (index % cols, index / cols)
        },
        RenderDirection::TopToBottom => {
            assert(index / rows < cols) by (nonlinear_arith)
                requires
                    index < cols * rows,
                    rows >= 1,
            ;
            (index / rows, index % rows)
        },
    };
    assert(cell_col as int == frame@.cell_col(index as int));
    assert(cell_row as int == frame@.cell_row(index as int));
    assert(cell_col * padded_width <= atlas_width) by (nonlinear_arith)
        requires
            cell_col < cols,
            atlas_width == cols * padded_width,
    ;
    assert(cell_row * padded_height <= atlas_height) by (nonlinear_arith)
        requires
            cell_row < rows,
            atlas_height == rows * padded_height,
    ;
    let base_x: i128 = (cell_col * padded_width) as i128;
    let base_y: i128 = (cell_row * padded_height) as i128;
    let offset_x: i128 = half_difference(frame.cell_width, glyph_width);
    let offset_y: i128 = frame.ascent - (glyph_height as i128 + ymin as i128);
    let area: usize = buffer.len();
    let mut i: usize = 0;
    while i < count
        invariant
            i <= count,
            count == glyph.pixels.len(),
            source@ == glyph.pixels,
            glyph == raster@,
            glyph_width == glyph.width,
            glyph_width >= 1,
            frame@.fits(),
            atlas_width == frame@.width(),
            atlas_height == frame@.height(),
            area == frame@.area(),
            base_x == frame@.cell_col(index as int) * frame@.padded_width(),
            base_y == frame@.cell_row(index as int) * frame@.padded_height(),
            0 <= base_x <= usize::MAX,
            0 <= base_y <= usize::MAX,
            offset_x == frame@.offset_x(glyph),
            offset_y == frame@.offset_y(glyph),
            -ascent_limit() <= offset_x <= ascent_limit(),
            -3 * ascent_limit() <= offset_y <= 3 * ascent_limit(),
            buffer@.len() == area,
            buffer@ == blit(start, frame@, index as int, glyph, i as nat),
        decreases count - i,
    {
        let glyph_x: usize = i % glyph_width;
        let glyph_y: usize = i / glyph_width;
        let inside_x: i128 = base_x + glyph_x as i128 + offset_x;
        let inside_y: i128 = base_y + glyph_y as i128 + offset_y;
        let x: i128 = (if inside_x < 0 {
            0
        } else {
            inside_x
        }) + frame.padding.left as i128;
        let y: i128 = (if inside_y < 0 {
            0
        } else {
            inside_y
        }) + frame.padding.up as i128;
        assert(x == frame@.target_x(index as int, glyph, i as int));
        assert(y == frame@.target_y(index as int, glyph, i as int));
        let ghost at = frame@.target(index as int, glyph, i as int);
        if y < atlas_height as i128 {
            assert(0 <= y * atlas_width <= area) by (nonlinear_arith)
                requires
                    0 <= y < atlas_height,
                    atlas_width >= 0,
                    area == atlas_width * atlas_height,
            ;
            let place: i128 = x + y * (atlas_width as i128);
            assert(place == at);
            if place < area as i128 {
                buffer[place as usize] = source[i];
            }
        } else {
            assert(at >= area) by (nonlinear_arith)
                requires
                    at == x + y * atlas_width,
                    x >= 0,
                    y >= atlas_height,
                    atlas_width >= 0,
                    area == atlas_width * atlas_height,
            ;
        }
        i = i + 1;
    }
}

/// The pixels of the atlas that `frame` lays out for the rasters: a blank
/// buffer into which each raster that gets a cell was written, in order.
/// Rasters beyond the grid's capacity are left out.
pub fn composite(rasterizations: &Vec<CharRaster>, frame: &AtlasFrame) -> (pixels: Vec<u8>)
    requires
        frame@.fits(),
    ensures
        pixels@ == atlas_pixels(frame@, raster_views(rasterizations@)),
        pixels@.len() == frame@.area(),
{
    let ghost glyphs = raster_views(rasterizations@);
    let padded_width = frame.cell_width + frame.padding.left + frame.padding.right;
    let padded_height = frame.cell_height + frame.padding.up + frame.padding.down;
    let atlas_width = frame.grid_cols * padded_width;
    let atlas_height = frame.grid_rows * padded_height;
    let mut pixels = blank_buffer(atlas_width * atlas_height);
    let placed = placed_count(rasterizations.len(), frame.grid_cols, frame.grid_rows);
    let mut index: usize = 0;
    while index < placed
        invariant
            index <= placed,
            placed == frame@.placed(glyphs.len()),
            glyphs == raster_views(rasterizations@),
            frame@.fits(),
            pixels@.len() == frame@.area(),
            pixels@ == composite_upto(blank(frame@.area()), frame@, glyphs, index as nat),
        decreases placed - index,
    {
        blit_raster(&mut pixels, frame, index, &rasterizations[index]);
        index = index + 1;
    }
    pixels
}

/// How many of `count` rasters get a cell in a grid of `cols` by `rows`.
pub fn placed_count(count: usize, cols: usize, rows: usize) -> (placed: usize)
    ensures
        placed == if count <= cols * rows {
            count as int
        } else {
            cols * rows
        },
{
    match cols.checked_mul(rows) {
        Some(capacity) => if count <= capacity {
            count
        } else {
            capacity
        },
        None => count,
    }
}

} // verus!
