//! Grid shapes: how many cells an atlas has across and down.

use vstd::prelude::*;
use crate::text::{decimal, decimal_digits, join};

verus! {

/// The shape of the cell grid.
#[derive(PartialEq, Eq, Structural, Clone, Copy, Debug)]
pub enum RenderLayout {
    /// As close to a square picture as the cell size allows.
    Squarish,
    /// One row.
    Horizontal,
    /// One column.
    Vertical,
    /// The column count that wastes the fewest cells; `true` swaps columns and rows.
    Packed(bool),
    /// A grid given by the caller as (columns, rows).
    Custom(usize, usize),
}

impl RenderLayout {
    /// The layout's name; a custom grid with its columns and rows.
    pub open spec fn label_text(self) -> Seq<char> {
        match self {
            RenderLayout::Squarish => "Squarish"@,
            RenderLayout::Horizontal => "Horizontal"@,
            RenderLayout::Vertical => "Vertical"@,
            RenderLayout::Packed(flip) => if flip {
                "Packed (flipped)"@
            } else {
                "Packed"@
            },
            RenderLayout::Custom(cols, rows) => "Custom ("@ + decimal_digits(cols as nat) + " "@
                + decimal_digits(rows as nat) + ")"@,
        }
    }

    /// The layout's name; a custom grid with its columns and rows.
    pub fn label(&self) -> (text: String)
        ensures
            text@ == self.label_text(),
    {
        match self {
            RenderLayout::Squarish => "Squarish".to_owned(),
            RenderLayout::Horizontal => "Horizontal".to_owned(),
            RenderLayout::Vertical => "Vertical".to_owned(),
            RenderLayout::Packed(flip) => if *flip {
                "Packed (flipped)".to_owned()
            } else {
                "Packed".to_owned()
            },
            RenderLayout::Custom(cols, rows) => {
                let across = decimal(*cols);
                let down = decimal(*rows);
                let front = join("Custom (", across.as_str(), " ");
                join(front.as_str(), down.as_str(), ")")
            },
        }
    }

    /// The layouts to choose from when this one is chosen: squarish,
    /// horizontal, vertical, packed and custom. Packed keeps its flip and
    /// custom its grid where this layout is one of them; else packed is
    /// not flipped and custom is 10 by 10.
    pub open spec fn choices_of(self) -> Seq<RenderLayout> {
        seq![
            RenderLayout::Squarish,
            RenderLayout::Horizontal,
            RenderLayout::Vertical,
            match self {
                RenderLayout::Packed(flip) => RenderLayout::Packed(flip),
                _ => RenderLayout::Packed(false),
            },
            match self {
                RenderLayout::Custom(cols, rows) => RenderLayout::Custom(cols, rows),
                _ => RenderLayout::Custom(10, 10),
            },
        ]
    }

    /// The layouts to choose from when this one is chosen.
    pub fn choices(self) -> (layouts: Vec<RenderLayout>)
        ensures
            layouts@ == self.choices_of(),
    {
        let packed = match self {
            RenderLayout::Packed(flip) => RenderLayout::Packed(flip),
            _ => RenderLayout::Packed(false),
        };
        let custom = match self {
            RenderLayout::Custom(cols, rows) => RenderLayout::Custom(cols, rows),
            _ => RenderLayout::Custom(10, 10),
        };
        let mut layouts: Vec<RenderLayout> = Vec::new();
        layouts.push(RenderLayout::Squarish);
        layouts.push(RenderLayout::Horizontal);
        layouts.push(RenderLayout::Vertical);
        layouts.push(packed);
        layouts.push(custom);
        assert(layouts@ =~= self.choices_of());
        layouts
    }
}

/// `s` is the least natural number whose square reaches `t`.
pub open spec fn is_ceil_sqrt(t: nat, s: nat) -> bool {
    &&& s * s >= t
    &&& s == 0 || (s - 1) * (s - 1) < t
}

/// The square root of `t`, rounded up.
pub open spec fn ceil_sqrt(t: nat) -> nat {
    choose|s: nat| is_ceil_sqrt(t, s)
}

/// `a / b` rounded to the nearest integer, halves rounded up; 0 where `b` is 0.
pub open spec fn round_div(a: nat, b: nat) -> nat {
    if b == 0 {
        0
    } else {
        (2 * a + b) / (2 * b)
    }
}

/// `a / b` rounded up; 0 where `b` is 0.
pub open spec fn ceil_div(a: nat, b: nat) -> nat {
    if b == 0 {
        0
    } else if a % b == 0 {
        a / b
    } else {
        a / b + 1
    }
}

/// The column count that brings `count` cells of the given size closest to a
/// square picture: the side of a square of the same area, in cell widths,
/// rounded, and at least 1.
pub open spec fn squarish_cols(count: nat, cell_width: nat, cell_height: nat) -> nat {
    let side = ceil_sqrt(cell_width * cell_height * count);
    let cols = round_div(side, cell_width);
    if cols == 0 {
        1
    } else {
        cols
    }
}

/// The cells left empty in the last row when `count` cells stand in rows of `d`.
pub open spec fn waste(count: nat, d: nat) -> nat {
    if d == 0 {
        0
    } else {
        ((d - count % d) % (d as int)) as nat
    }
}

/// The distance between two column counts.
pub open spec fn gap(a: nat, b: nat) -> nat {
    if a <= b {
        (b - a) as nat
    } else {
        (a - b) as nat
    }
}

/// Column count `d` is at least as good as `e`: it wastes fewer cells, or as
/// many and lies closer to `target`, or as close and is not smaller.
pub open spec fn preferred(count: nat, target: nat, d: nat, e: nat) -> bool {
    ||| waste(count, d) < waste(count, e)
    ||| waste(count, d) == waste(count, e) && gap(target, d) < gap(target, e)
    ||| waste(count, d) == waste(count, e) && gap(target, d) == gap(target, e) && d >= e
}

/// Column count `d` is a candidate, between 2 and half of `count`.
pub open spec fn is_candidate(count: nat, d: nat) -> bool {
    2 <= d <= count / 2
}

/// `d` is the candidate that is at least as good as every candidate.
pub open spec fn is_packed_choice(count: nat, target: nat, d: nat) -> bool {
    &&& is_candidate(count, d)
    &&& forall|e: nat| is_candidate(count, e) ==> preferred(count, target, d, e)
}

/// The packed column count: the best candidate, or `count` itself where
/// there is no candidate (`count` below 4).
pub open spec fn packed_cols(count: nat, target: nat) -> nat {
    if count < 4 {
        count
    } else {
        choose|d: nat| is_packed_choice(count, target, d)
    }
}

/// A pair with its two parts exchanged where `flip` is set.
pub open spec fn flipped(flip: bool, pair: (nat, nat)) -> (nat, nat) {
    if flip {
        (pair.1, pair.0)
    } else {
        pair
    }
}

impl RenderLayout {
    /// The grid, as (columns, rows), for `count` cells of the given size.
    pub open spec fn cell_counts(self, count: nat, cell_width: nat, cell_height: nat) -> (
        nat,
        nat,
    ) {
        match self {
            RenderLayout::Squarish => {
                let cols = squarish_cols(count, cell_width, cell_height);
                (cols, ceil_div(count, cols))
            },
            RenderLayout::Horizontal => (count, 1),
            RenderLayout::Vertical => (1, count),
            RenderLayout::Packed(flip) => {
                let cols = packed_cols(count, squarish_cols(count, cell_width, cell_height));
                flipped(flip, (cols, ceil_div(count, cols)))
            },
            RenderLayout::Custom(cols, rows) => (cols as nat, rows as nat),
        }
    }

    /// Whether the layout measures the picture's area to decide.
    pub open spec fn measures_area(self) -> bool {
        self is Squarish || self is Packed
    }
}

/// Only one number is the rounded-up square root of `t`.
pub proof fn lemma_ceil_sqrt_unique(t: nat, s: nat)
    requires
        is_ceil_sqrt(t, s),
    ensures
        ceil_sqrt(t) == s,
{
    let r = ceil_sqrt(t);
    assert(is_ceil_sqrt(t, r));
    if r < s {
        assert(r * r <= (s - 1) * (s - 1)) by (nonlinear_arith)
            requires
                0 <= r <= s - 1,
        ;
    }
    if s < r {
        assert(s * s <= (r - 1) * (r - 1)) by (nonlinear_arith)
            requires
                0 <= s <= r - 1,
        ;
    }
}

/// Every number has a rounded-up square root.
pub proof fn lemma_ceil_sqrt_exists(t: nat)
    ensures
        is_ceil_sqrt(t, ceil_sqrt(t)),
    decreases t,
{
    if t == 0 {
        assert(is_ceil_sqrt(0, 0));
    } else {
        lemma_ceil_sqrt_exists((t - 1) as nat);
        let s = ceil_sqrt((t - 1) as nat);
        if s * s >= t {
            assert(is_ceil_sqrt(t, s));
        } else {
            assert((s + 1) * (s + 1) >= t) by (nonlinear_arith)
                requires
                    s * s >= t - 1,
                    s >= 0,
            ;
            assert(is_ceil_sqrt(t, s + 1));
        }
    }
}

/// Only one candidate is the packed choice.
pub proof fn lemma_packed_choice_unique(count: nat, target: nat, d: nat)
    requires
        is_packed_choice(count, target, d),
    ensures
        count >= 4,
        packed_cols(count, target) == d,
{
    let c = choose|c: nat| is_packed_choice(count, target, c);
    assert(is_packed_choice(count, target, c));
    assert(preferred(count, target, d, c));
    assert(preferred(count, target, c, d));
}

/// Among the column counts from 2 to `hi` one is at least as good as
/// every other.
proof fn lemma_best_candidate(count: nat, target: nat, hi: nat) -> (best: nat)
    requires
        2 <= hi,
    ensures
        2 <= best <= hi,
        forall|e: nat| 2 <= e <= hi ==> preferred(count, target, best, e),
    decreases hi,
{
    if hi == 2 {
        2
    } else {
        let before = lemma_best_candidate(count, target, (hi - 1) as nat);
        if preferred(count, target, hi, before) {
            assert forall|e: nat| 2 <= e <= hi implies preferred(count, target, hi, e) by {
                if e < hi {
                    assert(preferred(count, target, before, e));
                }
            }
            hi
        } else {
            before
        }
    }
}

/// From 4 cells on, the packed column count is a candidate that is at
/// least as good as every candidate.
pub proof fn lemma_packed_cols_is_choice(count: nat, target: nat)
    requires
        count >= 4,
    ensures
        is_packed_choice(count, target, packed_cols(count, target)),
{
    let best = lemma_best_candidate(count, target, count / 2);
    assert(is_packed_choice(count, target, best));
}

/// The packed column count wastes no more cells than any candidate, and
/// none at all where some candidate divides the number of cells.
pub proof fn lemma_packed_cols_minimize_waste(count: nat, target: nat, d: nat)
    requires
        is_candidate(count, d),
    ensures
        is_candidate(count, packed_cols(count, target)),
        waste(count, packed_cols(count, target)) <= waste(count, d),
        count % d == 0 ==> count % packed_cols(count, target) == 0,
{
    lemma_packed_cols_is_choice(count, target);
    let cols = packed_cols(count, target);
    assert(preferred(count, target, cols, d));
    if count % d == 0 {
        assert(waste(count, d) == 0);
        assert(waste(count, cols) == 0);
        let r = count % cols;
        if r != 0 {
            assert((cols - r) % (cols as int) == cols - r) by (nonlinear_arith)
                requires
                    0 < r < cols,
            ;
        }
    }
}

/// Rows of `cols` cells, as many as `ceil_div` gives, hold `count` cells.
proof fn lemma_rows_hold(count: nat, cols: nat)
    requires
        cols >= 1,
    ensures
        cols * ceil_div(count, cols) >= count,
        ceil_div(count, cols) * cols >= count,
{
    let rows = ceil_div(count, cols);
    assert(cols * rows >= count && rows * cols >= count) by (nonlinear_arith)
        requires
            cols >= 1,
            rows == if count % cols == 0 {
                count / cols
            } else {
                count / cols + 1
            },
    ;
}

/// The grid of every layout but a custom one has a cell for each of the
/// `count` cells asked for.
pub proof fn lemma_grid_has_room(layout: RenderLayout, count: nat, cell_width: nat, cell_height: nat)
    requires
        !(layout is Custom),
    ensures
        layout.cell_counts(count, cell_width, cell_height).0 * layout.cell_counts(
            count,
            cell_width,
            cell_height,
        ).1 >= count,
{
    let counts = layout.cell_counts(count, cell_width, cell_height);
    match layout {
        RenderLayout::Squarish => {
            let cols = squarish_cols(count, cell_width, cell_height);
            lemma_rows_hold(count, cols);
            assert(counts == (cols, ceil_div(count, cols)));
        },
        RenderLayout::Horizontal => {
            assert(counts == (count, 1nat));
        },
        RenderLayout::Vertical => {
            assert(counts == (1nat, count));
        },
        RenderLayout::Packed(flip) => {
            let target = squarish_cols(count, cell_width, cell_height);
            let cols = packed_cols(count, target);
            let rows = ceil_div(count, cols);
            if count >= 4 {
                lemma_packed_cols_is_choice(count, target);
            }
            if cols >= 1 {
                lemma_rows_hold(count, cols);
            }
            assert(cols * rows >= count && rows * cols >= count);
            assert(counts == flipped(flip, (cols, rows)));
        },
        RenderLayout::Custom(_, _) => {},
    }
}

/// Without cells, every layout but a custom one gives a grid without cells.
pub proof fn lemma_no_cells(layout: RenderLayout, cell_width: nat, cell_height: nat)
    requires
        !(layout is Custom),
    ensures
        layout.cell_counts(0, cell_width, cell_height).0 == 0 || layout.cell_counts(
            0,
            cell_width,
            cell_height,
        ).1 == 0,
{
    assert(cell_width * cell_height * 0 == 0) by (nonlinear_arith);
    lemma_ceil_sqrt_unique(0, 0);
    if cell_width > 0 {
        assert((2 * 0 + cell_width) / (2 * cell_width) == 0) by (nonlinear_arith)
            requires
                cell_width > 0,
        ;
    }
    assert(squarish_cols(0, cell_width, cell_height) == 1);
}

/// The square root of `t`, rounded up.
pub fn ceil_sqrt_of(t: usize) -> (s: usize)
    ensures
        is_ceil_sqrt(t as nat, s as nat),
        s as nat == ceil_sqrt(t as nat),
        s <= t,
{
    if t == 0 {
        proof {
            lemma_ceil_sqrt_unique(0, 0);
        }
        return 0;
    }
    let goal: u128 = t as u128;
    let mut lo: u128 = 0;
    let mut hi: u128 = goal;
    assert(hi * hi >= goal) by (nonlinear_arith)
        requires
            hi == goal,
            goal >= 1,
    ;
    while hi - lo > 1
        invariant
            goal == t,
            lo < hi <= goal,
            lo * lo < goal,
            hi * hi >= goal,
        decreases hi - lo,
    {
        let mid: u128 = lo + (hi - lo) / 2;
        assert(mid * mid <= 0xFFFF_FFFF_FFFF_FFFFu128 * 0xFFFF_FFFF_FFFF_FFFFu128)
            by (nonlinear_arith)
            requires
                0 <= mid <= 0xFFFF_FFFF_FFFF_FFFFu128,
        ;
        if mid * mid >= goal {
            hi = mid;
        } else {
            lo = mid;
        }
    }
    proof {
        lemma_ceil_sqrt_unique(t as nat, hi as nat);
    }
    hi as usize
}

/// The area in pixels of `count` cells, where it fits the machine word.
pub fn pixel_total(count: usize, cell_width: usize, cell_height: usize) -> (total: Option<usize>)
    ensures
        total is Some <==> cell_width * cell_height * count <= usize::MAX,
        total is Some ==> total->0 == cell_width * cell_height * count,
{
    if count == 0 || cell_width == 0 || cell_height == 0 {
        assert(cell_width * cell_height * count == 0) by (nonlinear_arith)
            requires
                count == 0 || cell_width == 0 || cell_height == 0,
        ;
        return Some(0);
    }
    assert(cell_width * cell_height * count >= cell_width * cell_height) by (nonlinear_arith)
        requires
            count >= 1,
            cell_width >= 1,
            cell_height >= 1,
    ;
    match cell_width.checked_mul(cell_height) {
        None => None,
        Some(area) => area.checked_mul(count),
    }
}

/// The column count closest to a square picture.
pub fn squarish_cols_of(count: usize, cell_width: usize, cell_height: usize) -> (cols: usize)
    requires
        cell_width * cell_height * count <= usize::MAX,
    ensures
        cols as nat == squarish_cols(count as nat, cell_width as nat, cell_height as nat),
        cols >= 1,
{
    if cell_width == 0 {
        return 1;
    }
    let total = match pixel_total(count, cell_width, cell_height) {
        Some(total) => total,
        None => 0,
    };
    let side = ceil_sqrt_of(total);
    let twice: u128 = 2 * (side as u128) + (cell_width as u128);
    let cols: u128 = twice / (2 * (cell_width as u128));
    assert(cols <= side) by (nonlinear_arith)
        requires
            cols == (2 * side + cell_width) / (2 * cell_width),
            cell_width >= 1,
            side >= 0,
    ;
    if cols == 0 {
        1
    } else {
        cols as usize
    }
}

/// `a / b` rounded up; 0 where `b` is 0.
pub fn ceil_div_of(a: usize, b: usize) -> (q: usize)
    ensures
        q as nat == ceil_div(a as nat, b as nat),
        q <= a,
{
    if b == 0 {
        0
    } else if a % b == 0 {
        assert(a / b <= a) by (nonlinear_arith)
            requires
                b >= 1,
                a >= 0,
        ;
        a / b
    } else {
        assert(a / b < a) by (nonlinear_arith)
            requires
                b >= 1,
                a % b != 0,
                a >= 0,
        ;
        a / b + 1
    }
}

/// The cells left empty in the last row when `count` cells stand in rows of `d`.
fn waste_of(count: usize, d: usize) -> (w: usize)
    requires
        d >= 1,
    ensures
        w as nat == waste(count as nat, d as nat),
        w < d,
{
    (d - count % d) % d
}

/// The distance between two column counts.
fn gap_of(a: usize, b: usize) -> (g: usize)
    ensures
        g as nat == gap(a as nat, b as nat),
{
    if a <= b {
        b - a
    } else {
        a - b
    }
}

/// The packed column count for `count` cells and a target column count.
pub fn packed_cols_of(count: usize, target: usize) -> (cols: usize)
    ensures
        cols as nat == packed_cols(count as nat, target as nat),
        count < 4 ==> cols == count,
        count >= 4 ==> is_packed_choice(count as nat, target as nat, cols as nat),
{
    if count < 4 {
        return count;
    }
    let last: usize = count / 2;
    let mut best: usize = 2;
    let mut best_waste: usize = waste_of(count, 2);
    let mut best_gap: usize = gap_of(target, 2);
    let mut d: usize = 3;
    while d <= last
        invariant
            last == count / 2,
            2 <= best < d <= last + 1,
            best_waste as nat == waste(count as nat, best as nat),
            best_gap as nat == gap(target as nat, best as nat),
            forall|e: nat| 2 <= e < d ==> preferred(count as nat, target as nat, best as nat, e),
        decreases last + 1 - d,
    {
        let w = waste_of(count, d);
        let g = gap_of(target, d);
        if w < best_waste || (w == best_waste && g <= best_gap) {
            proof {
                let ghost old_best = best as nat;
                assert forall|e: nat| 2 <= e < d + 1 implies preferred(
                    count as nat,
                    target as nat,
                    d as nat,
                    e,
                ) by {
                    if e < d {
                        assert(preferred(count as nat, target as nat, old_best, e));
                    }
                }
            }
            best = d;
            best_waste = w;
            best_gap = g;
        }
        d = d + 1;
    }
    proof {
        assert(is_packed_choice(count as nat, target as nat, best as nat));
        lemma_packed_choice_unique(count as nat, target as nat, best as nat);
    }
    best
}

impl RenderLayout {
    /// The grid, as (columns, rows), for `cell_count` cells of the given size.
    ///
    /// The layouts that measure the picture's area need that area to fit the
    /// machine word; `checked_cell_counts` tests that first.
    pub fn get_cell_counts(self, cell_count: usize, cell_width: usize, cell_height: usize) -> (counts: (
        usize,
        usize,
    ))
        requires
            self.measures_area() ==> cell_width * cell_height * cell_count <= usize::MAX,
        ensures
            (counts.0 as nat, counts.1 as nat) == self.cell_counts(
                cell_count as nat,
                cell_width as nat,
                cell_height as nat,
            ),
    {
        match self {
            RenderLayout::Squarish => {
                let cols = squarish_cols_of(cell_count, cell_width, cell_height);
                (cols, ceil_div_of(cell_count, cols))
            },
            RenderLayout::Horizontal => (cell_count, 1usize),
            RenderLayout::Vertical => (1usize, cell_count),
            RenderLayout::Packed(flip) => {
                let target = squarish_cols_of(cell_count, cell_width, cell_height);
                let cols = packed_cols_of(cell_count, target);
                let rows = ceil_div_of(cell_count, cols);
                if !flip {
                    (cols, rows)
                } else {
                    (rows, cols)
                }
            },
            RenderLayout::Custom(cols, rows) => (cols, rows),
        }
    }

    /// The grid as `get_cell_counts` gives it, or `None` where the layout
    /// measures the picture's area and that area does not fit the machine word.
    pub fn checked_cell_counts(self, cell_count: usize, cell_width: usize, cell_height: usize) -> (counts: Option<(usize, usize)>)
        ensures
            counts is Some <==> (self.measures_area() ==> cell_width * cell_height * cell_count
                <= usize::MAX),
            counts matches Some(c) ==> (c.0 as nat, c.1 as nat) == self.cell_counts(
                cell_count as nat,
                cell_width as nat,
                cell_height as nat,
            ),
    {
        let measures = match self {
            RenderLayout::Squarish => true,
            RenderLayout::Packed(_) => true,
            _ => false,
        };
        if measures && pixel_total(cell_count, cell_width, cell_height).is_none() {
            None
        } else {
            Some(self.get_cell_counts(cell_count, cell_width, cell_height))
        }
    }
}

} // verus!
