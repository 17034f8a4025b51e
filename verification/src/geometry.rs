//! Rectangles, scroll bounds, and hit-testing: which element of the screen a cell
//! belongs to.

use vstd::prelude::*;
use vstd::arithmetic::div_mod;
use vstd::arithmetic::mul;

verus! {

/// A rectangle of screen cells.
#[derive(Debug, Clone, Copy, PartialEq, Eq, Structural)]
pub struct Rect {
    pub x: u16,
    pub y: u16,
    pub width: u16,
    pub height: u16,
}

/// The rectangle without cells.
pub open spec fn no_area() -> Rect {
    Rect { x: 0, y: 0, width: 0, height: 0 }
}

impl Default for Rect {
    fn default() -> (r: Rect)
        ensures
            r == no_area(),
    {
        Rect { x: 0, y: 0, width: 0, height: 0 }
    }
}

// --- numbers -------------------------------------------------------------------

/// The low 16 bits of `n`.
pub open spec fn low16(n: int) -> int {
    n % 65536
}

/// The low 16 bits of `n`.
pub fn low_16(n: usize) -> (r: u16)
    ensures
        r == low16(n as int),
{
    (n % 65536) as u16
}

/// `n` as far as a `u16` reaches.
pub open spec fn fit16(n: int) -> int {
    lesser(n, 0xffff)
}

/// `n` as far as a `u16` reaches.
pub fn fit_16(n: usize) -> (r: u16)
    ensures
        r == fit16(n as int),
{
    if n <= 0xffff {
        n as u16
    } else {
        0xffff
    }
}

/// `a - b`, or 0 if that would be negative.
pub open spec fn minus(a: int, b: int) -> int {
    if a > b {
        a - b
    } else {
        0
    }
}

/// The smaller of two numbers.
pub open spec fn lesser(a: int, b: int) -> int {
    if a <= b {
        a
    } else {
        b
    }
}

/// The larger of two numbers.
pub open spec fn greater(a: int, b: int) -> int {
    if a >= b {
        a
    } else {
        b
    }
}

/// `x` moved into `low..=high`.
pub open spec fn clamped(x: int, low: int, high: int) -> int {
    if x < low {
        low
    } else if x > high {
        high
    } else {
        x
    }
}

/// `a - b`, or 0 if that would be negative.
pub fn sub16(a: u16, b: u16) -> (r: u16)
    ensures
        r == minus(a as int, b as int),
{
    if a > b {
        a - b
    } else {
        0
    }
}

/// `a - b`, or 0 if that would be negative.
pub fn sub_size(a: usize, b: usize) -> (r: usize)
    ensures
        r == minus(a as int, b as int),
{
    if a > b {
        a - b
    } else {
        0
    }
}

/// `a + b`, as far as a `u16` reaches.
pub fn add16(a: u16, b: u16) -> (r: u16)
    ensures
        r == fit16(a + b),
{
    if b <= 0xffff - a {
        a + b
    } else {
        0xffff
    }
}

/// The smaller of two numbers.
pub fn min16(a: u16, b: u16) -> (r: u16)
    ensures
        r == lesser(a as int, b as int),
{
    if a <= b {
        a
    } else {
        b
    }
}

/// The larger of two numbers.
pub fn max16(a: u16, b: u16) -> (r: u16)
    ensures
        r == greater(a as int, b as int),
{
    if a >= b {
        a
    } else {
        b
    }
}

/// The smaller of two numbers.
pub fn min_size(a: usize, b: usize) -> (r: usize)
    ensures
        r == lesser(a as int, b as int),
{
    if a <= b {
        a
    } else {
        b
    }
}

/// `x` moved into `low..=high`.
pub fn clamp16(x: u16, low: u16, high: u16) -> (r: u16)
    requires
        low <= high,
    ensures
        r == clamped(x as int, low as int, high as int),
{
    if x < low {
        low
    } else if x > high {
        high
    } else {
        x
    }
}

// --- scroll bounds -------------------------------------------------------------

/// The furthest a view of `lines` lines scrolls: its last line reaches the bottom, or
/// the scroll offset its largest value.
pub open spec fn last_screen(lines: int, viewport: int) -> int {
    fit16(minus(lines, viewport))
}

/// Max scroll for a history view: stop when the last line reaches the bottom.
pub fn history_max_scroll(lines: usize, viewport: u16) -> (r: u16)
    ensures
        r == last_screen(lines as int, viewport as int),
{
    fit_16(sub_size(lines, viewport as usize))
}

// --- the sort indicator --------------------------------------------------------

/// Which half of the sort indicator a column lands in.
#[derive(Debug, Clone, Copy, PartialEq, Eq, Structural)]
pub enum SortIndicatorPart {
    Label,
    Arrow,
}

/// The part of the sort indicator at column `col`: the indicator stands flush
/// right in a row of `row_width` columns from `row_x`, as a label of `label_w`
/// columns, a gap, and an arrow.
pub open spec fn indicator_part(col: int, row_x: int, row_width: int, label_w: int) -> Option<
    SortIndicatorPart,
> {
    let right = row_x + row_width;
    let start = minus(right, label_w + 2);
    if col < start || col >= right || col == start + label_w {
        None
    } else if col < start + label_w {
        Some(SortIndicatorPart::Label)
    } else {
        Some(SortIndicatorPart::Arrow)
    }
}

/// Classifies `col` against the file-list header's right-aligned sort indicator,
/// `"{label} {arrow}"` (e.g. `"tree ▼"`), flush against the right edge of a row
/// spanning `[row_x, row_x + row_width)`. `label_w` is the label's width; the
/// arrow is always exactly 1 column, separated from the label by a 1-column gap.
/// `None` for the gap space or outside the indicator entirely.
pub fn sort_indicator_part(col: u16, row_x: u16, row_width: u16, label_w: u16) -> (r: Option<
    SortIndicatorPart,
>)
    requires
        label_w + 2 <= u16::MAX,
        row_x + row_width <= u16::MAX,
    ensures
        r == indicator_part(col as int, row_x as int, row_width as int, label_w as int),
{
    let total_w: u16 = label_w + 2;
    let right_edge: u16 = row_x + row_width;
    let start = sub16(right_edge, total_w);
    if col < start || col >= right_edge {
        return None;
    }
    let rel: u16 = col - start;
    if rel < label_w {
        Some(SortIndicatorPart::Label)
    } else if rel == label_w {
        None
    } else {
        Some(SortIndicatorPart::Arrow)
    }
}

// --- chips ---------------------------------------------------------------------

/// Which of the chips from `i` on, the first of which starts at column `pos`,
/// contains column `rel`.
pub open spec fn chip_from(rel: int, widths: Seq<u16>, gap: int, i: int, pos: int) -> Option<int>
    decreases widths.len() - i,
{
    if i < 0 || i >= widths.len() {
        None
    } else if rel < pos + widths[i] {
        Some(i)
    } else if rel < pos + widths[i] + gap {
        None
    } else {
        chip_from(rel, widths, gap, i + 1, pos + widths[i] + gap)
    }
}

/// Which chip contains column `rel` of a row of chips behind a 1-column margin.
pub open spec fn chip_at(rel: int, widths: Seq<u16>, gap: int) -> Option<int> {
    if rel < 1 {
        None
    } else {
        chip_from(rel, widths, gap, 0, 1)
    }
}

/// Whether the columns of the chips up to the one at `rel` fit a `u16`.
pub open spec fn chips_fit_from(rel: int, widths: Seq<u16>, gap: int, i: int, pos: int) -> bool
    decreases widths.len() - i,
{
    if i < 0 || i >= widths.len() {
        true
    } else {
        &&& pos + widths[i] <= u16::MAX
        &&& rel >= pos + widths[i] ==> pos + widths[i] + gap <= u16::MAX
        &&& rel >= pos + widths[i] + gap ==> chips_fit_from(
            rel,
            widths,
            gap,
            i + 1,
            pos + widths[i] + gap,
        )
    }
}

/// Whether the columns of the chips up to the one at `rel` fit a `u16`.
pub open spec fn chips_fit(rel: int, widths: Seq<u16>, gap: int) -> bool {
    rel >= 1 ==> chips_fit_from(rel, widths, gap, 0, 1)
}

/// Which chip (0-based) contains column `rel` (relative to the row's left edge,
/// which starts with a 1-column margin), given each chip's on-screen `widths` in
/// order and the `gap` columns between adjacent chips. `None` if `rel` falls in
/// the margin, in a gap between two chips, or past the last chip. Shared by the
/// fixed-width kind-chip row (`gap = 0`) and the variable-width file-type-chip row
/// (`gap = 1`).
pub fn chip_at_col(rel: u16, widths: &[u16], gap: u16) -> (r: Option<usize>)
    requires
        chips_fit(rel as int, widths@, gap as int),
    ensures
        match r {
            Some(i) => chip_at(rel as int, widths@, gap as int) == Some(i as int),
            None => chip_at(rel as int, widths@, gap as int) is None,
        },
{
    if rel < 1 {
        return None;
    }
    let mut pos: u16 = 1;
    let mut i: usize = 0;
    while i < widths.len()
        invariant
            i <= widths@.len(),
            rel >= 1,
            chips_fit_from(rel as int, widths@, gap as int, i as int, pos as int),
            chip_at(rel as int, widths@, gap as int) == chip_from(
                rel as int,
                widths@,
                gap as int,
                i as int,
                pos as int,
            ),
        decreases widths@.len() - i,
    {
        let end: u16 = pos + widths[i];
        if rel < end {
            return Some(i);
        }
        pos = end + gap;
        if rel < pos {
            return None;
        }
        i = i + 1;
    }
    None
}

/// Whether the columns of the chips up to the one at `rel` fit a `u16`.
pub fn chip_columns_fit(rel: u16, widths: &[u16], gap: u16) -> (r: bool)
    ensures
        r == chips_fit(rel as int, widths@, gap as int),
{
    if rel < 1 {
        return true;
    }
    let mut pos: u32 = 1;
    let mut i: usize = 0;
    while i < widths.len()
        invariant
            i <= widths@.len(),
            rel >= 1,
            pos <= u16::MAX,
            chips_fit(rel as int, widths@, gap as int) == chips_fit_from(
                rel as int,
                widths@,
                gap as int,
                i as int,
                pos as int,
            ),
        decreases widths@.len() - i,
    {
        let end: u32 = pos + widths[i] as u32;
        if end > 65535 {
            return false;
        }
        if (rel as u32) < end {
            return true;
        }
        let next: u32 = end + gap as u32;
        if next > 65535 {
            return false;
        }
        if (rel as u32) < next {
            return true;
        }
        pos = next;
        i = i + 1;
    }
    true
}

// --- list rows -----------------------------------------------------------------

/// The list entry at screen row `row` of a list that starts at row `top`, scrolled
/// by `offset`.
pub open spec fn entry_at_row(row: int, top: int, offset: int, len: int) -> Option<int> {
    if row < top || offset + (row - top) >= len {
        None
    } else {
        Some(offset + (row - top))
    }
}

/// Maps screen row `row` to an index into a `filtered_len`-long list, given the
/// list's first visible row (`top`) and its current scroll `offset`. `None` if
/// `row` is above the list or past its last entry.
pub fn row_to_filtered_index(row: u16, top: u16, offset: usize, filtered_len: usize) -> (r: Option<
    usize,
>)
    requires
        row >= top ==> offset + (row - top) <= usize::MAX,
    ensures
        match r {
            Some(i) => entry_at_row(row as int, top as int, offset as int, filtered_len as int)
                == Some(i as int),
            None => entry_at_row(row as int, top as int, offset as int, filtered_len as int)
                is None,
        },
{
    if row < top {
        return None;
    }
    let idx: usize = offset + (row - top) as usize;
    if idx < filtered_len {
        Some(idx)
    } else {
        None
    }
}

// --- the scrollbar rail --------------------------------------------------------

/// The rail cell that row `row` of `total` rows is marked at.
pub open spec fn rail_cell(row: int, total: int, rail_height: int) -> int {
    if rail_height == 0 {
        0
    } else {
        lesser(row, minus(total, 1)) * (rail_height - 1) / greater(minus(total, 1), 1)
    }
}

/// Proportional position of combined-diff `row` on a scrollbar rail of
/// `rail_height` cells over `total` rows: first row → first cell, last row → last
/// cell, monotonic in between.
pub fn rail_y(row: usize, total: usize, rail_height: u16) -> (r: u16)
    requires
        rail_height > 0 ==> lesser(row as int, minus(total as int, 1)) * (rail_height - 1)
            <= usize::MAX,
    ensures
        r == rail_cell(row as int, total as int, rail_height as int),
{
    if rail_height == 0 {
        return 0;
    }
    let last = sub_size(total, 1);
    let denom: usize = if last >= 1 {
        last
    } else {
        1
    };
    let at = min_size(row, last);
    let cells: usize = rail_height as usize - 1;
    assert(at * cells >= 0) by (nonlinear_arith);
    let y: usize = at * cells / denom;
    proof {
        assert(at * cells <= denom * cells) by (nonlinear_arith)
            requires
                at <= denom,
        ;
        assert(at * cells / (denom as int) <= cells) by (nonlinear_arith)
            requires
                at * cells <= denom * cells,
                denom > 0,
        ;
    }
    y as u16
}

/// The first row is marked in the first cell of the rail, the last in the last.
pub proof fn law_rail_ends(total: int, rail_height: int)
    requires
        total >= 2,
        rail_height >= 1,
    ensures
        rail_cell(0, total, rail_height) == 0,
        rail_cell(total - 1, total, rail_height) == rail_height - 1,
{
    let d = total - 1;
    assert(0 * (rail_height - 1) == 0) by (nonlinear_arith);
    assert(d * (rail_height - 1) / d == rail_height - 1) by (nonlinear_arith)
        requires
            d > 0,
    ;
}

/// Marks stay on the rail and in the order of their rows.
pub proof fn law_rail_is_monotonic(a: int, b: int, total: int, rail_height: int)
    requires
        0 <= a <= b,
        total >= 0,
        rail_height >= 1,
    ensures
        0 <= rail_cell(a, total, rail_height) <= rail_cell(b, total, rail_height) < rail_height,
{
    let d = greater(minus(total, 1), 1);
    let x = lesser(a, minus(total, 1));
    let y = lesser(b, minus(total, 1));
    let h = rail_height - 1;
    mul::lemma_mul_inequality(x, y, h);
    mul::lemma_mul_inequality(y, d, h);
    assert(0 <= x * h) by (nonlinear_arith)
        requires
            0 <= x,
            0 <= h,
    ;
    div_mod::lemma_div_is_ordered(0, x * h, d);
    div_mod::lemma_div_is_ordered(x * h, y * h, d);
    div_mod::lemma_div_is_ordered(y * h, d * h, d);
    div_mod::lemma_div_multiples_vanish(h, d);
    assert(0int / d == 0) by (nonlinear_arith)
        requires
            d > 0,
    ;
}

// --- placing -------------------------------------------------------------------

/// Whether `r` can be placed in the middle of `area` without leaving the screen.
pub open spec fn can_center(area: Rect, w: u16, h: u16) -> bool {
    area.x + minus(area.width as int, w as int) / 2 <= u16::MAX && area.y + minus(
        area.height as int,
        h as int,
    ) / 2 <= u16::MAX
}

/// The rectangle of `w` columns and `h` rows in the middle of `area`.
pub fn centered(area: Rect, w: u16, h: u16) -> (r: Rect)
    requires
        can_center(area, w, h),
    ensures
        r.width == w,
        r.height == h,
        r.x == area.x + minus(area.width as int, w as int) / 2,
        r.y == area.y + minus(area.height as int, h as int) / 2,
{
    Rect {
        x: area.x + sub16(area.width, w) / 2,
        y: area.y + sub16(area.height, h) / 2,
        width: w,
        height: h,
    }
}

} // verus!
