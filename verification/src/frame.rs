//! Placing the panes on the screen.

use vstd::prelude::*;
use ratatui::layout::{Constraint, Layout};
use crate::app::App;
use crate::geometry;
use crate::geometry::Rect;
use crate::state;
use crate::state::{Marquee, PaneState, Screen, State};

verus! {

/// What fits between `start` and the end of the coordinates, of a length `len`.
pub open spec fn extent(start: u16, len: u16) -> int {
    geometry::lesser(len as int, 0xffff - start)
}

/// `area` cut above its last `length` rows; where there are too few rows, the upper part
/// has its `least` rows first.
pub open spec fn rows_of(area: Rect, least: u16, length: u16) -> (Rect, Rect) {
    let rows = extent(area.y, area.height);
    let lower = geometry::lesser(length as int, geometry::minus(rows, least as int));
    (
        Rect { height: (rows - lower) as u16, ..area },
        Rect { y: (area.y + rows - lower) as u16, height: lower as u16, ..area },
    )
}

/// `ratatui`'s `Layout::vertical(..).areas(..)` with a part of at least `least` rows
/// above one of `length` rows. Each part keeps the area's columns. A least size goes
/// before a length: the upper part has its `least` rows as far as there are any, then
/// the lower part its `length` rows, and the upper part the rest. The layout ends where
/// the coordinates do. It takes a least size of 32768 or more for a negative one.
#[verifier::external_body]
fn split_rows(area: Rect, least: u16, length: u16) -> (r: (Rect, Rect))
    requires
        least <= 0x7fff,
    ensures
        r == rows_of(area, least, length),
{
    let own = |r: ratatui::layout::Rect| Rect { x: r.x, y: r.y, width: r.width, height: r.height };
    let all = ratatui::layout::Rect {
        x: area.x,
        y: area.y,
        width: area.width,
        height: area.height,
    };
    let [a, b] = Layout::vertical([Constraint::Min(least), Constraint::Length(length)]).areas(all);
    (own(a), own(b))
}

/// So many percent of `width`, to the nearest column.
pub open spec fn share(width: int, pct: u16) -> int {
    (width * pct + 50) / 100
}

/// `area` cut after a share of `pct` percent, and `length` columns further on; where there
/// are too few columns, the last part has its `least` columns first, then the middle part
/// its `length`, and the first part what is left.
pub open spec fn columns_of(area: Rect, pct: u16, length: u16, least: u16) -> (Rect, Rect, Rect) {
    let columns = extent(area.x, area.width);
    let room = geometry::minus(columns, least as int);
    let middle = geometry::lesser(length as int, room);
    let first = geometry::lesser(share(columns, pct), room - middle);
    (
        Rect { width: first as u16, ..area },
        Rect { x: (area.x + first) as u16, width: middle as u16, ..area },
        Rect {
            x: (area.x + first + middle) as u16,
            width: (columns - first - middle) as u16,
            ..area
        },
    )
}

/// `ratatui`'s `Layout::horizontal(..).areas(..)` with a part of `pct` percent, one of
/// `length` columns, and one of at least `least` columns, from left to right. Each
/// part keeps the area's rows. A least size goes before a length, and a length before a
/// percentage: the third part has its `least` columns as far as there are any, then the
/// second its `length` columns, then the first its share, rounded to the nearest column,
/// and the third the rest. The layout ends where the coordinates do. It takes a least
/// size of 32768 or more for a negative one.
#[verifier::external_body]
fn split_columns(area: Rect, pct: u16, length: u16, least: u16) -> (r: (Rect, Rect, Rect))
    requires
        least <= 0x7fff,
    ensures
        r == columns_of(area, pct, length, least),
{
    let own = |r: ratatui::layout::Rect| Rect { x: r.x, y: r.y, width: r.width, height: r.height };
    let all = ratatui::layout::Rect {
        x: area.x,
        y: area.y,
        width: area.width,
        height: area.height,
    };
    let parts = [Constraint::Percentage(pct), Constraint::Length(length), Constraint::Min(least)];
    let [a, b, c] = Layout::horizontal(parts).areas(all);
    (own(a), own(b), own(c))
}

/// Where the panes go.
#[derive(Debug, Clone, Copy, PartialEq, Eq, Structural)]
pub struct Panes {
    pub main: Rect,
    pub footer: Rect,
    pub left: Rect,
    pub divider: Rect,
    pub right: Rect,
}

/// The panes in an area: the footer below, and above it the file list, the divider and
/// the diff; a collapsed sidebar leaves all of it to the diff. Where there is too little
/// room, the diff has the first row and column, and the file list what the others leave.
pub open spec fn panes_in(area: Rect, split_pct: u16, collapsed: bool) -> Panes {
    let (main, footer) = rows_of(area, 1, 1);
    let (left, divider, right) = if collapsed {
        (geometry::no_area(), geometry::no_area(), main)
    } else {
        columns_of(main, split_pct, 1, 1)
    };
    Panes { main, footer, left, divider, right }
}

impl State {
    /// With the panes recorded for mouse hit-testing, and the diff pane's size so the
    /// build renders and wraps at the right width. Each pane's first row is its header;
    /// the diff pane's last column is reserved for the scrollbar rail.
    pub open spec fn with_panes(self, p: Panes) -> State {
        State {
            screen: Screen {
                area_main: p.main,
                area_left: p.left,
                area_right: p.right,
                ..self.screen
            },
            pane: PaneState {
                diff_width: geometry::minus(p.right.width as int, 1) as u16,
                diff_viewport_height: geometry::minus(p.right.height as int, 1) as u16,
                ..self.pane
            },
            marquee: if self.screen.sidebar_collapsed {
                Marquee { active_path_overflow: false, ..self.marquee }
            } else {
                self.marquee
            },
            ..self
        }
    }
}

impl App {
    /// Record the panes.
    pub fn record_panes(&mut self, p: Panes)
        requires
            old(self)@.wf(),
        ensures
            final(self)@ == old(self)@.with_panes(p),
            final(self)@.wf(),
    {
        self.screen.area_main = p.main;
        self.screen.area_left = p.left;
        self.screen.area_right = p.right;
        self.pane.diff_width = geometry::sub16(p.right.width, 1);
        self.pane.diff_viewport_height = geometry::sub16(p.right.height, 1);
        if self.screen.sidebar_collapsed {
            self.marquee.active_path_overflow = false;
        }
        proof {
            state::lemma_wf(old(self)@, self@);
        }
    }

    /// Lay out the panes in `area` and record them: the footer below, and above it the
    /// file list, the divider and the diff; a collapsed sidebar leaves all of it to the
    /// diff.
    pub fn place_panes(&mut self, area: Rect) -> (r: Panes)
        requires
            old(self)@.wf(),
        ensures
            final(self)@ == old(self)@.with_panes(r),
            final(self)@.wf(),
            r == panes_in(area, old(self)@.screen.split_pct, old(self)@.screen.sidebar_collapsed),
    {
        let (main, footer) = split_rows(area, 1, 1);
        let panes = if self.screen.sidebar_collapsed {
            Panes {
                main,
                footer,
                left: Rect::default(),
                divider: Rect::default(),
                right: main,
            }
        } else {
            let (left, divider, right) = split_columns(main, self.screen.split_pct, 1, 1);
            Panes { main, footer, left, divider, right }
        };
        self.record_panes(panes);
        panes
    }
}

/// The panes tile the area, as far as the coordinates reach: nothing overlaps, and
/// nothing is left over.
pub proof fn law_the_panes_tile_the_area(area: Rect, split_pct: u16, collapsed: bool)
    ensures
        ({
            let p = panes_in(area, split_pct, collapsed);
            let columns = extent(area.x, area.width);
            &&& p.main.height + p.footer.height == extent(area.y, area.height)
            &&& p.footer.y == p.main.y + p.main.height
            &&& !collapsed ==> p.left.width + p.divider.width + p.right.width == columns
            &&& !collapsed ==> p.divider.x == p.left.x + p.left.width && p.right.x == p.divider.x
                + p.divider.width
            &&& collapsed ==> p.right == p.main
        }),
{
    lemma_share(extent(area.x, area.width), split_pct);
}

/// Where there is room, the file list has its share of the columns, to the nearest one,
/// the divider one column, and the footer one row.
pub proof fn law_the_list_has_its_share(area: Rect, split_pct: u16)
    requires
        area.x + area.width <= 0xffff,
        area.y + area.height <= 0xffff,
        area.height >= 2,
        split_pct <= 85,
        area.width >= 14,
    ensures
        ({
            let p = panes_in(area, split_pct, false);
            let whole = area.width * split_pct;
            &&& whole - 50 <= 100 * p.left.width <= whole + 50
            &&& p.divider.width == 1
            &&& p.right.width == area.width - p.left.width - 1
            &&& p.footer.height == 1 && p.main.height == area.height - 1
            &&& p.left.x == area.x && p.left.y == area.y && p.left.height == area.height - 1
        }),
{
    let w = area.width as int;
    let whole = w * split_pct;
    assert(0 <= whole <= w * 85) by (nonlinear_arith)
        requires
            whole == w * split_pct,
            w >= 0,
            split_pct <= 85,
    ;
    assert(share(w, split_pct) == (whole + 50) / 100);
    assert((whole + 50) / 100 <= w - 2);
}

/// On the smallest screens the diff comes first: it has the only row and the only column,
/// and the footer and the divider have the second.
pub proof fn law_the_diff_comes_first(area: Rect, split_pct: u16, collapsed: bool)
    ensures
        ({
            let p = panes_in(area, split_pct, collapsed);
            let (rows, columns) = (extent(area.y, area.height), extent(area.x, area.width));
            &&& rows > 0 ==> p.right.height > 0
            &&& p.footer.height == if rows > 1 {
                1int
            } else {
                0
            }
            &&& columns > 0 ==> p.right.width > 0
            &&& !collapsed ==> p.divider.width == if columns > 1 {
                1int
            } else {
                0
            }
        }),
{
    lemma_share(extent(area.x, area.width), split_pct);
}

proof fn lemma_share(width: int, pct: u16)
    requires
        width >= 0,
    ensures
        share(width, pct) >= 0,
{
    assert(width * pct >= 0) by (nonlinear_arith)
        requires
            width >= 0,
    ;
}

} // verus!
