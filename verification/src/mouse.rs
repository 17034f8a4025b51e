//! The mouse: hit-testing, clicks, hovering, dragging the divider, and selecting
//! text.

use vstd::prelude::*;
use crate::app::App;
use crate::config;
use crate::geometry;
use crate::geometry::SortIndicatorPart;
use crate::git::{ChangeKind, KIND_ORDER};
use crate::rich;
use crate::rich::{Line, Row};
use crate::sort;
use crate::state;
use crate::state::{Control, Pointer, QueueState, Screen, Selection, State, Target};
use crate::txt;

verus! {

#[derive(Debug, Clone, Copy, PartialEq, Eq, Structural)]
pub enum MouseButton {
    Left,
    Right,
    Middle,
}

#[derive(Debug, Clone, Copy, PartialEq, Eq, Structural)]
pub enum MouseEventKind {
    Down(MouseButton),
    Up(MouseButton),
    Drag(MouseButton),
    Moved,
    ScrollDown,
    ScrollUp,
    ScrollLeft,
    ScrollRight,
}

#[derive(Debug, Clone, Copy, PartialEq, Eq, Structural)]
pub struct MouseEvent {
    pub kind: MouseEventKind,
    pub column: u16,
    pub row: u16,
}

/// Which clickable element (if any) is currently under the mouse cursor. Resolved
/// fresh from current state on every read, never cached at move-time, so it can't
/// go stale if the underlying data (filtered list, file types, scroll offset)
/// changes without a further mouse move.
#[derive(Debug, Clone, PartialEq, Eq)]
pub enum Hover {
    KindChip(ChangeKind),
    FileType(String),
    SortLabel,
    SortArrow,
    /// Index into the filtered files.
    FileRow(usize),
}

impl View for Hover {
    type V = Target;

    open spec fn view(&self) -> Target {
        match self {
            Hover::KindChip(kind) => Target::KindChip(*kind),
            Hover::FileType(ext) => Target::FileType(ext@),
            Hover::SortLabel => Target::SortLabel,
            Hover::SortArrow => Target::SortArrow,
            Hover::FileRow(i) => Target::FileRow(*i as int),
        }
    }
}

/// The element that a hover names.
pub open spec fn target(h: Option<Hover>) -> Option<Target> {
    match h {
        Some(h) => Some(h@),
        None => None,
    }
}

/// Whether two hovers name the same element.
pub fn same_hover(a: &Option<Hover>, b: &Option<Hover>) -> (r: bool)
    ensures
        r == (target(*a) == target(*b)),
{
    match (a, b) {
        (None, None) => true,
        (Some(x), Some(y)) => match (x, y) {
            (Hover::KindChip(p), Hover::KindChip(q)) => *p == *q,
            (Hover::FileType(p), Hover::FileType(q)) => txt::same(p.as_str(), q.as_str()),
            (Hover::SortLabel, Hover::SortLabel) => true,
            (Hover::SortArrow, Hover::SortArrow) => true,
            (Hover::FileRow(p), Hover::FileRow(q)) => *p == *q,
            _ => false,
        },
        _ => false,
    }
}

// --- the model -----------------------------------------------------------------

/// The columns of the five kind chips.
pub open spec fn kind_widths() -> Seq<u16> {
    seq![3, 3, 3, 3, 3]
}

/// The columns of the chip for a file type, `[.ext]`.
pub open spec fn type_width(ext: Seq<char>) -> int {
    geometry::low16(ext.len() as int) + 3
}

/// The columns of the file-type chips.
pub open spec fn type_widths(types: Seq<Seq<char>>) -> Seq<u16> {
    types.map_values(|ext: Seq<char>| type_width(ext) as u16)
}

/// Whether the columns of every file-type chip fit a `u16`.
pub open spec fn types_fit(types: Seq<Seq<char>>) -> bool {
    forall|i: int| 0 <= i < types.len() ==> type_width(#[trigger] types[i]) <= u16::MAX
}

/// The text from line `li` on that lies between two ends of a selection.
pub open spec fn copied(
    rows: Seq<Row>,
    start: (usize, usize),
    end: (usize, usize),
    li: int,
) -> Seq<char>
    decreases end.0 - li + 1,
{
    if li < 0 || li > end.0 || li >= rows.len() {
        Seq::empty()
    } else {
        let chars = rich::row_text(rows[li]);
        let n = chars.len() as int;
        let from = geometry::lesser(
            if li == start.0 {
                start.1 as int
            } else {
                0
            },
            n,
        );
        let to = geometry::greater(
            geometry::lesser(
                if li == end.0 {
                    end.1 as int
                } else {
                    n
                },
                n,
            ),
            from,
        );
        chars.subrange(from, to) + (if li == end.0 {
            Seq::empty()
        } else {
            seq!['\n']
        }) + copied(rows, start, end, li + 1)
    }
}

impl State {
    /// With the pointer `p`.
    pub open spec fn with_pointer(self, p: Pointer) -> State {
        State { pointer: p, ..self }
    }

    // --- hit-testing ---------------------------------------------------------------

    /// The column of the divider.
    pub open spec fn divider_col(self) -> int {
        self.screen.area_left.x + self.screen.area_left.width
    }

    pub open spec fn near_divider(self, col: u16) -> bool {
        !self.screen.sidebar_collapsed && col + 1 >= self.divider_col() && col
            <= self.divider_col()
    }

    pub open spec fn near_divider_fits(self, col: u16) -> bool {
        !self.screen.sidebar_collapsed ==> self.divider_col() <= u16::MAX && col + 1 <= u16::MAX
    }

    /// Whether column `col` lies in the file list.
    pub open spec fn in_left(self, col: u16) -> bool {
        !self.screen.sidebar_collapsed && col >= self.screen.area_left.x && col + 1
            < self.divider_col()
    }

    pub open spec fn in_left_fits(self, col: u16) -> bool {
        !self.screen.sidebar_collapsed && col >= self.screen.area_left.x ==> self.divider_col()
            <= u16::MAX && col + 1 <= u16::MAX
    }

    /// Whether a cell lies in the diff pane's content: below the header row, left of
    /// the reserved scrollbar-rail column.
    pub open spec fn in_diff(self, col: u16, row: u16) -> bool {
        let area = self.screen.area_right;
        col >= area.x && col + 1 < area.x + area.width && row > area.y && row < area.y
            + area.height
    }

    pub open spec fn in_diff_fits(self, col: u16, row: u16) -> bool {
        let area = self.screen.area_right;
        col >= area.x ==> {
            &&& col + 1 <= u16::MAX
            &&& area.x + area.width <= u16::MAX
            &&& col + 1 < area.x + area.width && row > area.y ==> area.y + area.height <= u16::MAX
        }
    }

    /// The half of the sort indicator at column `col`. The pane's last column is
    /// reserved: it doubles as part of the divider's grab zone.
    pub open spec fn indicator_at(self, col: u16) -> Option<SortIndicatorPart> {
        geometry::indicator_part(
            col as int,
            self.screen.area_left.x as int,
            geometry::minus(self.screen.area_left.width as int, 1),
            geometry::low16(sort::field_name(self.list.sort_field).len() as int),
        )
    }

    /// A column, counted from the left edge of the file list.
    pub open spec fn rel_col(self, col: u16) -> int {
        geometry::minus(col as int, self.screen.area_left.x as int)
    }

    /// The clickable element of the file list at a cell of it.
    #[verifier::opaque]
    pub open spec fn spot(self, col: u16, row: u16) -> Option<Target> {
        let y = self.screen.area_left.y;
        if row == y {
            match self.indicator_at(col) {
                Some(SortIndicatorPart::Label) => Some(Target::SortLabel),
                Some(SortIndicatorPart::Arrow) => Some(Target::SortArrow),
                None => None,
            }
        } else if row == y + 1 {
            match geometry::chip_at(self.rel_col(col), kind_widths(), 0) {
                Some(i) => Some(Target::KindChip(KIND_ORDER[i])),
                None => None,
            }
        } else if row == y + 2 {
            match geometry::chip_at(self.rel_col(col), type_widths(self.list.file_types), 1) {
                Some(i) => Some(Target::FileType(self.list.file_types[i])),
                None => None,
            }
        } else {
            match geometry::entry_at_row(
                row as int,
                y + 3,
                self.screen.list_offset as int,
                self.list.filtered.len() as int,
            ) {
                Some(i) => Some(Target::FileRow(i)),
                None => None,
            }
        }
    }

    /// Whether finding the element at a cell of the file list stays within machine
    /// numbers.
    #[verifier::opaque]
    pub open spec fn spot_fits(self, col: u16, row: u16) -> bool {
        let y = self.screen.area_left.y;
        &&& row == y ==> self.screen.area_left.x + geometry::minus(
            self.screen.area_left.width as int,
            1,
        ) <= u16::MAX
        &&& row != y ==> y + 1 <= u16::MAX
        &&& row != y && row != y + 1 ==> y + 2 <= u16::MAX
        &&& row == y + 2 ==> types_fit(self.list.file_types) && geometry::chips_fit(
            self.rel_col(col),
            type_widths(self.list.file_types),
            1,
        )
        &&& row != y && row != y + 1 && row != y + 2 ==> y + 3 <= u16::MAX && (row >= y + 3
            ==> self.screen.list_offset + (row - (y + 3)) <= usize::MAX)
    }

    /// The clickable element under the mouse.
    #[verifier::opaque]
    pub open spec fn hover_target(self) -> Option<Target> {
        if self.screen.sidebar_collapsed || self.control.show_help {
            None
        } else {
            match self.pointer.hover_pos {
                Some((col, row)) => if self.in_left(col) {
                    self.spot(col, row)
                } else {
                    None
                },
                None => None,
            }
        }
    }

    #[verifier::opaque]
    pub open spec fn hover_fits(self) -> bool {
        !self.screen.sidebar_collapsed && !self.control.show_help ==> (
        self.pointer.hover_pos matches Some((col, row)) ==> self.in_left_fits(col) && (
        self.in_left(col) ==> self.spot_fits(col, row)))
    }

    /// With the element at a cell of the file list clicked. The label half of the
    /// sort indicator cycles the sort field, the arrow half reverses direction; a
    /// chip toggles its filter; a row selects its file.
    #[verifier::opaque]
    pub open spec fn click_left(self, col: u16, row: u16) -> State {
        match self.spot(col, row) {
            Some(Target::SortLabel) => self.cycle_sort_field(),
            Some(Target::SortArrow) => self.toggle_sort_dir(),
            Some(Target::KindChip(kind)) => self.toggle_kind(kind),
            Some(Target::FileType(ext)) => self.toggle_file_type(ext),
            Some(Target::FileRow(i)) => self.select(i),
            None => self,
        }
    }

    /// The rows of the shown view.
    pub open spec fn shown_rows(self) -> Seq<Row> {
        match self.history {
            Some(h) => h.text,
            None => self.pane.combined,
        }
    }

    /// The `(line, column)` of the shown view's text at a cell of the diff pane.
    pub open spec fn diff_cell(self, col: u16, row: u16) -> (usize, usize) {
        let (scroll, last) = match self.history {
            Some(h) => (h.scroll, geometry::minus(h.text.len() as int, 1)),
            None => (self.pane.diff_scroll, geometry::minus(self.view_window().1, 1)),
        };
        let down = geometry::minus(row as int, self.screen.area_right.y + 1);
        (
            geometry::lesser(scroll + down, last) as usize,
            geometry::minus(col as int, self.screen.area_right.x as int) as usize,
        )
    }

    /// With a selection begun at a cell.
    #[verifier::opaque]
    pub open spec fn begin_selection(self, col: u16, row: u16) -> State {
        let pos = self.diff_cell(col, row);
        let s = self.with_pointer(
            Pointer {
                selection: Some(Selection { anchor: pos, cursor: pos }),
                selecting: true,
                sel_autoscroll: 0,
                ..self.pointer
            },
        );
        if self.history is None {
            s.with_selected(s.file_at_line(pos.0 as int))
        } else {
            s
        }
    }

    /// With the selection, if there is one, extended to `pos`.
    pub open spec fn with_cursor(self, pos: (usize, usize)) -> State {
        match self.pointer.selection {
            Some(sel) => self.with_pointer(
                Pointer { selection: Some(Selection { cursor: pos, ..sel }), ..self.pointer },
            ),
            None => self,
        }
    }

    /// Whether a selection drag is auto-scrolling past a pane edge.
    pub open spec fn is_autoscrolling(self) -> bool {
        self.pointer.selecting && self.pointer.sel_autoscroll != 0
    }

    /// With an edge auto-scroll advanced by one step, extending the selection to the
    /// new top or bottom line. The live view's selected file follows; a history has
    /// none to follow.
    #[verifier::opaque]
    pub open spec fn autoscroll(self) -> State {
        if !self.is_autoscrolling() {
            self
        } else {
            match self.history {
                Some(h) => if self.pointer.sel_autoscroll < 0 {
                    let scroll = geometry::minus(h.scroll, 3);
                    self.with_history(Some(h.with_scroll(scroll))).with_cursor(
                        (scroll as usize, 0),
                    )
                } else {
                    let scroll = geometry::lesser(h.scroll + 3, self.history_max(h));
                    self.with_history(Some(h.with_scroll(scroll))).with_cursor(
                        (
                            geometry::lesser(
                                scroll + geometry::minus(self.pane.diff_viewport_height as int, 1),
                                geometry::minus(h.text.len() as int, 1),
                            ) as usize,
                            usize::MAX,
                        ),
                    )
                },
                None => if self.pointer.sel_autoscroll < 0 {
                    let s = self.with_scroll(
                        geometry::minus(self.pane.diff_scroll, 3),
                    ).clamp_scroll_to_window();
                    s.with_cursor((s.pane.diff_scroll as usize, 0)).update_selected_from_scroll()
                } else {
                    let s = self.with_scroll(
                        geometry::lesser(self.pane.diff_scroll + 3, self.max_scroll()),
                    );
                    s.with_cursor(
                        (
                            geometry::lesser(
                                s.pane.diff_scroll + geometry::minus(
                                    self.pane.diff_viewport_height as int,
                                    1,
                                ),
                                geometry::minus(s.view_window().1, 1),
                            ) as usize,
                            usize::MAX,
                        ),
                    ).update_selected_from_scroll()
                },
            }
        }
    }

    /// Whether an auto-scroll step moves the shown view.
    pub open spec fn autoscroll_moves(self) -> bool {
        match (self.history, self.autoscroll().history) {
            (Some(a), Some(b)) => a.scroll != b.scroll,
            _ => self.pane.diff_scroll != self.autoscroll().pane.diff_scroll,
        }
    }

    /// With auto-scrolling in direction `dir`.
    pub open spec fn with_autoscroll(self, dir: int) -> State {
        self.with_pointer(Pointer { sel_autoscroll: dir as i32, ..self.pointer })
    }

    /// The last row of the diff pane's content.
    pub open spec fn bottom_row(self) -> int {
        self.screen.area_right.y + geometry::minus(self.screen.area_right.height as int, 1)
    }

    /// With the selection dragged to a cell: past an edge the view scrolls along.
    #[verifier::opaque]
    pub open spec fn update_selection(self, col: u16, row: u16) -> State {
        if row < self.screen.area_right.y + 1 {
            self.with_autoscroll(-1).autoscroll()
        } else if row > self.bottom_row() {
            self.with_autoscroll(1).autoscroll()
        } else {
            let s = self.with_autoscroll(0);
            s.with_cursor(s.diff_cell(col, row))
        }
    }

    pub open spec fn update_selection_fits(self) -> bool {
        &&& self.screen.area_right.y + 1 <= u16::MAX
        &&& self.bottom_row() <= u16::MAX
    }

    /// The selected text.
    pub open spec fn selected_text(self, sel: Selection) -> Seq<char> {
        let (start, end) = state::ends(sel);
        copied(self.shown_rows(), start, end, start.0 as int)
    }

    /// With the selected text, if there is any, queued to be copied.
    #[verifier::opaque]
    pub open spec fn copy_selection(self) -> State {
        match self.pointer.selection {
            None => self,
            Some(sel) => {
                let text = self.selected_text(sel);
                if sel.anchor == sel.cursor || text.len() == 0 {
                    self
                } else {
                    State {
                        queue: QueueState { pending_copy: Some(text), ..self.queue },
                        ..self
                    }.set_status("copied "@ + txt::decimal(text.len()) + " chars"@)
                }
            },
        }
    }

    /// With the pane split at column `col`.
    pub open spec fn set_split_from_col(self, col: u16) -> State {
        let main = self.screen.area_main;
        if main.width == 0 {
            self
        } else {
            let pct = geometry::low16(
                geometry::minus(col as int, main.x as int) * 100 / main.width as int,
            );
            State {
                screen: Screen { split_pct: config::split_within(pct), ..self.screen },
                ..self
            }
        }
    }

    // --- events --------------------------------------------------------------------

    /// With the left button pressed at a cell.
    #[verifier::opaque]
    pub open spec fn press(self, col: u16, row: u16) -> State {
        let s = self.with_pointer(Pointer { selection: None, ..self.pointer });
        if self.near_divider(col) {
            s.with_pointer(Pointer { dragging_divider: true, ..s.pointer })
        } else if self.in_left(col) {
            s.click_left(col, row)
        } else if self.in_diff(col, row) {
            s.begin_selection(col, row)
        } else {
            s
        }
    }

    #[verifier::opaque]
    pub open spec fn press_fits(self, col: u16, row: u16) -> bool {
        &&& self.near_divider_fits(col)
        &&& !self.near_divider(col) ==> self.in_left_fits(col)
        &&& !self.near_divider(col) && self.in_left(col) ==> self.with_pointer(
            Pointer { selection: None, ..self.pointer },
        ).spot_fits(col, row)
        &&& !self.near_divider(col) && !self.in_left(col) ==> self.in_diff_fits(col, row)
    }

    /// With the left button released.
    pub open spec fn release(self) -> State {
        if self.pointer.dragging_divider {
            self.with_pointer(
                Pointer { dragging_divider: false, ..self.pointer },
            ).save_config()
        } else if self.pointer.selecting {
            self.with_pointer(
                Pointer { selecting: false, sel_autoscroll: 0, ..self.pointer },
            ).copy_selection()
        } else {
            self
        }
    }

    /// With a mouse event handled.
    pub open spec fn handle_mouse(self, ev: MouseEvent) -> State {
        let (col, row) = (ev.column, ev.row);
        match ev.kind {
            // Any click dismisses the help overlay.
            MouseEventKind::Down(button) => if self.control.show_help {
                State { control: Control { show_help: false, ..self.control }, ..self }
            } else if button == MouseButton::Left {
                self.press(col, row)
            } else {
                self
            },
            MouseEventKind::Moved => self.with_pointer(
                Pointer { hover_pos: Some((col, row)), ..self.pointer },
            ),
            MouseEventKind::ScrollDown => if self.in_left(col) {
                self.select_next()
            } else {
                self.scroll_down(3)
            },
            MouseEventKind::ScrollUp => if self.in_left(col) {
                self.select_prev()
            } else {
                self.scroll_up(3)
            },
            MouseEventKind::Drag(MouseButton::Left) => if self.pointer.dragging_divider {
                self.set_split_from_col(col)
            } else if self.pointer.selecting {
                self.update_selection(col, row)
            } else {
                self
            },
            MouseEventKind::Up(MouseButton::Left) => self.release(),
            _ => self,
        }
    }

    /// Whether handling a mouse event stays within machine numbers.
    pub open spec fn mouse_fits(self, ev: MouseEvent) -> bool {
        let (col, row) = (ev.column, ev.row);
        match ev.kind {
            MouseEventKind::Down(button) => !self.control.show_help && button == MouseButton::Left
                ==> self.press_fits(col, row),
            MouseEventKind::Moved => self.hover_fits() && self.handle_mouse(ev).hover_fits(),
            MouseEventKind::ScrollDown | MouseEventKind::ScrollUp => self.in_left_fits(col),
            MouseEventKind::Drag(MouseButton::Left) => !self.pointer.dragging_divider
                && self.pointer.selecting ==> self.update_selection_fits(),
            _ => true,
        }
    }

    /// Whether a mouse event changes anything that needs a redraw. Moves fire on
    /// every cell the cursor crosses, so they only do when the element under the
    /// mouse changes; every other event is a discrete user action.
    pub open spec fn mouse_redraws(self, ev: MouseEvent) -> bool {
        ev.kind == MouseEventKind::Moved ==> self.hover_target() != self.handle_mouse(
            ev,
        ).hover_target()
    }
}

// --- the application -----------------------------------------------------------

/// The columns of the file-type chips.
fn chip_widths(types: &Vec<String>) -> (r: Vec<u16>)
    requires
        types_fit(txt::texts(types@)),
    ensures
        r@ == type_widths(txt::texts(types@)),
{
    let ghost all = txt::texts(types@);
    let mut out: Vec<u16> = Vec::new();
    let mut i: usize = 0;
    assert(out@ =~= type_widths(all).take(0));
    while i < types.len()
        invariant
            i <= types@.len(),
            all == txt::texts(types@),
            types_fit(all),
            out@ == type_widths(all).take(i as int),
        decreases types@.len() - i,
    {
        assert(all[i as int] == types@[i as int]@);
        let n = txt::chars_of(types[i].as_str()).len();
        assert(type_width(all[i as int]) <= u16::MAX);
        out.push(geometry::low_16(n) + 3);
        assert(type_widths(all).take(i as int + 1) =~= type_widths(all).take(i as int).push(
            type_width(all[i as int]) as u16,
        ));
        i = i + 1;
    }
    assert(type_widths(all).take(i as int) =~= type_widths(all));
    out
}

/// Whether the columns of every file-type chip fit a `u16`.
fn chip_widths_fit(types: &Vec<String>) -> (r: bool)
    ensures
        r == types_fit(txt::texts(types@)),
{
    let ghost all = txt::texts(types@);
    let mut i: usize = 0;
    while i < types.len()
        invariant
            i <= types@.len(),
            all == txt::texts(types@),
            forall|j: int| 0 <= j < i ==> type_width(#[trigger] all[j]) <= u16::MAX,
        decreases types@.len() - i,
    {
        assert(all[i as int] == types@[i as int]@);
        let n = txt::chars_of(types[i].as_str()).len();
        if geometry::low_16(n) > 65532 {
            assert(type_width(all[i as int]) > u16::MAX);
            return false;
        }
        i = i + 1;
    }
    true
}

impl App {
    // --- hit-testing ---------------------------------------------------------------

    /// True while a divider drag is in progress (used to defer diff rebuilds).
    pub fn is_dragging(&self) -> (r: bool)
        ensures
            r == self@.pointer.dragging_divider,
    {
        self.pointer.dragging_divider
    }

    fn divider_col(&self) -> (r: u16)
        requires
            self@.divider_col() <= u16::MAX,
        ensures
            r == self@.divider_col(),
    {
        self.screen.area_left.x + self.screen.area_left.width
    }

    fn near_divider(&self, col: u16) -> (r: bool)
        requires
            self@.near_divider_fits(col),
        ensures
            r == self@.near_divider(col),
    {
        if self.screen.sidebar_collapsed {
            return false;
        }
        let b = self.divider_col();
        col + 1 >= b && col <= b
    }

    fn in_left(&self, col: u16) -> (r: bool)
        requires
            self@.in_left_fits(col),
        ensures
            r == self@.in_left(col),
    {
        if self.screen.sidebar_collapsed {
            return false;
        }
        col >= self.screen.area_left.x && col + 1 < self.divider_col()
    }

    fn in_diff(&self, col: u16, row: u16) -> (r: bool)
        requires
            self@.in_diff_fits(col, row),
        ensures
            r == self@.in_diff(col, row),
    {
        let area = self.screen.area_right;
        col >= area.x && col + 1 < area.x + area.width && row > area.y && row < area.y
            + area.height
    }

    fn indicator_at(&self, col: u16) -> (r: Option<SortIndicatorPart>)
        requires
            self@.screen.area_left.x + geometry::minus(self@.screen.area_left.width as int, 1)
                <= u16::MAX,
        ensures
            r == self@.indicator_at(col),
    {
        let label = self.list.sort_field.label();
        let label_w = geometry::low_16(txt::chars_of(label).len());
        proof {
            reveal_strlit("tree");
            reveal_strlit("modified");
            reveal_strlit("size");
        }
        // The pane's true last column is reserved (it doubles as part of the
        // divider's mouse grab zone, and a click there can never reach this row).
        let row_width = geometry::sub16(self.screen.area_left.width, 1);
        geometry::sort_indicator_part(col, self.screen.area_left.x, row_width, label_w)
    }

    /// The clickable element of the file list at a cell of it. Clicking and hovering
    /// both go by this, so they can never disagree about what's where.
    fn spot(&self, col: u16, row: u16) -> (r: Option<Hover>)
        requires
            self@.spot_fits(col, row),
        ensures
            target(r) == self@.spot(col, row),
            r matches Some(Hover::FileRow(i)) ==> i < self@.list.filtered.len(),
    {
        proof {
            reveal(State::spot_fits);
            reveal(State::spot);
        }
        let area = self.screen.area_left;
        let rel = geometry::sub16(col, area.x);
        if row == area.y {
            return match self.indicator_at(col) {
                Some(SortIndicatorPart::Label) => Some(Hover::SortLabel),
                Some(SortIndicatorPart::Arrow) => Some(Hover::SortArrow),
                None => None,
            };
        }
        if row == area.y + 1 {
            let widths: [u16; 5] = [3, 3, 3, 3, 3];
            assert(widths@ =~= kind_widths());
            proof {
                lemma_kind_chips(rel as int);
            }
            return match geometry::chip_at_col(rel, widths.as_slice(), 0) {
                Some(i) => {
                    proof {
                        lemma_chip_index(rel as int, kind_widths(), 0, 0, 1);
                    }
                    Some(Hover::KindChip(KIND_ORDER[i]))
                },
                None => None,
            };
        }
        if row == area.y + 2 {
            let widths = chip_widths(&self.list.file_types);
            return match geometry::chip_at_col(rel, widths.as_slice(), 1) {
                Some(i) => {
                    proof {
                        lemma_chip_index(rel as int, widths@, 1, 0, 1);
                    }
                    assert(self@.list.file_types[i as int] == self.list.file_types@[i as int]@);
                    Some(Hover::FileType(self.list.file_types[i].clone()))
                },
                None => None,
            };
        }
        match geometry::row_to_filtered_index(
            row,
            area.y + 3,
            self.screen.list_offset,
            self.list.filtered.len(),
        ) {
            Some(i) => Some(Hover::FileRow(i)),
            None => None,
        }
    }

    fn can_spot(&self, col: u16, row: u16) -> (r: bool)
        ensures
            r == self@.spot_fits(col, row),
    {
        proof {
            reveal(State::spot_fits);
        }
        let area = self.screen.area_left;
        let rel = geometry::sub16(col, area.x);
        if row == area.y {
            return area.x as u32 + geometry::sub16(area.width, 1) as u32 <= 65535;
        }
        if area.y > 65534 {
            return false;
        }
        if row == area.y + 1 {
            return true;
        }
        if area.y > 65533 {
            return false;
        }
        if row == area.y + 2 {
            if !chip_widths_fit(&self.list.file_types) {
                return false;
            }
            let widths = chip_widths(&self.list.file_types);
            return geometry::chip_columns_fit(rel, widths.as_slice(), 1);
        }
        if area.y > 65532 {
            return false;
        }
        if row < area.y + 3 {
            return true;
        }
        let down: usize = (row - (area.y + 3)) as usize;
        self.screen.list_offset <= usize::MAX - down
    }

    /// Resolves the mouse position against current state to determine which
    /// clickable element (if any) the mouse is currently over.
    pub fn hover_target(&self) -> (r: Option<Hover>)
        requires
            self@.hover_fits(),
        ensures
            target(r) == self@.hover_target(),
    {
        proof {
            reveal(State::hover_fits);
            reveal(State::hover_target);
        }
        if self.screen.sidebar_collapsed || self.control.show_help {
            return None;
        }
        match self.pointer.hover_pos {
            None => None,
            Some((col, row)) => {
                if self.in_left(col) {
                    self.spot(col, row)
                } else {
                    None
                }
            },
        }
    }

    fn can_test_left(&self, col: u16) -> (r: bool)
        ensures
            r == self@.in_left_fits(col),
    {
        let area = self.screen.area_left;
        self.screen.sidebar_collapsed || col < area.x || (col < 65535 && area.x as u32
            + area.width as u32 <= 65535)
    }

    /// Whether the element under the mouse can be found.
    pub fn can_hover(&self) -> (r: bool)
        ensures
            r == self@.hover_fits(),
    {
        proof {
            reveal(State::hover_fits);
        }
        if self.screen.sidebar_collapsed || self.control.show_help {
            return true;
        }
        match self.pointer.hover_pos {
            None => true,
            Some((col, row)) => self.can_test_left(col) && (!self.in_left(col) || self.can_spot(
                col,
                row,
            )),
        }
    }

    /// Click the element of the file list at a cell of it.
    fn click_left(&mut self, col: u16, row: u16)
        requires
            old(self)@.wf(),
            old(self)@.spot_fits(col, row),
        ensures
            final(self)@ == old(self)@.click_left(col, row),
            final(self)@.wf(),
    {
        proof {
            reveal(State::click_left);
        }
        match self.spot(col, row) {
            Some(Hover::SortLabel) => self.cycle_sort_field(),
            Some(Hover::SortArrow) => self.toggle_sort_dir(),
            Some(Hover::KindChip(kind)) => self.toggle_kind(kind),
            Some(Hover::FileType(ext)) => self.toggle_file_type(ext),
            Some(Hover::FileRow(i)) => {
                let _count = self.list.filtered.len();
                self.select(i)
            },
            None => {},
        }
    }
}

/// The kind chips lie within the first columns.
proof fn lemma_kind_chips(rel: int)
    requires
        rel <= u16::MAX,
    ensures
        geometry::chips_fit(rel, kind_widths(), 0),
{
    reveal_with_fuel(geometry::chips_fit_from, 7);
}

/// A chip that contains a column is one of the chips.
proof fn lemma_chip_index(rel: int, widths: Seq<u16>, gap: int, i: int, pos: int)
    requires
        0 <= i,
    ensures
        geometry::chip_from(rel, widths, gap, i, pos) matches Some(k) ==> i <= k < widths.len(),
    decreases widths.len() - i,
{
    if i < widths.len() {
        lemma_chip_index(rel, widths, gap, i + 1, pos + widths[i] + gap);
    }
}

/// Appends the text from line `start` on that lies between two ends of a selection.
fn copy_lines_between(lines: &Vec<Line>, start: (usize, usize), end: (usize, usize)) -> (r: String)
    ensures
        r@ == copied(rich::rows(lines@), start, end, start.0 as int),
{
    let ghost all = rich::rows(lines@);
    let mut out = String::new();
    let mut li: usize = start.0;
    let ghost whole = copied(all, start, end, start.0 as int);
    assert(out@ + whole =~= whole);
    while li <= end.0 && li < lines.len()
        invariant
            all == rich::rows(lines@),
            start.0 <= li,
            whole == copied(all, start, end, start.0 as int),
            out@ + copied(all, start, end, li as int) == whole,
        decreases lines@.len() - li,
    {
        assert(all[li as int] == lines@[li as int]@);
        let chars = rich::line_chars(&lines[li]);
        let n = chars.len();
        let from = geometry::min_size(
            if li == start.0 {
                start.1
            } else {
                0
            },
            n,
        );
        let to = geometry::min_size(
            if li == end.0 {
                end.1
            } else {
                n
            },
            n,
        );
        let to: usize = if to >= from {
            to
        } else {
            from
        };
        let ghost was = out@;
        let part = vstd::slice::slice_subrange(chars.as_slice(), from, to);
        txt::push_chars(&mut out, part);
        if li != end.0 {
            out.push('\n');
        }
        proof {
            let tail = if li == end.0 {
                Seq::<char>::empty()
            } else {
                seq!['\n']
            };
            let rest = copied(all, start, end, li as int + 1);
            assert(out@ =~= was + part@ + tail);
            assert(out@ + rest =~= was + (part@ + tail + rest));
        }
        li = li + 1;
    }
    proof {
        assert(copied(all, start, end, li as int) =~= Seq::<char>::empty());
        assert(out@ + Seq::<char>::empty() =~= out@);
    }
    out
}

impl App {
    // --- selecting text ------------------------------------------------------------

    /// Map a diff-pane cell to a `(line, column)` in the active view's text.
    fn diff_cell(&self, col: u16, row: u16) -> (r: (usize, usize))
        requires
            self@.wf(),
            self@.screen.area_right.y + 1 <= u16::MAX,
        ensures
            r == self@.diff_cell(col, row),
    {
        proof {
            reveal(State::wf);
            reveal(State::steady);
        }
        let inner_top: u16 = self.screen.area_right.y + 1;
        let inner_left = self.screen.area_right.x;
        let (scroll, last_line) = match &self.history {
            Some(h) => {
                assert(h@.text.len() == h.text.lines@.len());
                (h.scroll, geometry::sub_size(h.text.lines.len(), 1))
            },
            None => {
                let (_, end) = self.view_window();
                (self.pane.diff_scroll, geometry::sub_size(end, 1))
            },
        };
        let line = geometry::min_size(
            scroll as usize + geometry::sub16(row, inner_top) as usize,
            last_line,
        );
        let column = geometry::sub16(col, inner_left) as usize;
        (line, column)
    }

    fn begin_selection(&mut self, col: u16, row: u16)
        requires
            old(self)@.wf(),
            old(self)@.screen.area_right.y + 1 <= u16::MAX,
        ensures
            final(self)@ == old(self)@.begin_selection(col, row),
            final(self)@.wf(),
    {
        proof {
            reveal(State::begin_selection);
            reveal(State::wf);
            reveal(State::steady);
        }
        let pos = self.diff_cell(col, row);
        self.pointer.selection = Some(Selection { anchor: pos, cursor: pos });
        self.pointer.selecting = true;
        self.pointer.sel_autoscroll = 0;
        if self.history.is_none() {
            let _count = self.pane.offsets.len();
            self.list.selected = self.file_at_line(pos.0);
        }
    }

    /// Extends the selection, if there is one, to `pos`.
    fn set_cursor(&mut self, pos: (usize, usize))
        ensures
            final(self)@ == old(self)@.with_cursor(pos),
    {
        if let Some(sel) = self.pointer.selection {
            self.pointer.selection = Some(Selection { anchor: sel.anchor, cursor: pos });
        }
    }

    /// True while a selection drag is auto-scrolling past a pane edge.
    pub fn is_autoscrolling(&self) -> (r: bool)
        ensures
            r == self@.is_autoscrolling(),
    {
        self.pointer.selecting && self.pointer.sel_autoscroll != 0
    }

    /// Auto-scrolls a history. It has no file-selection concept to resync: unlike the
    /// live path, scrolling it never touches the selected file.
    fn autoscroll_history(&mut self, up: bool) -> (r: bool)
        requires
            old(self)@.wf(),
            old(self)@.history is Some,
            old(self)@.is_autoscrolling(),
            up == (old(self)@.pointer.sel_autoscroll < 0),
        ensures
            r == old(self)@.autoscroll_moves(),
            final(self)@ == old(self)@.autoscroll(),
            final(self)@.wf(),
    {
        proof {
            reveal(State::autoscroll);
        }
        let viewport = self.pane.diff_viewport_height;
        let mut moved = false;
        let mut cursor: (usize, usize) = (0, 0);
        if let Some(h) = &mut self.history {
            let before = h.scroll;
            assert(h@.text.len() == h.text.lines@.len());
            if up {
                h.scroll = geometry::sub16(h.scroll, 3);
                cursor = (h.scroll as usize, 0);
            } else {
                let max = geometry::history_max_scroll(h.text.lines.len(), viewport);
                h.scroll = geometry::min16(geometry::add16(h.scroll, 3), max);
                let bottom = geometry::min_size(
                    h.scroll as usize + geometry::sub16(viewport, 1) as usize,
                    geometry::sub_size(h.text.lines.len(), 1),
                );
                cursor = (bottom, usize::MAX);
            }
            moved = h.scroll != before;
        }
        self.set_cursor(cursor);
        proof {
            old(self)@.lemma_wf_with_history(self@);
        }
        moved
    }

    /// Auto-scrolls the live view upwards.
    fn autoscroll_up(&mut self) -> (r: bool)
        requires
            old(self)@.wf(),
            old(self)@.history is None,
            old(self)@.is_autoscrolling(),
            old(self)@.pointer.sel_autoscroll < 0,
        ensures
            r == old(self)@.autoscroll_moves(),
            final(self)@ == old(self)@.autoscroll(),
            final(self)@.wf(),
    {
        proof {
            reveal(State::autoscroll);
        }
        let before = self.pane.diff_scroll;
        self.pane.diff_scroll = geometry::sub16(self.pane.diff_scroll, 3);
        proof {
            state::lemma_wf(old(self)@, self@);
        }
        self.clamp_scroll_to_window();
        let moved = self.pane.diff_scroll != before;
        self.set_cursor((self.pane.diff_scroll as usize, 0));
        proof {
            state::lemma_wf(old(self)@, self@);
        }
        self.update_selected_from_scroll();
        moved
    }

    /// Auto-scrolls the live view downwards.
    fn autoscroll_down(&mut self) -> (r: bool)
        requires
            old(self)@.wf(),
            old(self)@.history is None,
            old(self)@.is_autoscrolling(),
            old(self)@.pointer.sel_autoscroll > 0,
        ensures
            r == old(self)@.autoscroll_moves(),
            final(self)@ == old(self)@.autoscroll(),
            final(self)@.wf(),
    {
        proof {
            reveal(State::autoscroll);
        }
        let before = self.pane.diff_scroll;
        let max = self.max_scroll();
        self.pane.diff_scroll = geometry::min16(geometry::add16(self.pane.diff_scroll, 3), max);
        proof {
            state::lemma_wf(old(self)@, self@);
        }
        let (_, end) = self.view_window();
        // Extend to the bottom visible line; usize::MAX = end of line (clamped
        // later).
        let bottom = geometry::min_size(
            self.pane.diff_scroll as usize + geometry::sub16(
                self.pane.diff_viewport_height,
                1,
            ) as usize,
            geometry::sub_size(end, 1),
        );
        let moved = self.pane.diff_scroll != before;
        self.set_cursor((bottom, usize::MAX));
        proof {
            state::lemma_wf(old(self)@, self@);
        }
        self.update_selected_from_scroll();
        moved
    }

    /// Advance an in-progress edge auto-scroll by one step, extending the selection
    /// to the new top/bottom line. Returns whether it scrolled.
    pub fn selection_autoscroll_tick(&mut self) -> (r: bool)
        requires
            old(self)@.wf(),
        ensures
            r == old(self)@.autoscroll_moves(),
            final(self)@ == old(self)@.autoscroll(),
            final(self)@.wf(),
    {
        if !self.is_autoscrolling() {
            proof {
                reveal(State::autoscroll);
            }
            return false;
        }
        let up = self.pointer.sel_autoscroll < 0;
        if self.history.is_some() {
            self.autoscroll_history(up)
        } else if up {
            self.autoscroll_up()
        } else {
            self.autoscroll_down()
        }
    }

    fn update_selection(&mut self, col: u16, row: u16)
        requires
            old(self)@.wf(),
            old(self)@.update_selection_fits(),
        ensures
            final(self)@ == old(self)@.update_selection(col, row),
            final(self)@.wf(),
    {
        proof {
            reveal(State::update_selection);
        }
        let top: u16 = self.screen.area_right.y + 1;
        // Last content row.
        let bottom: u16 = self.screen.area_right.y + geometry::sub16(
            self.screen.area_right.height,
            1,
        );
        let ghost s = self@;
        if row < top {
            self.pointer.sel_autoscroll = -1;
            proof {
                state::lemma_wf(s, self@);
            }
            let _moved = self.selection_autoscroll_tick();
        } else if row > bottom {
            self.pointer.sel_autoscroll = 1;
            proof {
                state::lemma_wf(s, self@);
            }
            let _moved = self.selection_autoscroll_tick();
        } else {
            self.pointer.sel_autoscroll = 0;
            proof {
                state::lemma_wf(s, self@);
            }
            let pos = self.diff_cell(col, row);
            self.set_cursor(pos);
            proof {
                state::lemma_wf(s, self@);
            }
        }
    }

    fn can_update_selection(&self) -> (r: bool)
        ensures
            r == self@.update_selection_fits(),
    {
        let area = self.screen.area_right;
        area.y <= 65534 && area.y as u32 + geometry::sub16(area.height, 1) as u32 <= 65535
    }

    /// Copy the current selection's plain text to the clipboard (queued for the
    /// event loop to emit as an OSC 52 sequence).
    pub fn copy_selection(&mut self)
        requires
            old(self)@.wf(),
        ensures
            final(self)@ == old(self)@.copy_selection(),
            final(self)@.wf(),
    {
        proof {
            reveal(State::copy_selection);
            reveal(State::wf);
            reveal(State::steady);
        }
        let sel = match self.pointer.selection {
            None => {
                return;
            },
            Some(sel) => sel,
        };
        if sel.is_empty() {
            return;
        }
        let (start, end) = sel.ordered();
        let out = match &self.history {
            Some(h) => copy_lines_between(&h.text.lines, start, end),
            None => copy_lines_between(&self.pane.combined.lines, start, end),
        };
        if out.as_str().is_empty() {
            return;
        }
        let n = txt::chars_of(out.as_str()).len();
        let mut message = "copied ".to_owned();
        txt::push_decimal(&mut message, n as u64);
        message.append(" chars");
        self.queue.pending_copy = Some(out);
        self.set_status(message);
    }

    fn set_split_from_col(&mut self, col: u16)
        ensures
            final(self)@ == old(self)@.set_split_from_col(col),
    {
        let main = self.screen.area_main;
        if main.width == 0 {
            return;
        }
        let left_w = geometry::sub16(col, main.x);
        let pct: u32 = left_w as u32 * 100 / main.width as u32;
        self.screen.split_pct = config::clamp_split((pct % 65536) as u16);
    }

    // --- events --------------------------------------------------------------------

    fn press(&mut self, col: u16, row: u16)
        requires
            old(self)@.wf(),
            old(self)@.press_fits(col, row),
        ensures
            final(self)@ == old(self)@.press(col, row),
            final(self)@.wf(),
    {
        proof {
            reveal(State::press_fits);
            reveal(State::press);
        }
        self.pointer.selection = None;
        proof {
            state::lemma_wf(old(self)@, self@);
        }
        if self.near_divider(col) {
            self.pointer.dragging_divider = true;
            proof {
                state::lemma_wf(old(self)@, self@);
            }
        } else if self.in_left(col) {
            self.click_left(col, row);
        } else if self.in_diff(col, row) {
            self.begin_selection(col, row);
        }
    }

    fn release(&mut self)
        requires
            old(self)@.wf(),
        ensures
            final(self)@ == old(self)@.release(),
            final(self)@.wf(),
    {
        if self.pointer.dragging_divider {
            self.pointer.dragging_divider = false;
            self.save_config();
            proof {
                state::lemma_wf(old(self)@, self@);
            }
        } else if self.pointer.selecting {
            self.pointer.selecting = false;
            self.pointer.sel_autoscroll = 0;
            proof {
                state::lemma_wf(old(self)@, self@);
            }
            self.copy_selection();
        }
    }

    fn can_press(&self, col: u16, row: u16) -> (r: bool)
        requires
            self@.wf(),
        ensures
            r == self@.press_fits(col, row),
    {
        proof {
            reveal(State::press_fits);
        }
        let left = self.screen.area_left;
        let ghost s = self@.with_pointer(Pointer { selection: None, ..self@.pointer });
        if !self.screen.sidebar_collapsed && (col == 65535 || left.x as u32 + left.width as u32
            > 65535) {
            return false;
        }
        if self.near_divider(col) {
            return true;
        }
        if self.in_left(col) {
            assert(s.spot_fits(col, row) == self@.spot_fits(col, row)) by {
                reveal(State::spot_fits);
            }
            return self.can_spot(col, row);
        }
        let area = self.screen.area_right;
        if col < area.x {
            return true;
        }
        if col == 65535 || area.x as u32 + area.width as u32 > 65535 {
            return false;
        }
        !(col + 1 < area.x + area.width && row > area.y) || area.y as u32 + area.height as u32
            <= 65535
    }

    /// Whether handling a mouse event stays within machine numbers.
    pub fn can_handle_mouse(&self, ev: MouseEvent) -> (r: bool)
        requires
            self@.wf(),
        ensures
            r == self@.mouse_fits(ev),
    {
        proof {
            reveal(State::hover_fits);
        }
        let (col, row) = (ev.column, ev.row);
        match ev.kind {
            MouseEventKind::Down(MouseButton::Left) => self.control.show_help || self.can_press(
                col,
                row,
            ),
            MouseEventKind::Moved => {
                if !self.can_hover() {
                    return false;
                }
                if self.screen.sidebar_collapsed || self.control.show_help {
                    return true;
                }
                let ghost s = self@.handle_mouse(ev);
                assert(s.in_left_fits(col) == self@.in_left_fits(col));
                assert(s.in_left(col) == self@.in_left(col));
                assert(s.spot_fits(col, row) == self@.spot_fits(col, row)) by {
                    reveal(State::spot_fits);
                }
                self.can_test_left(col) && (!self.in_left(col) || self.can_spot(col, row))
            },
            MouseEventKind::ScrollDown | MouseEventKind::ScrollUp => self.can_test_left(col),
            MouseEventKind::Drag(MouseButton::Left) => self.pointer.dragging_divider
                || !self.pointer.selecting || self.can_update_selection(),
            _ => true,
        }
    }

    /// Returns whether this event changed anything that needs a redraw. Moves fire
    /// on every cell the cursor crosses, so they only report `true` when the
    /// resolved hover target actually changed; every other event kind is a discrete
    /// user action and always redraws.
    pub fn handle_mouse(&mut self, ev: MouseEvent) -> (r: bool)
        requires
            old(self)@.wf(),
            old(self)@.mouse_fits(ev),
        ensures
            r == old(self)@.mouse_redraws(ev),
            final(self)@ == old(self)@.handle_mouse(ev),
            final(self)@.wf(),
    {
        let (col, row) = (ev.column, ev.row);
        match ev.kind {
            MouseEventKind::Down(button) => {
                // Any click dismisses the help overlay.
                if self.control.show_help {
                    self.control.show_help = false;
                    proof {
                        state::lemma_wf(old(self)@, self@);
                    }
                } else if button == MouseButton::Left {
                    self.press(col, row);
                }
            },
            MouseEventKind::Moved => {
                let before = self.hover_target();
                self.pointer.hover_pos = Some((col, row));
                proof {
                    state::lemma_wf(old(self)@, self@);
                }
                let after = self.hover_target();
                return !same_hover(&before, &after);
            },
            MouseEventKind::ScrollDown => {
                if self.in_left(col) {
                    self.select_next();
                } else {
                    self.scroll_down(3);
                }
            },
            MouseEventKind::ScrollUp => {
                if self.in_left(col) {
                    self.select_prev();
                } else {
                    self.scroll_up(3);
                }
            },
            MouseEventKind::Drag(MouseButton::Left) => {
                if self.pointer.dragging_divider {
                    self.set_split_from_col(col);
                    proof {
                        state::lemma_wf(old(self)@, self@);
                    }
                } else if self.pointer.selecting {
                    self.update_selection(col, row);
                }
            },
            MouseEventKind::Up(MouseButton::Left) => self.release(),
            _ => {},
        }
        true
    }
}

} // verus!
