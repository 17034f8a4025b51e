//! What the mouse points at, and what it does there.

use vstd::prelude::*;
use crate::geometry;
use crate::geometry::SortIndicatorPart;
use crate::git::{ChangeKind, KIND_ORDER};
use crate::mouse;
use crate::mouse::{MouseButton, MouseEvent, MouseEventKind};
use crate::rich;
use crate::sort;
use crate::state;
use crate::state::{Selection, State, Target};
use crate::txt;

verus! {

/// An event at a cell.
pub open spec fn at(kind: MouseEventKind, column: u16, row: u16) -> MouseEvent {
    MouseEvent { kind, column, row }
}

// --- chips -----------------------------------------------------------------------------

/// The column that chip `i` starts at: behind a margin of one column, each chip takes its
/// own columns and then the gap.
pub open spec fn chip_start(widths: Seq<u16>, gap: int, i: int) -> int
    decreases i,
{
    if i <= 0 {
        1
    } else {
        chip_start(widths, gap, i - 1) + widths[i - 1] + gap
    }
}

proof fn lemma_chip_from(rel: int, widths: Seq<u16>, gap: int, from: int, i: int)
    requires
        0 <= from <= widths.len(),
        gap >= 0,
        rel >= chip_start(widths, gap, from),
    ensures
        geometry::chip_from(rel, widths, gap, from, chip_start(widths, gap, from)) == Some(i)
            ==> from <= i < widths.len(),
        from <= i < widths.len() ==> (geometry::chip_from(
            rel,
            widths,
            gap,
            from,
            chip_start(widths, gap, from),
        ) == Some(i) <==> chip_start(widths, gap, i) <= rel < chip_start(widths, gap, i)
            + widths[i]),
    decreases widths.len() - from,
{
    if from < widths.len() {
        let pos = chip_start(widths, gap, from);
        assert(chip_start(widths, gap, from + 1) == pos + widths[from] + gap);
        if from < i && i < widths.len() {
            lemma_starts_grow(widths, gap, from + 1, i);
        }
        if rel >= pos + widths[from] + gap {
            lemma_chip_from(rel, widths, gap, from + 1, i);
        }
    }
}

proof fn lemma_starts_grow(widths: Seq<u16>, gap: int, a: int, b: int)
    requires
        0 <= a <= b,
        gap >= 0,
    ensures
        chip_start(widths, gap, a) <= chip_start(widths, gap, b),
    decreases b - a,
{
    if a < b {
        lemma_starts_grow(widths, gap, a, b - 1);
        assert(chip_start(widths, gap, b) == chip_start(widths, gap, b - 1) + widths[b - 1] + gap);
    }
}

/// A column belongs to the chip whose columns it is one of; the margin and the gaps belong
/// to none.
pub proof fn law_columns_of_chips(rel: int, widths: Seq<u16>, gap: int, i: int)
    requires
        gap >= 0,
    ensures
        geometry::chip_at(rel, widths, gap) == Some(i) <==> 0 <= i < widths.len() && chip_start(
            widths,
            gap,
            i,
        ) <= rel < chip_start(widths, gap, i) + widths[i],
{
    if rel >= 1 {
        lemma_chip_from(rel, widths, gap, 0, i);
    } else if 0 <= i {
        lemma_starts_grow(widths, gap, 0, i);
    }
}

/// The chips: one of three columns for each kind, in the order added, modified, deleted,
/// renamed, untracked, without gaps; one for each type offered, three columns longer than
/// the type, with a gap of one column between them.
pub proof fn law_the_chips_there_are(types: Seq<Seq<char>>, i: int)
    ensures
        mouse::kind_widths() == seq![3u16, 3, 3, 3, 3],
        KIND_ORDER[0] == ChangeKind::Added,
        KIND_ORDER[1] == ChangeKind::Modified,
        KIND_ORDER[2] == ChangeKind::Deleted,
        KIND_ORDER[3] == ChangeKind::Renamed,
        KIND_ORDER[4] == ChangeKind::Untracked,
        mouse::type_widths(types).len() == types.len(),
        0 <= i < types.len() && types[i].len() <= 65532 ==> mouse::type_widths(types)[i]
            == types[i].len() + 3,
{
}

/// The sort indicator stands at the right of its row: the label, a column between, and
/// the arrow in the last column.
pub proof fn law_parts_of_the_sort_indicator(col: int, x: int, width: int, label: int)
    requires
        x >= 0,
        label >= 0,
        width >= label + 2,
    ensures
        geometry::indicator_part(col, x, width, label) == Some(SortIndicatorPart::Arrow) <==> col
            == x + width - 1,
        geometry::indicator_part(col, x, width, label) == Some(SortIndicatorPart::Label) <==> x
            + width - 2 - label <= col < x + width - 2,
{
}

/// The rows of the list show its files one below the other, from the first that is
/// scrolled to.
pub proof fn law_rows_of_the_list(row: int, top: int, offset: int, len: int, i: int)
    requires
        offset >= 0,
    ensures
        geometry::entry_at_row(row, top, offset, len) == Some(i) <==> row >= top && i == offset + row
            - top && i < len,
{
}

// --- places ----------------------------------------------------------------------------

/// The parts of the screen: the column between the panes, with the one to its left, moves
/// the split; what lies left of that is the file list; right of it, below the header and
/// left of the last column, is the diff. A collapsed sidebar has neither list nor divider.
pub proof fn law_parts_of_the_screen(s: State, col: u16, row: u16)
    ensures
        ({
            let left = s.screen.area_left;
            let right = s.screen.area_right;
            let edge = left.x + left.width;
            &&& s.near_divider(col) <==> !s.screen.sidebar_collapsed && (col == edge || col == edge
                - 1)
            &&& s.in_left(col) <==> !s.screen.sidebar_collapsed && left.x <= col < edge - 1
            &&& s.in_diff(col, row) <==> right.x <= col < right.x + right.width - 1 && right.y
                < row < right.y + right.height
        }),
{
}

/// What stands in the file list: the sort indicator in the first row, the kinds in the
/// second, the types in the third, the files from the fourth on.
pub proof fn law_what_stands_in_the_list(s: State, col: u16, row: u16)
    requires
        sort::field_name(s.list.sort_field).len() < 65536,
    ensures
        ({
            let y = s.screen.area_left.y;
            let rel = if col >= s.screen.area_left.x {
                col - s.screen.area_left.x
            } else {
                0
            };
            let width = if s.screen.area_left.width > 0 {
                s.screen.area_left.width - 1
            } else {
                0
            };
            let part = geometry::indicator_part(
                col as int,
                s.screen.area_left.x as int,
                width,
                sort::field_name(s.list.sort_field).len() as int,
            );
            let kind = geometry::chip_at(rel, mouse::kind_widths(), 0);
            let ext = geometry::chip_at(rel, mouse::type_widths(s.list.file_types), 1);
            let file = geometry::entry_at_row(
                row as int,
                y + 3,
                s.screen.list_offset as int,
                s.list.filtered.len() as int,
            );
            &&& row == y ==> s.spot(col, row) == match part {
                Some(SortIndicatorPart::Label) => Some(Target::SortLabel),
                Some(SortIndicatorPart::Arrow) => Some(Target::SortArrow),
                None => None,
            }
            &&& row == y + 1 ==> s.spot(col, row) == match kind {
                Some(i) => Some(Target::KindChip(KIND_ORDER[i])),
                None => None,
            }
            &&& row == y + 2 ==> s.spot(col, row) == match ext {
                Some(i) => Some(Target::FileType(s.list.file_types[i])),
                None => None,
            }
            &&& row >= y + 3 ==> s.spot(col, row) == match file {
                Some(i) => Some(Target::FileRow(i)),
                None => None,
            }
        }),
{
    reveal(State::spot);
    let n = sort::field_name(s.list.sort_field).len() as int;
    assert(geometry::low16(n) == n) by {
        vstd::arithmetic::div_mod::lemma_small_mod(n as nat, 65536);
    }
}

/// The line and column of the text under a cell of the diff: as far below the first line
/// shown as the cell is below the header, but never past the last line.
pub proof fn law_what_a_cell_shows(s: State, col: u16, row: u16)
    requires
        s.wf(),
        row > s.screen.area_right.y,
        col >= s.screen.area_right.x,
        s.pane.diff_scroll >= 0,
        s.pane.diff_scroll + 65536 <= usize::MAX,
        s.history matches Some(h) ==> 0 <= h.scroll && h.scroll + 65536 <= usize::MAX,
    ensures
        ({
            let (line, column) = s.diff_cell(col, row);
            let scroll = if s.history is Some {
                s.history->0.scroll
            } else {
                s.pane.diff_scroll
            };
            let end = if s.history is Some {
                s.history->0.text.len() as int
            } else {
                s.view_window().1
            };
            let there = scroll + row - s.screen.area_right.y - 1;
            &&& column == col - s.screen.area_right.x
            &&& there < end ==> line == there
            &&& there >= end && end > 0 ==> line == end - 1
        }),
{
}

// --- actions ---------------------------------------------------------------------------

/// The wheel: over the list it selects the next file or the previous one, elsewhere it
/// scrolls by three lines.
pub proof fn law_the_wheel(s: State, col: u16, row: u16)
    ensures
        s.in_left(col) ==> s.handle_mouse(at(MouseEventKind::ScrollDown, col, row))
            == s.select_next() && s.handle_mouse(at(MouseEventKind::ScrollUp, col, row))
            == s.select_prev(),
        !s.in_left(col) ==> s.handle_mouse(at(MouseEventKind::ScrollDown, col, row))
            == s.scroll_down(3) && s.handle_mouse(at(MouseEventKind::ScrollUp, col, row))
            == s.scroll_up(3),
{
}

/// A press on the divider starts to move it; one on the list does what stands there; one
/// on the diff starts a selection at the cell, of the file shown there; any of them drops
/// the selection there was.
pub proof fn law_pressing(s: State, col: u16, row: u16)
    requires
        !s.control.show_help,
    ensures
        ({
            let t = s.handle_mouse(at(MouseEventKind::Down(MouseButton::Left), col, row));
            let bare = s.with_pointer(state::Pointer { selection: None, ..s.pointer });
            &&& s.near_divider(col) ==> t.pointer.dragging_divider && t.pointer.selection is None
                && t.list == s.list && t.pane == s.pane
            &&& !s.near_divider(col) && s.in_left(col) ==> match s.spot(col, row) {
                Some(Target::SortLabel) => t == bare.cycle_sort_field(),
                Some(Target::SortArrow) => t == bare.toggle_sort_dir(),
                Some(Target::KindChip(kind)) => t == bare.toggle_kind(kind),
                Some(Target::FileType(ext)) => t == bare.toggle_file_type(ext),
                Some(Target::FileRow(i)) => t == bare.select(i) && t.list.selected == i,
                None => t == bare,
            }
            &&& !s.near_divider(col) && !s.in_left(col) && s.in_diff(col, row) ==> {
                &&& t.pointer.selecting && t.pointer.sel_autoscroll == 0
                &&& t.pointer.selection == Some(
                    Selection { anchor: s.diff_cell(col, row), cursor: s.diff_cell(col, row) },
                )
                &&& s.history is None ==> t.list.selected == s.file_at_line(
                    s.diff_cell(col, row).0 as int,
                )
                &&& t.pane == s.pane
            }
            &&& !s.near_divider(col) && !s.in_left(col) && !s.in_diff(col, row) ==> t == bare
        }),
        s.handle_mouse(at(MouseEventKind::Moved, col, row)).pointer.hover_pos == Some((col, row)),
{
    reveal(State::press);
    reveal(State::click_left);
    reveal(State::begin_selection);
    reveal(State::spot);
    let bare = s.with_pointer(state::Pointer { selection: None, ..s.pointer });
    assert(bare.spot(col, row) == s.spot(col, row));
    assert(bare.diff_cell(col, row) == s.diff_cell(col, row));
    let sel = bare.with_pointer(
        state::Pointer {
            selection: Some(
                Selection { anchor: s.diff_cell(col, row), cursor: s.diff_cell(col, row) },
            ),
            selecting: true,
            sel_autoscroll: 0,
            ..bare.pointer
        },
    );
    lemma_same_sections(sel, s, s.diff_cell(col, row).0 as int, 0);
}

proof fn lemma_same_sections(a: State, b: State, line: int, i: int)
    requires
        a.pane.offsets == b.pane.offsets,
    ensures
        a.section_from(line, i) == b.section_from(line, i),
    decreases a.pane.offsets.len() - i,
{
    if 0 <= i < a.pane.offsets.len() && a.pane.offsets[i] <= line {
        lemma_same_sections(a, b, line, i + 1);
    }
}

/// Dragging the divider puts it under the mouse, in percent of the width, but leaves both
/// panes their least share.
pub proof fn law_moving_the_divider(s: State, col: u16, row: u16)
    requires
        s.pointer.dragging_divider,
        s.screen.area_main.width > 0,
        s.screen.area_main.x <= col,
        col <= s.screen.area_main.x + s.screen.area_main.width,
    ensures
        ({
            let t = s.handle_mouse(at(MouseEventKind::Drag(MouseButton::Left), col, row));
            let pct = (col - s.screen.area_main.x) * 100 / s.screen.area_main.width as int;
            &&& 15 <= pct <= 85 ==> t.screen.split_pct == pct
            &&& pct < 15 ==> t.screen.split_pct == 15
            &&& pct > 85 ==> t.screen.split_pct == 85
            &&& t.list == s.list && t.pane == s.pane && t.pointer == s.pointer
        }),
{
    let w = s.screen.area_main.width as int;
    let d = col - s.screen.area_main.x;
    assert(0 <= d * 100 / w <= 100) by (nonlinear_arith)
        requires
            0 <= d <= w,
            w > 0,
    ;
    vstd::arithmetic::div_mod::lemma_small_mod((d * 100 / w) as nat, 65536);
}

/// Releasing ends what the press started: a moved divider is remembered, a selection is
/// copied.
pub proof fn law_releasing(s: State, col: u16, row: u16)
    ensures
        ({
            let t = s.handle_mouse(at(MouseEventKind::Up(MouseButton::Left), col, row));
            &&& s.pointer.dragging_divider ==> !t.pointer.dragging_divider && t.queue.save_pending
            &&& !s.pointer.dragging_divider && s.pointer.selecting ==> !t.pointer.selecting
                && t.pointer.sel_autoscroll == 0 && t.pointer.selection == s.pointer.selection
            &&& !s.pointer.dragging_divider && !s.pointer.selecting ==> t == s
        }),
{
    reveal(State::copy_selection);
}

/// Past an edge the view scrolls by three lines, and the selection goes on to the first
/// line shown or to the end of the last one.
pub proof fn law_scrolling_along(s: State)
    requires
        s.wf(),
        s.pointer.selecting,
        s.pointer.selection is Some,
        s.history is None,
        !s.control.follow,
        0 <= s.pane.diff_scroll <= s.max_scroll(),
        s.pane.combined.len() > 0,
        s.pane.combined.len() <= usize::MAX,
    ensures
        s.pointer.sel_autoscroll == 0 ==> s.autoscroll() == s,
        s.pointer.sel_autoscroll < 0 ==> ({
            let t = s.autoscroll();
            &&& s.pane.diff_scroll >= 3 ==> t.pane.diff_scroll == s.pane.diff_scroll - 3
            &&& s.pane.diff_scroll < 3 ==> t.pane.diff_scroll == 0
            &&& t.pointer.selection matches Some(sel) && sel.cursor.0 == t.pane.diff_scroll
                && sel.cursor.1 == 0 && sel.anchor == s.pointer.selection->0.anchor
        }),
        s.pointer.sel_autoscroll > 0 ==> ({
            let t = s.autoscroll();
            &&& s.pane.diff_scroll + 3 <= s.max_scroll() ==> t.pane.diff_scroll
                == s.pane.diff_scroll + 3
            &&& s.pane.diff_scroll + 3 > s.max_scroll() ==> t.pane.diff_scroll == s.max_scroll()
            &&& t.pointer.selection matches Some(sel) && sel.cursor.1 == usize::MAX
                && sel.anchor == s.pointer.selection->0.anchor && sel.cursor.0
                < s.pane.combined.len() && (s.pane.diff_viewport_height > 0 && t.pane.diff_scroll
                + s.pane.diff_viewport_height <= s.pane.combined.len() ==> sel.cursor.0
                == t.pane.diff_scroll + s.pane.diff_viewport_height - 1)
        }),
{
    reveal(State::autoscroll);
}

// --- copying ---------------------------------------------------------------------------

proof fn lemma_copied_from(
    rows: Seq<rich::Row>,
    a: (usize, usize),
    b: (usize, usize),
    end: (usize, usize),
    li: int,
)
    requires
        a.0 < li,
        b.0 < li,
    ensures
        mouse::copied(rows, a, end, li) == mouse::copied(rows, b, end, li),
    decreases end.0 - li + 1,
{
    if 0 <= li && li <= end.0 && li < rows.len() {
        lemma_copied_from(rows, a, b, end, li + 1);
    }
}

/// The text of a selection over several lines: the rest of the first line, a newline, and
/// the text of the selection from the start of the next line on. It makes no difference
/// which way the mouse went.
pub proof fn law_selections_over_lines(s: State, first: usize, a: usize, last: usize, b: usize)
    requires
        first < last,
        last < s.shown_rows().len(),
        a <= rich::row_text(s.shown_rows()[first as int]).len(),
    ensures
        ({
            let rest = s.selected_text(
                Selection { anchor: ((first + 1) as usize, 0), cursor: (last, b) },
            );
            let text = rich::row_text(s.shown_rows()[first as int]).skip(a as int) + seq!['\n']
                + rest;
            &&& s.selected_text(Selection { anchor: (first, a), cursor: (last, b) }) == text
            &&& s.selected_text(Selection { anchor: (last, b), cursor: (first, a) }) == text
        }),
{
    let rows = s.shown_rows();
    let chars = rich::row_text(rows[first as int]);
    let (x, y, end) = ((first, a), ((first + 1) as usize, 0usize), (last, b));
    assert(chars.subrange(a as int, chars.len() as int) =~= chars.skip(a as int));
    let n = first + 1;
    // From the next line on both read the same.
    if n <= last && n < rows.len() {
        let line = rich::row_text(rows[n]);
        lemma_copied_from(rows, x, y, end, n + 1);
        assert(mouse::copied(rows, x, end, n) == mouse::copied(rows, y, end, n));
    }
}

/// What is copied: the selected text, if the selection is not empty and holds any text;
/// how much it was is announced.
pub proof fn law_what_is_copied(s: State)
    ensures
        ({
            let t = s.copy_selection();
            &&& s.pointer.selection is None ==> t == s
            &&& s.pointer.selection matches Some(sel) ==> {
                let text = s.selected_text(sel);
                &&& sel.anchor == sel.cursor ==> t == s
                &&& text.len() == 0 ==> t == s
                &&& sel.anchor != sel.cursor && text.len() > 0 ==> t.queue.pending_copy == Some(text)
                    && t.note.status == "copied "@ + txt::decimal(text.len()) + " chars"@
                &&& t.pane == s.pane && t.list == s.list
            }
        }),
{
    reveal(State::copy_selection);
}

/// The escape sequence that copies a text: OSC 52 with the text's bytes in base64.
pub proof fn law_copy_sequences(text: Seq<char>)
    ensures
        ({
            let r = crate::clipboard::copy_sequence(text);
            let payload = crate::clipboard::base64(vstd::utf8::encode_utf8(text));
            r == seq!['\x1b', ']', '5', '2', ';', 'c', ';'] + payload + seq!['\x07']
        }),
{
    reveal_strlit("\x1b]52;c;");
    assert("\x1b]52;c;"@ =~= seq!['\x1b', ']', '5', '2', ';', 'c', ';']);
}

/// The same in a history: its own view scrolls, and the selection goes along.
pub proof fn law_scrolling_along_in_a_history(s: State)
    requires
        s.pointer.selecting,
        s.pointer.selection is Some,
        s.history is Some,
        0 <= s.history->0.scroll <= 65535,
        s.history->0.text.len() > 0,
        s.history->0.text.len() <= usize::MAX,
    ensures
        ({
            let h = s.history->0;
            let t = s.autoscroll();
            let g = t.history->0;
            let height = s.pane.diff_viewport_height as int;
            let most = if h.text.len() <= height {
                0
            } else if h.text.len() - height > 65535 {
                65535
            } else {
                h.text.len() - height
            };
            &&& t.pane == s.pane && t.list == s.list
            &&& s.pointer.sel_autoscroll < 0 ==> {
                &&& h.scroll >= 3 ==> g.scroll == h.scroll - 3
                &&& h.scroll < 3 ==> g.scroll == 0
                &&& t.pointer.selection->Some_0.cursor.0 == g.scroll
                &&& t.pointer.selection->Some_0.cursor.1 == 0
            }
            &&& s.pointer.sel_autoscroll > 0 ==> {
                &&& h.scroll + 3 <= most ==> g.scroll == h.scroll + 3
                &&& h.scroll + 3 > most ==> g.scroll == most
                &&& t.pointer.selection->Some_0.cursor.1 == usize::MAX
                &&& height > 0 && g.scroll + height <= h.text.len()
                    ==> t.pointer.selection->Some_0.cursor.0 == g.scroll + height - 1
            }
            &&& t.pointer.selection->0.anchor == s.pointer.selection->0.anchor
        }),
{
    reveal(State::autoscroll);
}

} // verus!
