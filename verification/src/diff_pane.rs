//! The diff pane as it is drawn: its header, the visible rows with their
//! highlights, and the scrollbar rail with its marks.

use vstd::prelude::*;
use crate::app::{App, HistoryView};
use crate::geometry;
use crate::geometry::Rect;
use crate::git;
use crate::labels;
use crate::list_pane;
use crate::rich;
use crate::rich::{Highlight, Ink, Line, Row, Run, Span, REVERSED};
use crate::state;
use crate::state::{AppMatch, Past, Selection, State};
use crate::txt;

verus! {

// --- the header ----------------------------------------------------------------

impl Past {
    /// The suffix of the history header: commit position and scroll position.
    pub open spec fn suffix(self) -> Seq<char> {
        " ("@ + txt::decimal((self.pos + 1) as nat) + "/"@ + txt::decimal(self.entries.len())
            + ") ["@ + txt::decimal(self.scroll as nat) + "/"@ + txt::decimal(self.text.len())
            + "]"@
    }

    /// Whether the history header's columns can be counted.
    pub open spec fn header_fits(self) -> bool {
        &&& self.suffix().len() + (if self.commit().pre_branch {
            15int
        } else {
            3
        }) <= usize::MAX
        &&& self.commit().short_hash.len() + 14 <= usize::MAX
    }

    /// The header while browsing history: marker, historical path, short hash,
    /// subject, the pill of commits that predate the branch, then the positions.
    pub open spec fn header(self, width: u16) -> Seq<Run> {
        let dim = rich::colored(Ink::DarkGray);
        let c = self.commit();
        let (path_avail, hash_shown, subject_avail) = labels::history_split(
            geometry::minus(width as int, 1),
            c.path_at_commit.len() as int,
            c.short_hash.len() as int,
            self.suffix().len() as int,
            c.pre_branch,
        );
        seq![
            rich::styled(" ⟲ "@, rich::colored(Ink::Cyan)),
            rich::styled(labels::middle_cut(c.path_at_commit, path_avail), dim),
        ] + list_pane::run_if(
            hash_shown,
            rich::styled(" · "@ + c.short_hash, rich::colored(Ink::Cyan)),
        ) + list_pane::run_if(
            subject_avail > 0,
            rich::styled(
                " "@ + labels::end_cut(c.subject, subject_avail),
                rich::colored(Ink::Gray),
            ),
        ) + list_pane::run_if(
            c.pre_branch,
            rich::styled(
                " pre-branch "@,
                rich::with_modifier(rich::colored(Ink::Red), REVERSED),
            ),
        ) + seq![rich::styled(self.suffix(), dim)]
    }
}

impl State {
    /// The cue that the base branch has commits that `HEAD` doesn't.
    pub open spec fn behind_text(self) -> Seq<char> {
        match self.cues.behind {
            Some(n) if n > 0 => " ↓"@ + txt::decimal(n as nat),
            _ => Seq::empty(),
        }
    }

    /// The header of the live view.
    pub open spec fn live_header(self, width: u16) -> Seq<Run> {
        let dim = rich::colored(Ink::DarkGray);
        match self.current_entry() {
            None => seq![rich::styled(" DIFF"@, dim)],
            Some(e) => {
                let (start, end) = self.view_window();
                let position = labels::position_text(self.pane.diff_scroll, start, end);
                let behind = self.behind_text();
                let total = geometry::minus(
                    geometry::minus(width as int, 1),
                    (3 + behind.len() + position.len()) as int,
                );
                let (path_avail, base_avail) = labels::header_split(
                    total,
                    self.source.base_label.len() as int,
                );
                let base_label = labels::middle_cut(self.source.base_label, base_avail);
                seq![
                    rich::styled(
                        seq![' ', git::marker_of(e.kind), ' '],
                        rich::colored(labels::kind_color(e.kind)),
                    ),
                    rich::styled(labels::middle_cut(e.path, path_avail), dim),
                ] + list_pane::run_if(
                    base_label.len() > 0,
                    rich::styled("   "@ + base_label, dim),
                ) + seq![
                    rich::styled(behind, rich::colored(Ink::Yellow)),
                    rich::styled(position, dim),
                ]
            },
        }
    }

    /// The header of the diff pane.
    pub open spec fn diff_header(self, width: u16) -> Seq<Run> {
        match self.history {
            Some(h) => h.header(width),
            None => self.live_header(width),
        }
    }

    /// Whether the header's columns can be counted.
    pub open spec fn header_fits(self) -> bool {
        match self.history {
            Some(h) => h.header_fits(),
            None => self.current_entry() is Some ==> self.source.base_label.len() + 15
                <= usize::MAX,
        }
    }
}

/// The spans of the history header.
fn history_header(h: &HistoryView, width: u16) -> (r: Vec<Span>)
    requires
        0 <= h@.pos < h@.entries.len(),
        h@.header_fits(),
    ensures
        rich::runs(r@) == h@.header(width),
{
    let dim = rich::color_style(Ink::DarkGray);
    assert(h@.commit() == h.entries@[h.pos as int]@);
    assert(h@.text.len() == h.text.lines@.len());
    assert(h@.entries.len() == h.entries@.len());
    let count = h.entries.len();
    let entry = &h.entries[h.pos];
    let mut suffix = txt::numbered(" (", h.pos as u64 + 1);
    suffix.append("/");
    txt::push_decimal(&mut suffix, count as u64);
    suffix.append(") [");
    txt::push_decimal(&mut suffix, h.scroll as u64);
    suffix.append("/");
    txt::push_decimal(&mut suffix, h.text.lines.len() as u64);
    suffix.append("]");
    assert(suffix@ == h@.suffix());
    let (path_avail, hash_shown, subject_avail) = labels::history_header_widths(
        geometry::sub16(width, 1) as usize,
        txt::chars_of(entry.path_at_commit.as_str()).len(),
        txt::chars_of(entry.short_hash.as_str()).len(),
        txt::chars_of(suffix.as_str()).len(),
        entry.pre_branch,
    );
    let mut spans: Vec<Span> = Vec::new();
    assert(rich::runs(spans@) =~= Seq::<Run>::empty());
    rich::push_span(&mut spans, Span::styled(" ⟲ ".to_owned(), rich::color_style(Ink::Cyan)));
    rich::push_span(
        &mut spans,
        Span::styled(labels::truncate_middle(entry.path_at_commit.as_str(), path_avail), dim),
    );
    if hash_shown {
        let mut text = " · ".to_owned();
        text.append(entry.short_hash.as_str());
        rich::push_span(&mut spans, Span::styled(text, rich::color_style(Ink::Cyan)));
    }
    if subject_avail > 0 {
        let mut text = " ".to_owned();
        text.append(labels::truncate_end(entry.subject.as_str(), subject_avail).as_str());
        rich::push_span(&mut spans, Span::styled(text, rich::color_style(Ink::Gray)));
    }
    if entry.pre_branch {
        rich::push_span(
            &mut spans,
            Span::styled(
                " pre-branch ".to_owned(),
                rich::color_style(Ink::Red).add_modifier(REVERSED),
            ),
        );
    }
    rich::push_span(&mut spans, Span::styled(suffix, dim));
    assert(rich::runs(spans@) =~= h@.header(width));
    spans
}

impl App {
    /// The spans of the live view's header: change marker, path, base label, and
    /// scroll position.
    fn live_header(&self, width: u16) -> (r: Vec<Span>)
        requires
            self@.wf(),
            self@.history is None ==> self@.header_fits(),
            self@.history is None,
        ensures
            rich::runs(r@) == self@.live_header(width),
    {
        let dim = rich::color_style(Ink::DarkGray);
        let mut spans: Vec<Span> = Vec::new();
        assert(rich::runs(spans@) =~= Seq::<Run>::empty());
        match self.current_entry() {
            None => {
                rich::push_span(&mut spans, Span::styled(" DIFF".to_owned(), dim));
                assert(rich::runs(spans@) =~= self@.live_header(width));
                spans
            },
            Some(e) => {
                let (marker, color) = labels::marker_style(e.kind);
                let window = self.view_window();
                let position = labels::window_position(self.pane.diff_scroll as usize, window);
                let behind = match self.cues.behind {
                    Some(n) if n > 0 => txt::numbered(" ↓", n),
                    _ => {
                        let none = String::new();
                        assert(none@ =~= Seq::<char>::empty());
                        none
                    },
                };
                assert(behind@ == self@.behind_text());

                // Columns left for the path + base label, after the " M " marker
                // prefix and the never-truncated behind/position suffix.
                let wide = geometry::sub16(width, 1) as usize;
                let total = geometry::sub_size(
                    geometry::sub_size(
                        geometry::sub_size(wide, 3),
                        txt::chars_of(behind.as_str()).len(),
                    ),
                    txt::chars_of(position.as_str()).len(),
                );
                let (path_avail, base_avail) = labels::split_diff_header_width(
                    total,
                    txt::chars_of(self.source.base_label.as_str()).len(),
                );
                let base_label = labels::truncate_middle(
                    self.source.base_label.as_str(),
                    base_avail,
                );
                let mut mark = String::new();
                mark.push(' ');
                mark.push(marker);
                mark.push(' ');
                assert(mark@ =~= seq![' ', marker, ' ']);
                rich::push_span(&mut spans, Span::styled(mark, rich::color_style(color)));
                rich::push_span(
                    &mut spans,
                    Span::styled(labels::truncate_middle(e.path.as_str(), path_avail), dim),
                );
                if !base_label.as_str().is_empty() {
                    let mut text = "   ".to_owned();
                    text.append(base_label.as_str());
                    rich::push_span(&mut spans, Span::styled(text, dim));
                }
                rich::push_span(&mut spans, Span::styled(behind, rich::color_style(Ink::Yellow)));
                rich::push_span(&mut spans, Span::styled(position, dim));
                assert(rich::runs(spans@) =~= self@.live_header(width));
                spans
            },
        }
    }
}

// --- the visible rows ----------------------------------------------------------

/// The `[start, end)` column range of line `li`, `len` columns long, that falls
/// inside a selection.
pub open spec fn selected_columns(
    sel: ((usize, usize), (usize, usize)),
    li: int,
    len: int,
) -> Option<(int, int)> {
    let ((l0, c0), (l1, c1)) = sel;
    if li < l0 || li > l1 {
        None
    } else {
        Some(
            (
                geometry::lesser(
                    if li == l0 {
                        c0 as int
                    } else {
                        0
                    },
                    len,
                ),
                geometry::lesser(
                    if li == l1 {
                        c1 as int
                    } else {
                        len
                    },
                    len,
                ),
            ),
        )
    }
}

/// The `[start, end)` column range of line `li` that falls inside selection
/// `((l0, c0), (l1, c1))`, or `None` if the line isn't selected.
pub fn selection_span(sel: ((usize, usize), (usize, usize)), li: usize, len: usize) -> (r: Option<
    (usize, usize),
>)
    ensures
        match r {
            Some((cs, ce)) => selected_columns(sel, li as int, len as int) == Some(
                (cs as int, ce as int),
            ),
            None => selected_columns(sel, li as int, len as int) is None,
        },
{
    let ((l0, c0), (l1, c1)) = sel;
    if li < l0 || li > l1 {
        return None;
    }
    let cs = if li == l0 {
        c0
    } else {
        0
    };
    let ce = if li == l1 {
        c1
    } else {
        len
    };
    Some((geometry::min_size(cs, len), geometry::min_size(ce, len)))
}

/// `row`, which is row `li` of the combined diff, with the first `n` hits on it
/// made to stand out.
pub open spec fn lit_upto(
    row: Row,
    li: int,
    matches: Seq<AppMatch>,
    current: int,
    n: int,
) -> Row
    decreases n,
{
    if n <= 0 {
        row
    } else {
        let before = lit_upto(row, li, matches, current, n - 1);
        let m = matches[n - 1];
        if m.aligned && m.row == li && m.cols.1 > m.cols.0 {
            rich::restyled(
                before,
                m.cols.0 as int,
                m.cols.1 as int,
                if n - 1 == current {
                    Highlight::Current
                } else {
                    Highlight::Hit
                },
            )
        } else {
            before
        }
    }
}

/// `row`, which is row `li` of the shown view, with the selected columns made to
/// stand out.
pub open spec fn marked(row: Row, li: int, sel: Option<Selection>) -> Row {
    match sel {
        None => row,
        Some(s) => match selected_columns(state::ends(s), li, rich::width(row.runs) as int) {
            Some((cs, ce)) if ce > cs => rich::restyled(row, cs, ce, Highlight::Selected),
            _ => row,
        },
    }
}

impl State {
    /// The line range that the shown view may show.
    pub open spec fn shown_window(self) -> (int, int) {
        match self.history {
            Some(h) => (0, h.text.len() as int),
            None => self.view_window(),
        }
    }

    /// The scroll offset of the shown view.
    pub open spec fn shown_scroll(self) -> int {
        match self.history {
            Some(h) => h.scroll,
            None => self.pane.diff_scroll,
        }
    }

    /// The first visible line.
    pub open spec fn first_visible(self) -> int {
        let (start, end) = self.shown_window();
        geometry::lesser(geometry::greater(self.shown_scroll(), start), geometry::minus(end, 1))
    }

    /// The end of the visible lines in a pane of `height` rows.
    pub open spec fn end_visible(self, height: int) -> int {
        geometry::lesser(self.first_visible() + height, self.shown_window().1)
    }

    /// Line `li` as it is drawn: content-search hits stand out in the live view, and
    /// the selection stands out on top of them.
    pub open spec fn drawn_row(self, li: int) -> Row {
        let row = self.shown_rows()[li];
        let lit = if self.history is Some {
            row
        } else {
            lit_upto(
                row,
                li,
                self.find.matches,
                self.find.current_match,
                self.find.matches.len() as int,
            )
        };
        marked(lit, li, self.pointer.selection)
    }

    /// The visible lines up to `end`, as they are drawn.
    pub open spec fn drawn_upto(self, end: int) -> Seq<Row>
        decreases end,
    {
        if end <= self.first_visible() || end <= 0 {
            Seq::empty()
        } else {
            self.drawn_upto(end - 1).push(self.drawn_row(end - 1))
        }
    }
}

impl App {
    /// Line `li` with the content-search hits on it made to stand out.
    fn light(&self, line: Line, li: usize) -> (r: Line)
        ensures
            r@ == lit_upto(
                line@,
                li as int,
                self@.find.matches,
                self@.find.current_match,
                self@.find.matches.len() as int,
            ),
    {
        let ghost first = line@;
        let mut out = line;
        let mut i: usize = 0;
        while i < self.find.matches.len()
            invariant
                i <= self.find.matches@.len(),
                out@ == lit_upto(
                    first,
                    li as int,
                    self@.find.matches,
                    self@.find.current_match,
                    i as int,
                ),
            decreases self.find.matches@.len() - i,
        {
            let m = self.find.matches[i];
            if m.aligned && m.row == li && m.cols.1 > m.cols.0 {
                let how = if i == self.find.current_match {
                    Highlight::Current
                } else {
                    Highlight::Hit
                };
                out = rich::restyle_range(&out, m.cols.0, m.cols.1, how);
            }
            i = i + 1;
        }
        out
    }

    /// Line `li` of the shown view, as it is drawn.
    fn drawn_line(&self, li: usize) -> (r: Line)
        requires
            li < self@.shown_rows().len(),
        ensures
            r@ == self@.drawn_row(li as int),
    {
        let lit = match &self.history {
            Some(h) => {
                assert(self@.shown_rows()[li as int] == h.text.lines@[li as int]@);
                h.text.lines[li].clone()
            },
            None => {
                assert(self@.shown_rows()[li as int] == self.pane.combined.lines@[li as int]@);
                self.light(self.pane.combined.lines[li].clone(), li)
            },
        };
        // Selection highlight applies on top of match highlights.
        match self.pointer.selection {
            None => lit,
            Some(sel) => match selection_span(sel.ordered(), li, rich::line_len(&lit)) {
                Some((cs, ce)) if ce > cs => rich::restyle_range(&lit, cs, ce, Highlight::Selected),
                _ => lit,
            },
        }
    }

    /// The line range that the shown view may show.
    fn shown_window(&self) -> (r: (usize, usize))
        requires
            self@.wf(),
        ensures
            r.0 == self@.shown_window().0,
            r.1 == self@.shown_window().1,
            r.0 <= r.1,
            r.1 <= self@.shown_rows().len(),
    {
        match &self.history {
            Some(h) => {
                assert(h@.text.len() == h.text.lines@.len());
                (0, h.text.lines.len())
            },
            None => {
                proof {
                    reveal(State::wf);
                    reveal(State::steady);
                }
                self.view_window()
            },
        }
    }

    fn shown_scroll(&self) -> (r: u16)
        ensures
            r == self@.shown_scroll(),
    {
        match &self.history {
            Some(h) => h.scroll,
            None => self.pane.diff_scroll,
        }
    }

    /// The visible lines in a pane of `height` rows, as they are drawn.
    fn drawn_lines(&self, height: u16) -> (r: Vec<Line>)
        requires
            self@.wf(),
        ensures
            rich::rows(r@) == self@.drawn_upto(self@.end_visible(height as int)),
    {
        let (win_start, win_end) = self.shown_window();
        let scroll = self.shown_scroll() as usize;
        let from = if scroll >= win_start {
            scroll
        } else {
            win_start
        };
        let start = geometry::min_size(from, geometry::sub_size(win_end, 1));
        let end: usize = start + geometry::min_size(height as usize, win_end - start);
        assert(start == self@.first_visible());
        assert(end == self@.end_visible(height as int));
        let mut out: Vec<Line> = Vec::new();
        let mut li: usize = start;
        assert(rich::rows(out@) =~= self@.drawn_upto(start as int));
        while li < end
            invariant
                start <= li <= end,
                end <= self@.shown_rows().len(),
                start == self@.first_visible(),
                rich::rows(out@) == self@.drawn_upto(li as int),
            decreases end - li,
        {
            rich::push_line(&mut out, self.drawn_line(li));
            li = li + 1;
        }
        out
    }
}

// --- the scrollbar rail --------------------------------------------------------

/// A content-search mark on the scrollbar rail. The current match is drawn last, so
/// it wins its cell.
#[derive(Debug, Clone, Copy, PartialEq, Eq, Structural)]
pub struct Mark {
    pub y: u16,
    pub current: bool,
}

/// The scrollbar rail.
pub struct Rail {
    pub area: Rect,
    /// How far the view scrolls.
    pub length: usize,
    /// How far it is scrolled.
    pub position: usize,
    pub marks: Vec<Mark>,
}

impl State {
    /// Whether match `i` can be marked on the rail: it was located, within the window.
    pub open spec fn markable(self, i: int) -> bool {
        let (start, end) = self.view_window();
        let m = self.find.matches[i];
        m.aligned && start <= m.row < end
    }

    /// The rail cell that match `i` is marked at, on a rail of `height` cells from
    /// row `top`.
    pub open spec fn mark_row(self, i: int, top: int, height: int) -> int {
        let (start, end) = self.view_window();
        top + geometry::rail_cell(self.find.matches[i].row - start, end - start, height)
    }

    /// The marks of the first `n` matches but the current one.
    pub open spec fn marks_upto(self, top: int, height: int, n: int) -> Seq<Mark>
        decreases n,
    {
        if n <= 0 {
            Seq::empty()
        } else if self.markable(n - 1) && n - 1 != self.find.current_match {
            self.marks_upto(top, height, n - 1).push(
                Mark { y: self.mark_row(n - 1, top, height) as u16, current: false },
            )
        } else {
            self.marks_upto(top, height, n - 1)
        }
    }

    /// Whether matches are marked on a rail of `height` cells.
    pub open spec fn shows_marks(self, height: int) -> bool {
        self.history is None && self.is_content_search() && self.find.matches.len() > 0 && height
            > 0
    }

    /// The marks on a rail of `height` cells from row `top`.
    pub open spec fn marks(self, top: int, height: int) -> Seq<Mark> {
        let n = self.find.matches.len() as int;
        let at = self.find.current_match;
        if !self.shows_marks(height) {
            Seq::empty()
        } else if at < n && self.markable(at) {
            self.marks_upto(top, height, n).push(
                Mark { y: self.mark_row(at, top, height) as u16, current: true },
            )
        } else {
            self.marks_upto(top, height, n)
        }
    }

    /// Whether marking match `i` stays within machine numbers.
    pub open spec fn mark_fits(self, i: int, top: int, height: int) -> bool {
        self.markable(i) ==> {
            &&& (self.find.matches[i].row - self.view_window().0) * (height - 1) <= usize::MAX
            &&& self.mark_row(i, top, height) <= u16::MAX
        }
    }

    /// Whether marking the matches stays within machine numbers.
    pub open spec fn marks_fit(self, top: int, height: int) -> bool {
        self.shows_marks(height) ==> forall|i: int|
            0 <= i < self.find.matches.len() ==> #[trigger] self.mark_fits(i, top, height)
    }

    /// What stands in place of a diff, if there is none.
    pub open spec fn placeholder(self) -> Option<Seq<char>> {
        if self.history is Some {
            None
        } else if self.list.files.len() == 0 {
            Some("✨ clean working tree — nothing changed"@)
        } else if self.list.filtered.len() == 0 {
            Some("no files match the current filters"@)
        } else if self.pane.combined.len() == 0 {
            Some("rendering diffs…"@)
        } else {
            None
        }
    }

    /// Whether there is more than one screen, in a pane of `height` rows.
    pub open spec fn shows_rail(self, height: int) -> bool {
        self.shown_window().1 - self.shown_window().0 > height
    }

    /// Whether drawing the diff pane stays within machine numbers.
    pub open spec fn diff_fits(self, area: Rect) -> bool {
        area.height > 0 ==> {
            &&& self.header_fits()
            &&& area.y + 1 <= u16::MAX
            &&& self.placeholder() is None && self.shows_rail(area.height - 1) ==> {
                &&& area.x + geometry::minus(area.width as int, 1) <= u16::MAX
                &&& self.marks_fit(area.y + 1, area.height - 1)
            }
        }
    }
}

/// The content of the diff pane.
pub enum DiffBody {
    /// A message in place of a diff.
    Placeholder(String),
    /// The visible lines, and the scrollbar rail when there is more than one screen.
    Lines(Vec<Line>, Option<Rail>),
}

/// The diff pane, ready to be put on the screen.
pub struct DiffPane {
    pub header: Line,
    pub header_area: Rect,
    /// Below the header, left of the reserved rail column.
    pub inner: Rect,
    pub body: DiffBody,
}

impl DiffPane {
    /// Whether the pane shows state `s` in `area`.
    pub open spec fn shows(self, s: State, area: Rect) -> bool {
        &&& self.header@ == rich::row_of(s.diff_header(area.width))
        &&& self.header_area == (Rect { height: 1, ..area })
        &&& self.inner == (Rect {
            x: area.x,
            y: (area.y + 1) as u16,
            width: geometry::minus(area.width as int, 1) as u16,
            height: (area.height - 1) as u16,
        })
        &&& match self.body {
            DiffBody::Placeholder(text) => s.placeholder() == Some(text@),
            DiffBody::Lines(lines, rail) => {
                &&& s.placeholder() is None
                &&& rich::rows(lines@) == s.drawn_upto(s.end_visible(area.height - 1))
                &&& rail is Some <==> s.shows_rail(area.height - 1)
                &&& rail matches Some(rail) ==> rail.shows(s, area)
            },
        }
    }
}

impl Rail {
    /// Whether the rail of a pane in `area` shows state `s`.
    pub open spec fn shows(self, s: State, area: Rect) -> bool {
        &&& self.area == (Rect {
            x: (area.x + geometry::minus(area.width as int, 1)) as u16,
            y: (area.y + 1) as u16,
            width: 1,
            height: (area.height - 1) as u16,
        })
        &&& self.length == s.shown_window().1 - s.shown_window().0 - (area.height - 1)
        &&& self.position == geometry::minus(s.shown_scroll(), s.shown_window().0)
        &&& self.marks@ == s.marks(area.y + 1, area.height - 1)
    }
}

impl App {
    /// Marks match `i` on the rail.
    fn mark(&self, i: usize, current: bool, top: u16, height: u16) -> (r: Mark)
        requires
            self@.wf(),
            i < self@.find.matches.len(),
            height > 0,
            self@.markable(i as int),
            self@.mark_fits(i as int, top as int, height as int),
        ensures
            r == (Mark {
                y: self@.mark_row(i as int, top as int, height as int) as u16,
                current,
            }),
    {
        let (start, end) = self.view_window();
        let row: usize = self.find.matches[i].row - start;
        let y = geometry::rail_y(row, end - start, height);
        Mark { y: top + y, current }
    }

    fn markable(&self, i: usize) -> (r: bool)
        requires
            self@.wf(),
            i < self@.find.matches.len(),
        ensures
            r == self@.markable(i as int),
    {
        let (start, end) = self.view_window();
        let m = self.find.matches[i];
        m.aligned && m.row >= start && m.row < end
    }

    /// Content-search match markers on the rail: a mark per match, the current match
    /// last.
    fn rail_marks(&self, top: u16, height: u16) -> (r: Vec<Mark>)
        requires
            self@.wf(),
            self@.marks_fit(top as int, height as int),
        ensures
            r@ == self@.marks(top as int, height as int),
    {
        let n = self.find.matches.len();
        let mut out: Vec<Mark> = Vec::new();
        if self.history.is_some() || !self.is_content_search() || n == 0 || height == 0 {
            assert(out@ =~= self@.marks(top as int, height as int));
            return out;
        }
        let mut i: usize = 0;
        assert(out@ =~= self@.marks_upto(top as int, height as int, 0));
        while i < n
            invariant
                i <= n,
                n == self@.find.matches.len(),
                self@.wf(),
                height > 0,
                self@.shows_marks(height as int),
                self@.marks_fit(top as int, height as int),
                out@ == self@.marks_upto(top as int, height as int, i as int),
            decreases n - i,
        {
            assert(self@.mark_fits(i as int, top as int, height as int));
            if self.markable(i) && i != self.find.current_match {
                out.push(self.mark(i, false, top, height));
            }
            i = i + 1;
        }
        let at = self.find.current_match;
        if at < n {
            assert(self@.mark_fits(at as int, top as int, height as int));
            if self.markable(at) {
                out.push(self.mark(at, true, top, height));
            }
        }
        out
    }

    fn placeholder(&self) -> (r: Option<String>)
        ensures
            txt::opt_text(r) == self@.placeholder(),
    {
        assert(self@.list.files.len() == self.list.files@.len());
        assert(self@.pane.combined.len() == self.pane.combined.lines@.len());
        if self.history.is_some() {
            None
        } else if self.list.files.len() == 0 {
            Some("✨ clean working tree — nothing changed".to_owned())
        } else if self.list.filtered.len() == 0 {
            Some("no files match the current filters".to_owned())
        } else if self.pane.combined.lines.len() == 0 {
            Some("rendering diffs…".to_owned())
        } else {
            None
        }
    }

    /// Draws the diff pane into `area`: the pane to put on the screen, or nothing if
    /// it has no rows.
    pub fn draw_diff(&self, area: Rect) -> (r: Option<DiffPane>)
        requires
            self@.wf(),
            self@.diff_fits(area),
        ensures
            r is Some <==> area.height > 0,
            r matches Some(pane) ==> pane.shows(self@, area),
    {
        if area.height == 0 {
            return None;
        }
        proof {
            reveal(State::wf);
            reveal(State::steady);
        }
        let header = rich::line_of(
            match &self.history {
                Some(h) => history_header(h, area.width),
                None => self.live_header(area.width),
            },
        );
        let header_area = Rect { x: area.x, y: area.y, width: area.width, height: 1 };
        // Content area: below the header, left of the reserved rail column.
        let inner = Rect {
            x: area.x,
            y: area.y + 1,
            width: geometry::sub16(area.width, 1),
            height: area.height - 1,
        };
        if let Some(text) = self.placeholder() {
            return Some(
                DiffPane { header, header_area, inner, body: DiffBody::Placeholder(text) },
            );
        }
        // Just the visible window, with the highlights applied, so the whole combined
        // diff is never copied.
        let lines = self.drawn_lines(inner.height);
        let (win_start, win_end) = self.shown_window();
        let win_len: usize = win_end - win_start;
        let rail = if win_len > inner.height as usize {
            Some(
                Rail {
                    area: Rect {
                        x: area.x + geometry::sub16(area.width, 1),
                        y: inner.y,
                        width: 1,
                        height: inner.height,
                    },
                    length: win_len - inner.height as usize,
                    position: geometry::sub_size(self.shown_scroll() as usize, win_start),
                    marks: self.rail_marks(inner.y, inner.height),
                },
            )
        } else {
            None
        };
        Some(DiffPane { header, header_area, inner, body: DiffBody::Lines(lines, rail) })
    }

    /// Whether the header's columns can be counted.
    fn can_draw_header(&self) -> (r: bool)
        requires
            self@.wf(),
        ensures
            r == self@.header_fits(),
    {
        match &self.history {
            Some(h) => {
                proof {
                    reveal(State::wf);
                    reveal(State::steady);
                }
                assert(h@.commit() == h.entries@[h.pos as int]@);
                assert(h@.text.len() == h.text.lines@.len());
                assert(h@.entries.len() == h.entries@.len());
                let count = h.entries.len();
                let mut suffix = txt::numbered(" (", h.pos as u64 + 1);
                suffix.append("/");
                txt::push_decimal(&mut suffix, count as u64);
                suffix.append(") [");
                txt::push_decimal(&mut suffix, h.scroll as u64);
                suffix.append("/");
                txt::push_decimal(&mut suffix, h.text.lines.len() as u64);
                suffix.append("]");
                assert(suffix@ == h@.suffix());
                let fixed: usize = if h.entries[h.pos].pre_branch {
                    15
                } else {
                    3
                };
                txt::chars_of(suffix.as_str()).len() <= usize::MAX - fixed && txt::chars_of(
                    h.entries[h.pos].short_hash.as_str(),
                ).len() <= usize::MAX - 14
            },
            None => match self.current_entry() {
                Some(_) => txt::chars_of(self.source.base_label.as_str()).len() <= usize::MAX - 15,
                None => true,
            },
        }
    }

    /// Whether marking the matches stays within machine numbers.
    fn can_mark(&self, top: u16, height: u16) -> (r: bool)
        requires
            self@.wf(),
        ensures
            r == self@.marks_fit(top as int, height as int),
    {
        let n = self.find.matches.len();
        if self.history.is_some() || !self.is_content_search() || n == 0 || height == 0 {
            return true;
        }
        let (start, end) = self.view_window();
        let mut i: usize = 0;
        while i < n
            invariant
                i <= n,
                n == self@.find.matches.len(),
                self@.wf(),
                height > 0,
                start == self@.view_window().0,
                end == self@.view_window().1,
                self@.shows_marks(height as int),
                forall|j: int| 0 <= j < i ==> #[trigger] self@.mark_fits(
                    j,
                    top as int,
                    height as int,
                ),
            decreases n - i,
        {
            if self.markable(i) {
                let row: usize = self.find.matches[i].row - start;
                assert(row * (height - 1) <= 0xffff_ffff_ffff_ffff * 0xffff) by (nonlinear_arith)
                    requires
                        row <= 0xffff_ffff_ffff_ffff,
                        1 <= height <= 0xffff,
                ;
                assert(row * (height - 1) >= 0) by (nonlinear_arith)
                    requires
                        row >= 0,
                        height >= 1,
                ;
                let product: u128 = row as u128 * (height as u128 - 1);
                if product > usize::MAX as u128 {
                    assert(!self@.mark_fits(i as int, top as int, height as int));
                    return false;
                }
                proof {
                    let last = geometry::minus(end - start, 1);
                    assert(geometry::lesser(row as int, last) == row);
                }
                let y = geometry::rail_y(row, end - start, height);
                if top as u32 + y as u32 > 65535 {
                    assert(!self@.mark_fits(i as int, top as int, height as int));
                    return false;
                }
            }
            assert(self@.mark_fits(i as int, top as int, height as int));
            i = i + 1;
        }
        true
    }

    /// Whether drawing the diff pane stays within machine numbers.
    pub fn can_draw_diff(&self, area: Rect) -> (r: bool)
        requires
            self@.wf(),
        ensures
            r == self@.diff_fits(area),
    {
        if area.height == 0 {
            return true;
        }
        if !self.can_draw_header() || area.y > 65534 {
            return false;
        }
        if self.placeholder().is_some() {
            return true;
        }
        let (start, end) = self.shown_window();
        if end - start <= (area.height - 1) as usize {
            return true;
        }
        area.x as u32 + geometry::sub16(area.width, 1) as u32 <= 65535 && self.can_mark(
            area.y + 1,
            area.height - 1,
        )
    }
}

} // verus!
