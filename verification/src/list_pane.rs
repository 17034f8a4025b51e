//! The file list as it is drawn: its header, the rows of chips, and one row for
//! each filtered file.

use vstd::prelude::*;
use crate::app::App;
use crate::geometry;
use crate::geometry::Rect;
use crate::git;
use crate::git::{ChangeKind, Entry, KIND_ORDER};
use crate::labels;
use crate::mouse;
use crate::mouse::Hover;
use crate::rich;
use crate::rich::{Ink, Line, Row, Run, Span, Style, BOLD, REVERSED};
use crate::sort;
use crate::state;
use crate::state::{AppMatch, KindSet, Marquee, State, Target};
use crate::txt;

verus! {

// --- the model -----------------------------------------------------------------

/// `run`, if `shown`.
pub open spec fn run_if(shown: bool, run: Run) -> Seq<Run> {
    if shown {
        seq![run]
    } else {
        Seq::empty()
    }
}

/// How many of the first `n` hits belong to the filtered file at position `pos`.
pub open spec fn hits_upto(matches: Seq<AppMatch>, pos: int, n: int) -> nat
    decreases n,
{
    if n <= 0 {
        0
    } else {
        hits_upto(matches, pos, n - 1) + if matches[n - 1].file_pos == pos {
            1nat
        } else {
            0
        }
    }
}

/// How many hits belong to the filtered file at position `pos`.
pub open spec fn hits_of(matches: Seq<AppMatch>, pos: int) -> nat {
    hits_upto(matches, pos, matches.len() as int)
}

/// A line count, if it is more than zero.
pub open spec fn count_shown(n: Option<u32>) -> nat {
    match n {
        Some(n) => n as nat,
        None => 0,
    }
}

/// The runs of a pair of line counts; zero counts are left out.
pub open spec fn stat_runs(added: nat, removed: nat) -> Seq<Run> {
    run_if(
        added > 0,
        rich::styled(" +"@ + txt::decimal(added), rich::colored(Ink::Green)),
    ) + run_if(
        removed > 0,
        rich::styled(" -"@ + txt::decimal(removed), rich::colored(Ink::Red)),
    )
}

/// The right-hand side of a file's row: its line counts, the recently-changed cue,
/// and its content-search hits.
pub open spec fn tail_runs(e: Entry, recent: bool, hits: nat) -> Seq<Run> {
    stat_runs(count_shown(e.added), count_shown(e.removed)) + run_if(
        recent,
        rich::styled(" ●"@, rich::colored(Ink::Cyan)),
    ) + run_if(hits > 0, rich::styled(" ×"@ + txt::decimal(hits), rich::colored(Ink::Yellow)))
}

/// The style of a chip that is on or off.
pub open spec fn chip_style(on: bool, color: Ink) -> Style {
    if on {
        rich::with_modifier(rich::colored(color), REVERSED | BOLD)
    } else {
        rich::colored(Ink::DarkGray)
    }
}

/// The chips of the first `n` change kinds.
pub open spec fn kind_chips_upto(
    on: KindSet,
    hover: Option<Target>,
    n: int,
) -> Seq<Run>
    decreases n,
{
    if n <= 0 {
        seq![rich::raw(" "@)]
    } else {
        let kind = KIND_ORDER[n - 1];
        kind_chips_upto(on, hover, n - 1).push(
            rich::styled(
                seq!['[', git::marker_of(kind), ']'],
                labels::underlined_if(
                    chip_style(state::has_kind(on, kind), labels::kind_color(kind)),
                    hover == Some(Target::KindChip(kind)),
                ),
            ),
        )
    }
}

/// The chips of the first `n` file types.
pub open spec fn type_chips_upto(
    types: Seq<Seq<char>>,
    on: Set<Seq<char>>,
    hover: Option<Target>,
    n: int,
) -> Seq<Run>
    decreases n,
{
    if n <= 0 {
        seq![rich::raw(" "@)]
    } else {
        let ext = types[n - 1];
        type_chips_upto(types, on, hover, n - 1).push(
            rich::styled(
                "[."@ + ext + "]"@,
                labels::underlined_if(
                    chip_style(on.contains(ext), labels::extension_color(ext)),
                    hover == Some(Target::FileType(ext)),
                ),
            ),
        ).push(rich::raw(" "@))
    }
}

impl State {
    /// With the file you're looking at no longer "recently changed".
    pub open spec fn view_current(self) -> State {
        match self.current_entry() {
            Some(e) => self.mark_viewed(e.path),
            None => self,
        }
    }

    /// With the marquee at its start if the selection changed.
    pub open spec fn track_marquee(self) -> State {
        if self.list.selected != self.marquee.sel {
            State {
                marquee: Marquee { sel: self.list.selected as usize, ..self.marquee },
                ..self
            }.marquee_reset()
        } else {
            self
        }
    }

    /// The added lines of the first `n` filtered files.
    pub open spec fn added_upto(self, n: int) -> nat
        decreases n,
    {
        if n <= 0 {
            0
        } else {
            self.added_upto(n - 1) + count_shown(self.filtered_entry(n - 1).added)
        }
    }

    /// The removed lines of the first `n` filtered files.
    pub open spec fn removed_upto(self, n: int) -> nat
        decreases n,
    {
        if n <= 0 {
            0
        } else {
            self.removed_upto(n - 1) + count_shown(self.filtered_entry(n - 1).removed)
        }
    }

    /// Whether the changeset's line counts fit a `u32`.
    pub open spec fn totals_fit(self) -> bool {
        let n = self.list.filtered.len() as int;
        self.added_upto(n) <= u32::MAX && self.removed_upto(n) <= u32::MAX
    }

    /// The right-hand side of the row of the filtered file at position `row`.
    pub open spec fn tail_at(self, row: int) -> Seq<Run> {
        let e = self.filtered_entry(row);
        tail_runs(
            e,
            self.cues.recently_changed.contains(e.path),
            hits_of(self.find.matches, row),
        )
    }

    /// The columns that the path at position `row` has, of `row_w`.
    pub open spec fn path_columns(self, row: int, row_w: int) -> int {
        geometry::minus(row_w, 2 + rich::width(self.tail_at(row)) as int)
    }

    /// Whether the path at position `row` is scrolled: it is the selected one and
    /// overflows columns in which it can be read.
    pub open spec fn scrolls_path(self, row: int, row_w: int) -> bool {
        let avail = self.path_columns(row, row_w);
        row == self.list.selected && self.filtered_entry(row).path.len() > avail && avail > 4
    }

    /// The row of the filtered file at position `row`.
    pub open spec fn file_row(self, row: int, row_w: int, hover: Option<Target>) -> Row {
        let e = self.filtered_entry(row);
        let avail = self.path_columns(row, row_w);
        let path = if self.scrolls_path(row, row_w) {
            labels::scrolled_name(e.path, avail as nat, self.marquee.offset as int)
        } else {
            labels::middle_cut(e.path, avail)
        };
        Row {
            runs: seq![
                rich::styled(
                    seq![git::marker_of(e.kind), ' '],
                    rich::colored(labels::kind_color(e.kind)),
                ),
                rich::raw(path),
            ] + self.tail_at(row),
            style: labels::underlined_if(
                rich::unstyled(),
                hover == Some(Target::FileRow(row)),
            ),
        }
    }

    /// The rows of the first `n` filtered files.
    pub open spec fn file_rows_upto(self, row_w: int, hover: Option<Target>, n: int) -> Seq<Row>
        decreases n,
    {
        if n <= 0 {
            Seq::empty()
        } else {
            self.file_rows_upto(row_w, hover, n - 1).push(self.file_row(n - 1, row_w, hover))
        }
    }

    /// Whether the selected file's name is scrolled.
    pub open spec fn overflows(self, row_w: int) -> bool {
        self.list.selected < self.list.filtered.len() && self.scrolls_path(
            self.list.selected,
            row_w,
        )
    }

    /// The left part of the header: how many files changed.
    pub open spec fn header_title(self) -> Seq<char> {
        " CHANGES ("@ + txt::decimal(self.list.filtered.len()) + ")"@
    }

    /// The header of the file list in `avail` columns: the changeset summary on the
    /// left, with line counts if they fit, and the sort order on the right.
    pub open spec fn list_header(self, avail: int, hover: Option<Target>) -> Seq<Run> {
        let n = self.list.filtered.len() as int;
        let stats = stat_runs(self.added_upto(n), self.removed_upto(n));
        let base_w = self.header_title().len() as int;
        let right_w = self.order_width();
        let shown = if base_w + rich::width(stats) + right_w <= avail {
            stats
        } else {
            Seq::empty()
        };
        let pad = geometry::minus(avail, base_w + rich::width(shown) + right_w);
        seq![
            rich::styled(
                self.header_title(),
                rich::with_modifier(rich::colored(Ink::DarkGray), BOLD),
            ),
        ] + shown + seq![rich::raw(txt::repeated(' ', pad as nat))] + self.order_runs(hover)
    }

    /// The columns of the sort order.
    pub open spec fn order_width(self) -> int {
        (sort::field_name(self.list.sort_field).len() + 1 + sort::arrow(self.list.sort_desc).len()) as int
    }

    /// The sort order: the field and the direction.
    pub open spec fn order_runs(self, hover: Option<Target>) -> Seq<Run> {
        let dim = rich::colored(Ink::DarkGray);
        seq![
            rich::styled(
                sort::field_name(self.list.sort_field),
                labels::underlined_if(dim, hover == Some(Target::SortLabel)),
            ),
            rich::styled(" "@, dim),
            rich::styled(
                sort::arrow(self.list.sort_desc),
                labels::underlined_if(dim, hover == Some(Target::SortArrow)),
            ),
        ]
    }

    /// The state after drawing the file list in `width` columns.
    pub open spec fn after_list(self, width: u16) -> State {
        let s = self.view_current().track_marquee();
        State {
            marquee: Marquee {
                active_path_overflow: s.overflows(geometry::minus(width as int, 2)),
                ..s.marquee
            },
            ..s
        }
    }
}

/// What the file list shows.
pub struct ListShown {
    pub rows: Seq<Row>,
    pub header: Row,
    pub kind_chips: Row,
    pub type_chips: Row,
}

impl State {
    /// What the file list shows in `width` columns.
    pub open spec fn list_shown(self, width: u16) -> ListShown {
        let hover = self.hover_target();
        ListShown {
            rows: self.file_rows_upto(
                geometry::minus(width as int, 2),
                hover,
                self.list.filtered.len() as int,
            ),
            header: rich::row_of(self.list_header(geometry::minus(width as int, 1), hover)),
            kind_chips: rich::row_of(kind_chips_upto(self.find.kind_filter, hover, 5)),
            type_chips: rich::row_of(
                type_chips_upto(
                    self.list.file_types,
                    self.find.file_type_filter,
                    hover,
                    self.list.file_types.len() as int,
                ),
            ),
        }
    }
}

// --- drawing -------------------------------------------------------------------

/// The file list, ready to be put on the screen.
pub struct ListPane {
    pub rows: Vec<Line>,
    pub header: Line,
    pub kind_chips: Line,
    pub type_chips: Line,
    /// The highlighted row.
    pub selected: Option<usize>,
    pub header_area: Rect,
    pub kind_area: Rect,
    pub type_area: Rect,
    pub list_area: Rect,
}

impl ListPane {
    /// What the pane shows.
    pub open spec fn shown(self) -> ListShown {
        ListShown {
            rows: rich::rows(self.rows@),
            header: self.header@,
            kind_chips: self.kind_chips@,
            type_chips: self.type_chips@,
        }
    }

    /// Whether the pane shows state `s` in `area`.
    pub open spec fn shows(self, s: State, area: Rect) -> bool {
        &&& self.shown() == s.list_shown(area.width)
        &&& self.selected == (if s.list.filtered.len() == 0 {
            None
        } else {
            Some(s.list.selected as usize)
        })
        &&& self.header_area == (Rect { height: 1, ..area })
        &&& self.kind_area == (Rect { y: (area.y + 1) as u16, height: 1, ..area })
        &&& self.type_area == (Rect { y: (area.y + 2) as u16, height: 1, ..area })
        &&& self.list_area == (Rect {
            y: (area.y + 3) as u16,
            height: geometry::minus(area.height as int, 3) as u16,
            ..area
        })
    }
}

/// The spans of a pair of line counts; zero counts are left out.
fn stat_spans(added: u32, removed: u32) -> (r: Vec<Span>)
    ensures
        rich::runs(r@) == stat_runs(added as nat, removed as nat),
{
    let mut out: Vec<Span> = Vec::new();
    assert(rich::runs(out@) =~= Seq::<Run>::empty());
    if added > 0 {
        rich::push_span(
            &mut out,
            Span::styled(txt::numbered(" +", added as u64), rich::color_style(Ink::Green)),
        );
    }
    if removed > 0 {
        rich::push_span(
            &mut out,
            Span::styled(txt::numbered(" -", removed as u64), rich::color_style(Ink::Red)),
        );
    }
    assert(rich::runs(out@) =~= stat_runs(added as nat, removed as nat));
    out
}

fn count_of(n: Option<u32>) -> (r: u32)
    ensures
        r == count_shown(n),
{
    match n {
        Some(n) => n,
        None => 0,
    }
}

fn chip(on: bool, color: Ink) -> (r: Style)
    ensures
        r == chip_style(on, color),
{
    if on {
        rich::color_style(color).add_modifier(REVERSED | BOLD)
    } else {
        rich::color_style(Ink::DarkGray)
    }
}

/// How many hits belong to each of `n` filtered files.
fn hit_counts(matches: &Vec<AppMatch>, n: usize) -> (r: Vec<usize>)
    ensures
        r@.len() == n,
        forall|pos: int| 0 <= pos < n ==> #[trigger] r@[pos] == hits_of(matches@, pos),
{
    let mut counts: Vec<usize> = Vec::new();
    let mut i: usize = 0;
    while i < n
        invariant
            i <= n,
            counts@.len() == i,
            forall|pos: int| 0 <= pos < i ==> #[trigger] counts@[pos] == 0,
        decreases n - i,
    {
        counts.push(0);
        i = i + 1;
    }
    let total = matches.len();
    let mut k: usize = 0;
    while k < total
        invariant
            k <= total,
            total == matches@.len(),
            counts@.len() == n,
            forall|pos: int| 0 <= pos < n ==> #[trigger] counts@[pos] == hits_upto(
                matches@,
                pos,
                k as int,
            ),
            forall|pos: int| 0 <= pos < n ==> #[trigger] counts@[pos] <= k,
        decreases total - k,
    {
        let at = matches[k].file_pos;
        let ghost was = counts@;
        if at < n {
            let c = counts[at];
            assert(was[at as int] <= k);
            counts.set(at, c + 1);
        }
        proof {
            assert forall|pos: int| 0 <= pos < n implies #[trigger] counts@[pos] == hits_upto(
                matches@,
                pos,
                k as int + 1,
            ) && counts@[pos] <= k + 1 by {
                assert(was[pos] == hits_upto(matches@, pos, k as int));
                assert(was[pos] <= k);
            }
        }
        k = k + 1;
    }
    counts
}

/// Whether a hover names the filtered file at position `row`.
fn hovers_row(hover: &Option<Hover>, row: usize) -> (r: bool)
    ensures
        r == (mouse::target(*hover) == Some(Target::FileRow(row as int))),
{
    match hover {
        Some(Hover::FileRow(i)) => *i == row,
        _ => false,
    }
}

fn hovers_kind(hover: &Option<Hover>, kind: ChangeKind) -> (r: bool)
    ensures
        r == (mouse::target(*hover) == Some(Target::KindChip(kind))),
{
    match hover {
        Some(Hover::KindChip(k)) => *k == kind,
        _ => false,
    }
}

fn hovers_type(hover: &Option<Hover>, ext: &str) -> (r: bool)
    ensures
        r == (mouse::target(*hover) == Some(Target::FileType(ext@))),
{
    match hover {
        Some(Hover::FileType(e)) => txt::same(e.as_str(), ext),
        _ => false,
    }
}

fn hovers_label(hover: &Option<Hover>) -> (r: bool)
    ensures
        r == (mouse::target(*hover) == Some(Target::SortLabel)),
{
    match hover {
        Some(Hover::SortLabel) => true,
        _ => false,
    }
}

fn hovers_arrow(hover: &Option<Hover>) -> (r: bool)
    ensures
        r == (mouse::target(*hover) == Some(Target::SortArrow)),
{
    match hover {
        Some(Hover::SortArrow) => true,
        _ => false,
    }
}

/// The row of kind chips: always visible and clickable, mirrors the `c`-mode pills
/// so click and keyboard toggling stay in sync.
fn kind_chip_line(on: &KindSet, hover: &Option<Hover>) -> (r: Line)
    ensures
        r@ == rich::row_of(kind_chips_upto(*on, mouse::target(*hover), 5)),
{
    let ghost h = mouse::target(*hover);
    let mut spans: Vec<Span> = Vec::new();
    rich::push_span(&mut spans, Span::raw(" ".to_owned()));
    assert(rich::runs(spans@) =~= kind_chips_upto(*on, h, 0));
    let mut i: usize = 0;
    while i < 5
        invariant
            i <= 5,
            h == mouse::target(*hover),
            rich::runs(spans@) == kind_chips_upto(*on, h, i as int),
        decreases 5 - i,
    {
        let kind = KIND_ORDER[i];
        let (marker, color) = labels::marker_style(kind);
        let mut text = String::new();
        text.push('[');
        text.push(marker);
        text.push(']');
        assert(text@ =~= seq!['[', marker, ']']);
        let style = labels::maybe_underline(chip(on.contains(kind), color), hovers_kind(hover, kind));
        rich::push_span(&mut spans, Span::styled(text, style));
        i = i + 1;
    }
    rich::line_of(spans)
}

impl App {
    /// The row of file-type chips, dynamic per changeset. Overflow simply clips at
    /// the pane edge.
    fn type_chip_line(&self, hover: &Option<Hover>) -> (r: Line)
        ensures
            r@ == rich::row_of(
                type_chips_upto(
                    self@.list.file_types,
                    self@.find.file_type_filter,
                    mouse::target(*hover),
                    self@.list.file_types.len() as int,
                ),
            ),
    {
        let ghost h = mouse::target(*hover);
        let ghost types = self@.list.file_types;
        let ghost on = self@.find.file_type_filter;
        let mut spans: Vec<Span> = Vec::new();
        rich::push_span(&mut spans, Span::raw(" ".to_owned()));
        assert(rich::runs(spans@) =~= type_chips_upto(types, on, h, 0));
        let mut i: usize = 0;
        while i < self.list.file_types.len()
            invariant
                i <= self.list.file_types@.len(),
                h == mouse::target(*hover),
                types == txt::texts(self.list.file_types@),
                on == self.find.file_type_filter@,
                rich::runs(spans@) == type_chips_upto(types, on, h, i as int),
            decreases self.list.file_types@.len() - i,
        {
            let ext = self.list.file_types[i].as_str();
            assert(types[i as int] == ext@);
            let mut text = "[.".to_owned();
            text.append(ext);
            text.append("]");
            let style = labels::maybe_underline(
                chip(self.find.file_type_filter.contains(ext), labels::chip_color(ext)),
                hovers_type(hover, ext),
            );
            rich::push_span(&mut spans, Span::styled(text, style));
            rich::push_span(&mut spans, Span::raw(" ".to_owned()));
            i = i + 1;
        }
        assert(types.len() == self.list.file_types@.len());
        rich::line_of(spans)
    }

    /// The right-hand side of a file's row: +/- stats, the recently-changed cue, and
    /// the file's content-search hits.
    fn tail_spans(&self, row: usize, hits: usize) -> (r: Vec<Span>)
        requires
            self@.wf(),
            row < self@.list.filtered.len(),
            hits == hits_of(self@.find.matches, row as int),
        ensures
            rich::runs(r@) == self@.tail_at(row as int),
    {
        proof {
            reveal(State::wf);
        }
        assert(self@.list.filtered[row as int] < self@.list.files.len());
        let entry = &self.list.files[self.list.filtered[row]];
        assert(self@.filtered_entry(row as int) == entry@);
        let mut out = stat_spans(count_of(entry.added), count_of(entry.removed));
        if self.cues.recently_changed.contains(entry.path.as_str()) {
            rich::push_span(
                &mut out,
                Span::styled(" ●".to_owned(), rich::color_style(Ink::Cyan)),
            );
        }
        if hits > 0 {
            rich::push_span(
                &mut out,
                Span::styled(txt::numbered(" ×", hits as u64), rich::color_style(Ink::Yellow)),
            );
        }
        assert(rich::runs(out@) =~= self@.tail_at(row as int));
        out
    }

    /// The row of the filtered file at position `row`, and whether its path is
    /// scrolled.
    fn file_line(&self, row: usize, hits: usize, row_w: usize, hover: &Option<Hover>) -> (r: (
        Line,
        bool,
    ))
        requires
            self@.wf(),
            row < self@.list.filtered.len(),
            hits == hits_of(self@.find.matches, row as int),
        ensures
            r.0@ == self@.file_row(row as int, row_w as int, mouse::target(*hover)),
            r.1 == self@.scrolls_path(row as int, row_w as int),
    {
        proof {
            reveal(State::wf);
        }
        assert(self@.list.filtered[row as int] < self@.list.files.len());
        let entry = &self.list.files[self.list.filtered[row]];
        assert(self@.filtered_entry(row as int) == entry@);
        let (marker, color) = labels::marker_style(entry.kind);

        // Measure the right-hand side so the (truncated) path takes exactly the
        // remaining space.
        let tail = self.tail_spans(row, hits);
        let path_avail = geometry::sub_size(
            geometry::sub_size(row_w, 2),
            rich::spans_len(&tail),
        );
        let full_len = txt::chars_of(entry.path.as_str()).len();
        let scrolls = row == self.list.selected && full_len > path_avail && path_avail > 4;
        let path = if scrolls {
            // Marquee the selected file's overflowing name so it can be read.
            labels::marquee(entry.path.as_str(), path_avail, self.marquee.offset)
        } else {
            labels::truncate_middle(entry.path.as_str(), path_avail)
        };
        let mut mark = String::new();
        mark.push(marker);
        mark.push(' ');
        assert(mark@ =~= seq![marker, ' ']);
        let mut spans: Vec<Span> = Vec::new();
        assert(rich::runs(spans@) =~= Seq::<Run>::empty());
        rich::push_span(&mut spans, Span::styled(mark, rich::color_style(color)));
        rich::push_span(&mut spans, Span::raw(path));
        rich::append_spans(&mut spans, tail);
        let style = labels::maybe_underline(Style::default(), hovers_row(hover, row));
        let line = Line { spans, style };
        assert(line@.runs =~= self@.file_row(row as int, row_w as int, mouse::target(*hover)).runs);
        (line, scrolls)
    }

    /// The changeset's line counts.
    fn totals(&self) -> (r: (u32, u32))
        requires
            self@.wf(),
            self@.totals_fit(),
        ensures
            r.0 == self@.added_upto(self@.list.filtered.len() as int),
            r.1 == self@.removed_upto(self@.list.filtered.len() as int),
    {
        let n = self.list.filtered.len();
        let mut add: u32 = 0;
        let mut del: u32 = 0;
        let mut i: usize = 0;
        while i < n
            invariant
                i <= n,
                n == self@.list.filtered.len(),
                self@.wf(),
                self@.totals_fit(),
                add == self@.added_upto(i as int),
                del == self@.removed_upto(i as int),
            decreases n - i,
        {
            proof {
                reveal(State::wf);
                self@.lemma_totals_grow(i as int + 1, n as int);
            }
            assert(self@.list.filtered[i as int] < self@.list.files.len());
            let entry = &self.list.files[self.list.filtered[i]];
            assert(self@.filtered_entry(i as int) == entry@);
            add = add + count_of(entry.added);
            del = del + count_of(entry.removed);
            i = i + 1;
        }
        (add, del)
    }

    /// Whether the changeset's line counts fit a `u32`.
    pub fn can_total(&self) -> (r: bool)
        requires
            self@.wf(),
        ensures
            r == self@.totals_fit(),
    {
        let n = self.list.filtered.len();
        let mut add: u64 = 0;
        let mut del: u64 = 0;
        let mut i: usize = 0;
        while i < n
            invariant
                i <= n,
                n == self@.list.filtered.len(),
                self@.wf(),
                add == self@.added_upto(i as int),
                del == self@.removed_upto(i as int),
                add <= u32::MAX,
                del <= u32::MAX,
            decreases n - i,
        {
            proof {
                reveal(State::wf);
                self@.lemma_totals_grow(i as int + 1, n as int);
            }
            assert(self@.list.filtered[i as int] < self@.list.files.len());
            let entry = &self.list.files[self.list.filtered[i]];
            assert(self@.filtered_entry(i as int) == entry@);
            add = add + count_of(entry.added) as u64;
            del = del + count_of(entry.removed) as u64;
            if add > 0xffff_ffff || del > 0xffff_ffff {
                return false;
            }
            i = i + 1;
        }
        true
    }

    /// The spans of the sort order.
    fn order_spans(&self, hover: &Option<Hover>) -> (r: Vec<Span>)
        ensures
            rich::runs(r@) == self@.order_runs(mouse::target(*hover)),
    {
        let dim = rich::color_style(Ink::DarkGray);
        let label = self.list.sort_field.label();
        let arrow = sort::arrow_text(self.list.sort_desc);
        let mut spans: Vec<Span> = Vec::new();
        assert(rich::runs(spans@) =~= Seq::<Run>::empty());
        rich::push_span(
            &mut spans,
            Span::styled(label.to_owned(), labels::maybe_underline(dim, hovers_label(hover))),
        );
        rich::push_span(&mut spans, Span::styled(" ".to_owned(), dim));
        rich::push_span(
            &mut spans,
            Span::styled(arrow.to_owned(), labels::maybe_underline(dim, hovers_arrow(hover))),
        );
        assert(rich::runs(spans@) =~= self@.order_runs(mouse::target(*hover)));
        spans
    }

    /// The title of the list.
    fn list_title(&self) -> (r: String)
        ensures
            r@ == self@.header_title(),
    {
        let mut title = txt::numbered(" CHANGES (", self.list.filtered.len() as u64);
        title.append(")");
        title
    }

    /// The columns of the sort order.
    fn order_columns(&self) -> (r: usize)
        ensures
            r == self@.order_width(),
    {
        txt::chars_of(self.list.sort_field.indicator(self.list.sort_desc).as_str()).len()
    }

    /// The flat header: the changeset summary on the left, sort field and direction
    /// on the right (never dropped; the stats give way first if both can't fit).
    fn list_header(&self, avail: usize, hover: &Option<Hover>) -> (r: Line)
        requires
            self@.wf(),
            self@.totals_fit(),
        ensures
            r@ == rich::row_of(self@.list_header(avail as int, mouse::target(*hover))),
    {
        let (add, del) = self.totals();
        let title = self.list_title();
        let stats = stat_spans(add, del);
        let base_w = txt::chars_of(title.as_str()).len();
        let stats_w = rich::spans_len(&stats);
        let right_w = self.order_columns();
        let show_stats = right_w <= avail && stats_w <= avail - right_w && base_w <= avail - right_w
            - stats_w;
        let after_title = geometry::sub_size(avail, base_w);
        let left = if show_stats {
            geometry::sub_size(after_title, stats_w)
        } else {
            after_title
        };
        let pad = geometry::sub_size(left, right_w);

        let mut spans: Vec<Span> = Vec::new();
        assert(rich::runs(spans@) =~= Seq::<Run>::empty());
        rich::push_span(
            &mut spans,
            Span::styled(title, rich::color_style(Ink::DarkGray).add_modifier(BOLD)),
        );
        if show_stats {
            rich::append_spans(&mut spans, stats);
        }
        let gap = txt::repeat(' ', pad);
        rich::push_span(&mut spans, Span::raw(txt::string_of(gap.as_slice())));
        rich::append_spans(&mut spans, self.order_spans(hover));
        proof {
            let nothing = Seq::<Run>::empty();
            assert(rich::width(nothing) == 0);
            assert(rich::runs(spans@) =~= self@.list_header(avail as int, mouse::target(*hover)));
        }
        rich::line_of(spans)
    }

    /// The rows of the filtered files, and whether the selected file's name is
    /// scrolled.
    fn file_lines(&self, row_w: usize, hover: &Option<Hover>) -> (r: (Vec<Line>, bool))
        requires
            self@.wf(),
        ensures
            rich::rows(r.0@) == self@.file_rows_upto(
                row_w as int,
                mouse::target(*hover),
                self@.list.filtered.len() as int,
            ),
            r.1 == self@.overflows(row_w as int),
    {
        let ghost h = mouse::target(*hover);
        let n = self.list.filtered.len();
        let counts = hit_counts(&self.find.matches, n);
        let mut rows: Vec<Line> = Vec::new();
        let mut overflow = false;
        let mut i: usize = 0;
        assert(rich::rows(rows@) =~= Seq::<Row>::empty());
        while i < n
            invariant
                i <= n,
                n == self@.list.filtered.len(),
                self@.wf(),
                h == mouse::target(*hover),
                counts@.len() == n,
                forall|pos: int| 0 <= pos < n ==> #[trigger] counts@[pos] == hits_of(
                    self@.find.matches,
                    pos,
                ),
                rich::rows(rows@) == self@.file_rows_upto(row_w as int, h, i as int),
                overflow == (self@.list.selected < i && self@.scrolls_path(
                    self@.list.selected,
                    row_w as int,
                )),
            decreases n - i,
        {
            proof {
                self@.lemma_wf_selected();
            }
            assert(counts@[i as int] == hits_of(self@.find.matches, i as int));
            let (line, scrolls) = self.file_line(i, counts[i], row_w, hover);
            rich::push_line(&mut rows, line);
            if scrolls {
                overflow = true;
            }
            i = i + 1;
        }
        (rows, overflow)
    }

    /// Notes that the selected file is looked at.
    fn look_at_current(&mut self)
        requires
            old(self)@.wf(),
        ensures
            final(self)@ == old(self)@.view_current().track_marquee(),
    {
        // The file you're looking at is no longer "recently changed".
        let current = match self.current_entry() {
            Some(entry) => Some(entry.path.clone()),
            None => None,
        };
        if let Some(path) = current {
            self.mark_viewed(path.as_str());
        }
        // Restart the marquee when the selection changes.
        if self.list.selected != self.marquee.sel {
            self.marquee.sel = self.list.selected;
            self.marquee_reset();
        }
    }

    /// The pane around the rows of the filtered files.
    fn list_pane(&self, area: Rect, rows: Vec<Line>, hover: &Option<Hover>) -> (r: ListPane)
        requires
            self@.wf(),
            self@.totals_fit(),
            area.y + 3 <= u16::MAX,
            mouse::target(*hover) == self@.hover_target(),
            rich::rows(rows@) == self@.list_shown(area.width).rows,
        ensures
            r.shows(self@, area),
    {
        // The pane's true last column doubles as part of the divider's mouse grab
        // tolerance, so a click there can never reach this row: reserve it rather
        // than rendering anything unclickable.
        let avail = geometry::sub16(area.width, 1) as usize;
        let header = self.list_header(avail, hover);
        let kind_chips = kind_chip_line(&self.find.kind_filter, hover);
        let type_chips = self.type_chip_line(hover);
        let selected = if self.list.filtered.len() == 0 {
            None
        } else {
            Some(self.list.selected)
        };
        ListPane {
            rows,
            header,
            kind_chips,
            type_chips,
            selected,
            header_area: Rect { x: area.x, y: area.y, width: area.width, height: 1 },
            kind_area: Rect { x: area.x, y: area.y + 1, width: area.width, height: 1 },
            type_area: Rect { x: area.x, y: area.y + 2, width: area.width, height: 1 },
            list_area: Rect {
                x: area.x,
                y: area.y + 3,
                width: area.width,
                height: geometry::sub16(area.height, 3),
            },
        }
    }

    /// Draws the file list into `area`: the pane to put on the screen, or nothing if
    /// it has no rows.
    pub fn draw_file_list(&mut self, area: Rect) -> (r: Option<ListPane>)
        requires
            old(self)@.wf(),
            old(self)@.hover_fits(),
            old(self)@.totals_fit(),
            area.height > 0 ==> area.y + 3 <= u16::MAX,
        ensures
            final(self)@ == old(self)@.after_list(area.width),
            final(self)@.wf(),
            r is Some <==> area.height > 0,
            r matches Some(pane) ==> pane.shows(final(self)@, area),
    {
        self.look_at_current();
        let ghost s = self@;
        proof {
            state::lemma_wf(old(self)@, s);
            old(self)@.lemma_drawing_keeps(s);
        }
        // Width available for a row's content (minus the 2-col highlight symbol that
        // the list reserves on every row).
        let row_w = geometry::sub_size(area.width as usize, 2);
        let hover = self.hover_target();
        let (rows, overflow) = self.file_lines(row_w, &hover);
        self.marquee.active_path_overflow = overflow;
        proof {
            state::lemma_wf(s, self@);
            s.lemma_drawing_keeps(self@);
            s.lemma_same_rows(
                self@,
                row_w as int,
                mouse::target(hover),
                s.list.filtered.len() as int,
            );
        }
        if area.height == 0 {
            return None;
        }
        Some(self.list_pane(area, rows, &hover))
    }
}

impl State {
    proof fn lemma_totals_grow(self, m: int, n: int)
        requires
            m <= n,
        ensures
            self.added_upto(m) <= self.added_upto(n),
            self.removed_upto(m) <= self.removed_upto(n),
        decreases n - m,
    {
        if m < n {
            self.lemma_totals_grow(m, n - 1);
        }
    }

    /// What drawing the file list changes moves nothing under the mouse, and no line
    /// count.
    proof fn lemma_drawing_keeps(self, b: State)
        requires
            b.list == self.list,
            b.screen == self.screen,
            b.pointer == self.pointer,
            b.control == self.control,
        ensures
            b.hover_fits() == self.hover_fits(),
            b.hover_target() == self.hover_target(),
            b.totals_fit() == self.totals_fit(),
    {
        reveal(State::hover_fits);
        reveal(State::hover_target);
        reveal(State::spot);
        reveal(State::spot_fits);
        self.lemma_same_totals(b, self.list.filtered.len() as int);
    }

    proof fn lemma_same_totals(self, b: State, n: int)
        requires
            b.list == self.list,
        ensures
            b.added_upto(n) == self.added_upto(n),
            b.removed_upto(n) == self.removed_upto(n),
        decreases n,
    {
        if n > 0 {
            self.lemma_same_totals(b, n - 1);
        }
    }

    proof fn lemma_same_rows(self, b: State, row_w: int, hover: Option<Target>, n: int)
        requires
            b.list == self.list,
            b.find == self.find,
            b.cues == self.cues,
            b.marquee.offset == self.marquee.offset,
        ensures
            b.file_rows_upto(row_w, hover, n) == self.file_rows_upto(row_w, hover, n),
        decreases n,
    {
        if n > 0 {
            self.lemma_same_rows(b, row_w, hover, n - 1);
            assert(b.filtered_entry(n - 1) == self.filtered_entry(n - 1));
            assert(b.tail_at(n - 1) == self.tail_at(n - 1));
            assert(b.file_row(n - 1, row_w, hover) == self.file_row(n - 1, row_w, hover));
        }
    }
}

} // verus!
