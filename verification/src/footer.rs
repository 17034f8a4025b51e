//! The footer line and the help overlay.

use vstd::prelude::*;
use crate::app::App;
use crate::geometry;
use crate::geometry::Rect;
use crate::git;
use crate::git::KIND_ORDER;
use crate::labels;
use crate::list_pane;
use crate::rich;
use crate::rich::{Ink, Line, Row, Run, Span, BOLD, REVERSED};
use crate::search;
use crate::state;
use crate::state::{KindSet, Mode, State};
use crate::txt;

verus! {

// --- the footer ----------------------------------------------------------------

/// The pills of the first `n` change kinds.
pub open spec fn pills_upto(on: KindSet, n: int) -> Seq<Run>
    decreases n,
{
    if n <= 0 {
        Seq::empty()
    } else {
        let kind = KIND_ORDER[n - 1];
        pills_upto(on, n - 1).push(
            rich::styled(
                seq!['[', git::marker_of(kind), ']'],
                list_pane::chip_style(state::has_kind(on, kind), labels::kind_color(kind)),
            ),
        )
    }
}

/// The markers of those of the first `n` change kinds that are on.
pub open spec fn markers_upto(on: KindSet, n: int) -> Seq<char>
    decreases n,
{
    if n <= 0 {
        Seq::empty()
    } else if state::has_kind(on, KIND_ORDER[n - 1]) {
        markers_upto(on, n - 1).push(git::marker_of(KIND_ORDER[n - 1]))
    } else {
        markers_upto(on, n - 1)
    }
}

/// `text`, if `shown`.
pub open spec fn text_if(shown: bool, text: Seq<char>) -> Seq<char> {
    if shown {
        text
    } else {
        Seq::empty()
    }
}

impl State {
    /// How many matches the search found.
    pub open spec fn match_summary(self) -> Seq<char> {
        " — "@ + txt::decimal(self.find.matches.len()) + " match"@ + text_if(
            self.find.matches.len() != 1,
            "es"@,
        )
    }

    /// The position among the matches.
    pub open spec fn match_position(self) -> Seq<char> {
        if self.find.matches.len() == 0 {
            " · match 0/0"@
        } else {
            " · match "@ + txt::decimal((self.find.current_match + 1) as nat) + "/"@
                + txt::decimal(self.find.matches.len())
        }
    }

    /// What is actively unusual.
    pub open spec fn unusual(self) -> Seq<char> {
        text_if(self.history is Some, " · history (←/→ walk · Esc live)"@) + text_if(
            self.control.follow,
            " · follow"@,
        ) + text_if(
            self.find.kind_filter != state::no_kinds(),
            " · kinds: "@ + markers_upto(self.find.kind_filter, 5),
        ) + text_if(
            self.history is None && self.is_content_search(),
            self.match_position(),
        )
    }

    /// Whether the position among the matches, where it is shown, can be counted.
    pub open spec fn unusual_fits(self) -> bool {
        self.history is None && self.is_content_search() && self.find.matches.len() > 0
            ==> self.find.current_match < usize::MAX
    }

    /// Whether the footer stays within machine numbers.
    pub open spec fn footer_fits(self) -> bool {
        self.find.mode == Mode::Normal && self.note.status.len() == 0 ==> self.unusual_fits()
    }

    /// The footer: the search box, the kind filter's pills, a status message, or the
    /// keybinding hints with what is actively unusual.
    pub open spec fn footer(self) -> Seq<Run> {
        let dim = rich::colored(Ink::DarkGray);
        match self.find.mode {
            Mode::Search => seq![
                rich::styled(
                    "search["@ + search::scope_glyph(self.find.search_scope) + "]: "@,
                    rich::colored(Ink::Yellow),
                ),
                rich::raw(self.find.search),
                rich::styled("▏"@, dim),
            ] + list_pane::run_if(
                self.is_content_search(),
                rich::styled(self.match_summary(), rich::colored(Ink::Yellow)),
            ) + seq![
                rich::styled("   (Tab scope · file: names · Enter accept · Esc clear)"@, dim),
            ],
            Mode::KindFilter => seq![rich::styled("kinds: "@, rich::colored(Ink::Yellow))]
                + pills_upto(self.find.kind_filter, 5) + seq![
                rich::styled("   (a/m/d/r/u toggle · Enter/Esc done)"@, dim),
            ],
            Mode::Normal => if self.note.status.len() > 0 {
                seq![rich::styled(self.note.status, rich::colored(Ink::Green))]
                    + list_pane::run_if(
                    self.cues.update_ready,
                    rich::styled("   ⟳ restart to apply"@, rich::colored(Ink::Magenta)),
                )
            } else {
                seq![
                    rich::styled(
                        "c kinds · b base · / search · Tab collapse · ? help · q quit"@,
                        dim,
                    ),
                ] + list_pane::run_if(
                    self.unusual().len() > 0,
                    rich::styled(self.unusual(), rich::colored(Ink::Cyan)),
                ) + list_pane::run_if(
                    self.cues.update_ready,
                    rich::styled(" · ⟳ restart to apply"@, rich::colored(Ink::Magenta)),
                )
            },
        }
    }
}

fn pill_spans(out: &mut Vec<Span>, on: &KindSet)
    ensures
        rich::runs(final(out)@) == rich::runs(old(out)@) + pills_upto(*on, 5),
{
    let ghost was = rich::runs(out@);
    let mut i: usize = 0;
    assert(was + pills_upto(*on, 0) =~= was);
    while i < 5
        invariant
            i <= 5,
            rich::runs(out@) == was + pills_upto(*on, i as int),
        decreases 5 - i,
    {
        let kind = KIND_ORDER[i];
        let (marker, color) = labels::marker_style(kind);
        let mut text = String::new();
        text.push('[');
        text.push(marker);
        text.push(']');
        assert(text@ =~= seq!['[', marker, ']']);
        let style = if on.contains(kind) {
            rich::color_style(color).add_modifier(REVERSED | BOLD)
        } else {
            rich::color_style(Ink::DarkGray)
        };
        let ghost run = rich::styled(text@, style);
        rich::push_span(out, Span::styled(text, style));
        assert((was + pills_upto(*on, i as int)).push(run) =~= was + pills_upto(
            *on,
            i as int + 1,
        ));
        i = i + 1;
    }
}

fn push_markers(out: &mut String, on: &KindSet)
    ensures
        final(out)@ == old(out)@ + markers_upto(*on, 5),
{
    let ghost was = out@;
    let mut i: usize = 0;
    assert(was + markers_upto(*on, 0) =~= was);
    while i < 5
        invariant
            i <= 5,
            out@ == was + markers_upto(*on, i as int),
        decreases 5 - i,
    {
        let kind = KIND_ORDER[i];
        if on.contains(kind) {
            out.push(kind.marker());
            assert(out@ =~= was + markers_upto(*on, i as int + 1));
        }
        i = i + 1;
    }
}

impl App {
    /// What is actively unusual: history, follow, kind filters, search matches.
    fn unusual(&self) -> (r: String)
        requires
            self@.unusual_fits(),
        ensures
            r@ == self@.unusual(),
    {
        let mut extra = String::new();
        if self.history.is_some() {
            extra.append(" · history (←/→ walk · Esc live)");
        }
        assert(extra@ =~= text_if(self@.history is Some, " · history (←/→ walk · Esc live)"@));
        let ghost a = extra@;
        if self.control.follow {
            extra.append(" · follow");
        }
        let ghost b = text_if(self@.control.follow, " · follow"@);
        assert(extra@ =~= a + b);
        if !self.find.kind_filter.is_empty() {
            extra.append(" · kinds: ");
            push_markers(&mut extra, &self.find.kind_filter);
        }
        let ghost c = text_if(
            self@.find.kind_filter != state::no_kinds(),
            " · kinds: "@ + markers_upto(self@.find.kind_filter, 5),
        );
        assert(extra@ =~= a + b + c);
        if self.history.is_none() && self.is_content_search() {
            let n = self.find.matches.len();
            if n == 0 {
                extra.append(" · match 0/0");
            } else {
                extra.append(" · match ");
                txt::push_decimal(&mut extra, (self.find.current_match + 1) as u64);
                extra.append("/");
                txt::push_decimal(&mut extra, n as u64);
            }
        }
        assert(extra@ =~= self@.unusual());
        extra
    }

    /// Whether the footer stays within machine numbers.
    pub fn can_draw_footer(&self) -> (r: bool)
        ensures
            r == self@.footer_fits(),
    {
        match self.find.mode {
            Mode::Normal => !self.note.status.as_str().is_empty() || self.history.is_some()
                || !self.is_content_search() || self.find.matches.len() == 0
                || self.find.current_match < usize::MAX,
            _ => true,
        }
    }

    /// The footer line.
    pub fn draw_footer(&self) -> (r: Line)
        requires
            self@.footer_fits(),
        ensures
            r@ == rich::row_of(self@.footer()),
    {
        let dim = rich::color_style(Ink::DarkGray);
        let mut spans: Vec<Span> = Vec::new();
        assert(rich::runs(spans@) =~= Seq::<Run>::empty());
        match self.find.mode {
            Mode::Search => {
                let mut prompt = "search[".to_owned();
                prompt.append(self.find.search_scope.glyph());
                prompt.append("]: ");
                rich::push_span(&mut spans, Span::styled(prompt, rich::color_style(Ink::Yellow)));
                rich::push_span(&mut spans, Span::raw(self.find.search.clone()));
                rich::push_span(&mut spans, Span::styled("▏".to_owned(), dim));
                if self.is_content_search() {
                    let n = self.find.matches.len();
                    let mut text = txt::numbered(" — ", n as u64);
                    text.append(" match");
                    if n != 1 {
                        text.append("es");
                    }
                    assert(text@ =~= self@.match_summary());
                    rich::push_span(&mut spans, Span::styled(text, rich::color_style(Ink::Yellow)));
                }
                rich::push_span(
                    &mut spans,
                    Span::styled(
                        "   (Tab scope · file: names · Enter accept · Esc clear)".to_owned(),
                        dim,
                    ),
                );
            },
            Mode::KindFilter => {
                rich::push_span(
                    &mut spans,
                    Span::styled("kinds: ".to_owned(), rich::color_style(Ink::Yellow)),
                );
                pill_spans(&mut spans, &self.find.kind_filter);
                rich::push_span(
                    &mut spans,
                    Span::styled("   (a/m/d/r/u toggle · Enter/Esc done)".to_owned(), dim),
                );
            },
            Mode::Normal => {
                if !self.note.status.as_str().is_empty() {
                    rich::push_span(
                        &mut spans,
                        Span::styled(self.note.status.clone(), rich::color_style(Ink::Green)),
                    );
                    if self.cues.update_ready {
                        rich::push_span(
                            &mut spans,
                            Span::styled(
                                "   ⟳ restart to apply".to_owned(),
                                rich::color_style(Ink::Magenta),
                            ),
                        );
                    }
                } else {
                    let extra = self.unusual();
                    rich::push_span(
                        &mut spans,
                        Span::styled(
                            "c kinds · b base · / search · Tab collapse · ? help · q quit".to_owned(),
                            dim,
                        ),
                    );
                    if !extra.as_str().is_empty() {
                        rich::push_span(
                            &mut spans,
                            Span::styled(extra, rich::color_style(Ink::Cyan)),
                        );
                    }
                    if self.cues.update_ready {
                        rich::push_span(
                            &mut spans,
                            Span::styled(
                                " · ⟳ restart to apply".to_owned(),
                                rich::color_style(Ink::Magenta),
                            ),
                        );
                    }
                }
            },
        }
        assert(rich::runs(spans@) =~= self@.footer());
        rich::line_of(spans)
    }
}

// --- the help overlay ----------------------------------------------------------

/// The keys of the help overlay, and what they do.
pub open spec fn help_entries() -> Seq<(Seq<char>, Seq<char>)> {
    seq![
        ("↑ / ↓  (j / k)"@, "jump to previous / next file"@),
        ("PgUp / PgDn  (Space)"@, "scroll the combined diff"@),
        ("Home / End  (g / G)"@, "jump to top / bottom"@),
        ("← / →"@, "walk the selected file's commit history"@),
        ("mouse wheel"@, "scroll diff · over the list, change file"@),
        ("click"@, "select a file / place the cursor"@),
        ("drag in diff"@, "select text — copies on release"@),
        ("y"@, "copy the current selection"@),
        ("drag the divider"@, "resize the panes"@),
        ("s / r"@, "sort field / reverse direction"@),
        ("click field / ▲▼"@, "cycle sort field / reverse direction"@),
        ("t / T"@, "cycle syntax theme forward / back"@),
        ("b"@, "toggle working ⇄ base-branch diff"@),
        ("c"@, "filter by change type (a/m/d/r/u)"@),
        ("click a chip"@, "toggle a kind or file-type filter"@),
        ("Tab"@, "collapse / expand the file list"@),
        ("f"@, "follow — focus each file as it changes"@),
        ("/"@, "search inside changes · file: filters names"@),
        ("n / N"@, "next / previous match (↓/↑ while typing)"@),
        ("q / Esc"@, "quit · Esc first exits history"@),
    ]
}

/// `s` padded with blanks to `n` columns.
pub open spec fn padded(s: Seq<char>, n: int) -> Seq<char> {
    s + txt::repeated(' ', geometry::minus(n, s.len() as int) as nat)
}

/// The row of a help entry.
pub open spec fn help_row(entry: (Seq<char>, Seq<char>)) -> Row {
    rich::row_of(
        seq![
            rich::styled("  "@ + padded(entry.0, 22), rich::colored(Ink::Cyan)),
            rich::raw(entry.1),
        ],
    )
}

/// The rows of the first `n` help entries.
pub open spec fn help_rows_upto(list: Seq<(Seq<char>, Seq<char>)>, n: int) -> Seq<Row>
    decreases n,
{
    if n <= 0 {
        Seq::empty()
    } else {
        help_rows_upto(list, n - 1).push(help_row(list[n - 1]))
    }
}

/// The rows of the help overlay.
pub open spec fn help_rows() -> Seq<Row> {
    help_rows_upto(help_entries(), 20).push(
        rich::row_of(
            seq![rich::styled("  press any key to close"@, rich::colored(Ink::DarkGray))],
        ),
    )
}

fn push_help(out: &mut Vec<Line>, keys: &str, what: &str)
    ensures
        rich::rows(final(out)@) == rich::rows(old(out)@).push(help_row((keys@, what@))),
        final(out)@.len() == old(out)@.len() + 1,
{
    let mut text = "  ".to_owned();
    text.append(keys);
    let pad = txt::repeat(' ', geometry::sub_size(22, txt::chars_of(keys).len()));
    txt::push_chars(&mut text, pad.as_slice());
    assert(text@ =~= "  "@ + padded(keys@, 22));
    let mut spans: Vec<Span> = Vec::new();
    assert(rich::runs(spans@) =~= Seq::<Run>::empty());
    let ghost shown = text@;
    rich::push_span(&mut spans, Span::styled(text, rich::color_style(Ink::Cyan)));
    rich::push_span(&mut spans, Span::raw(what.to_owned()));
    assert(rich::runs(spans@) =~= help_row((keys@, what@)).runs);
    rich::push_line(out, rich::line_of(spans));
}

/// The lines of the help overlay.
pub fn help_lines() -> (r: Vec<Line>)
    ensures
        rich::rows(r@) == help_rows(),
        r@.len() == 21,
{
    let ghost list = help_entries();
    let mut out: Vec<Line> = Vec::new();
    assert(rich::rows(out@) =~= help_rows_upto(list, 0));
    push_help(&mut out, "↑ / ↓  (j / k)", "jump to previous / next file");
    assert(rich::rows(out@) == help_rows_upto(list, 1));
    push_help(&mut out, "PgUp / PgDn  (Space)", "scroll the combined diff");
    assert(rich::rows(out@) == help_rows_upto(list, 2));
    push_help(&mut out, "Home / End  (g / G)", "jump to top / bottom");
    assert(rich::rows(out@) == help_rows_upto(list, 3));
    push_help(&mut out, "← / →", "walk the selected file's commit history");
    assert(rich::rows(out@) == help_rows_upto(list, 4));
    push_help(&mut out, "mouse wheel", "scroll diff · over the list, change file");
    assert(rich::rows(out@) == help_rows_upto(list, 5));
    push_help(&mut out, "click", "select a file / place the cursor");
    assert(rich::rows(out@) == help_rows_upto(list, 6));
    push_help(&mut out, "drag in diff", "select text — copies on release");
    assert(rich::rows(out@) == help_rows_upto(list, 7));
    push_help(&mut out, "y", "copy the current selection");
    assert(rich::rows(out@) == help_rows_upto(list, 8));
    push_help(&mut out, "drag the divider", "resize the panes");
    assert(rich::rows(out@) == help_rows_upto(list, 9));
    push_help(&mut out, "s / r", "sort field / reverse direction");
    assert(rich::rows(out@) == help_rows_upto(list, 10));
    push_help(&mut out, "click field / ▲▼", "cycle sort field / reverse direction");
    assert(rich::rows(out@) == help_rows_upto(list, 11));
    push_help(&mut out, "t / T", "cycle syntax theme forward / back");
    assert(rich::rows(out@) == help_rows_upto(list, 12));
    push_help(&mut out, "b", "toggle working ⇄ base-branch diff");
    assert(rich::rows(out@) == help_rows_upto(list, 13));
    push_help(&mut out, "c", "filter by change type (a/m/d/r/u)");
    assert(rich::rows(out@) == help_rows_upto(list, 14));
    push_help(&mut out, "click a chip", "toggle a kind or file-type filter");
    assert(rich::rows(out@) == help_rows_upto(list, 15));
    push_help(&mut out, "Tab", "collapse / expand the file list");
    assert(rich::rows(out@) == help_rows_upto(list, 16));
    push_help(&mut out, "f", "follow — focus each file as it changes");
    assert(rich::rows(out@) == help_rows_upto(list, 17));
    push_help(&mut out, "/", "search inside changes · file: filters names");
    assert(rich::rows(out@) == help_rows_upto(list, 18));
    push_help(&mut out, "n / N", "next / previous match (↓/↑ while typing)");
    assert(rich::rows(out@) == help_rows_upto(list, 19));
    push_help(&mut out, "q / Esc", "quit · Esc first exits history");
    assert(rich::rows(out@) == help_rows_upto(list, 20));
    let mut spans: Vec<Span> = Vec::new();
    assert(rich::runs(spans@) =~= Seq::<Run>::empty());
    rich::push_span(
        &mut spans,
        Span::styled("  press any key to close".to_owned(), rich::color_style(Ink::DarkGray)),
    );
    assert(rich::runs(spans@) =~= seq![
        rich::styled("  press any key to close"@, rich::colored(Ink::DarkGray)),
    ]);
    rich::push_line(&mut out, rich::line_of(spans));
    out
}

/// The size of the help overlay within `area`: its 62 columns and 23 rows (the lines
/// and a border), as far as there is room.
pub open spec fn help_size(area: Rect) -> (u16, u16) {
    (
        geometry::lesser(62, area.width as int) as u16,
        geometry::lesser(23, area.height as int) as u16,
    )
}

/// Whether the help overlay can be placed within `area`.
pub fn can_place_help(area: Rect) -> (r: bool)
    ensures
        r == geometry::can_center(area, help_size(area).0, help_size(area).1),
{
    let w = geometry::min16(62, area.width);
    let h = geometry::min16(23, area.height);
    area.x as u32 + (geometry::sub16(area.width, w) / 2) as u32 <= 65535 && area.y as u32 + (
    geometry::sub16(area.height, h) / 2) as u32 <= 65535
}

/// Where the help overlay goes.
pub fn help_area(area: Rect) -> (r: Rect)
    requires
        geometry::can_center(area, help_size(area).0, help_size(area).1),
    ensures
        (r.width, r.height) == help_size(area),
        r.x == area.x + geometry::minus(area.width as int, help_size(area).0 as int) / 2,
        r.y == area.y + geometry::minus(area.height as int, help_size(area).1 as int) / 2,
{
    geometry::centered(area, geometry::min16(62, area.width), geometry::min16(23, area.height))
}

} // verus!
