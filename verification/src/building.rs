//! Building the combined diff: every filtered file's rendered diff, one after the
//! other, with the content-search hits located in it.

use vstd::prelude::*;
use crate::app::App;
use crate::delta;
use crate::delta::{Cached, Production};
use crate::geometry;
use crate::git::{Entry, FileEntry};
use crate::listing;
use crate::rich;
use crate::rich::{Line, Row, Text};
use crate::search;
use crate::search::{Located, Scope};
use crate::state::{AppMatch, FindState, PaneState, SourceState, State};
use crate::txt;

verus! {

// --- one file's section --------------------------------------------------------

/// The rows of the section of the file at `path`, whose diff rendered to `shown`.
pub open spec fn section_rows(
    path: Seq<char>,
    shown: Result<Seq<Row>, Seq<char>>,
    width: u16,
) -> Seq<Row> {
    match shown {
        Ok(text) => if text.len() == 0 {
            seq![rich::raw_row("  (no textual diff)"@)]
        } else {
            rich::wrapped_all(text, width as nat)
        },
        Err(message) => seq![
            rich::raw_row("  error rendering "@ + path + ": "@ + message),
        ],
    }
}

/// Where a located match stands in the combined diff, for a section that starts at
/// row `start`. The hard wrap makes this pure arithmetic; a match crossing a wrap
/// boundary is cut at the end of its row. An unaligned match stands for the
/// section's top.
pub open spec fn placed_match(
    text: Seq<Row>,
    width: u16,
    start: int,
    file_pos: int,
    m: Located,
) -> AppMatch {
    let w = geometry::greater(width as int, 1);
    if m.aligned {
        let from = m.cols.0 as int % w;
        AppMatch {
            row: (start + rich::wrapped_upto(text, width as nat, m.line as int).len()
                + m.cols.0 as int / w) as usize,
            cols: (
                from as usize,
                geometry::lesser(from + (m.cols.1 - m.cols.0), w) as usize,
            ),
            file_pos: file_pos as usize,
            aligned: true,
        }
    } else {
        AppMatch {
            row: start as usize,
            cols: (0, 0),
            file_pos: file_pos as usize,
            aligned: false,
        }
    }
}

/// The first `n` of the located matches, in the combined diff.
pub open spec fn placed_upto(
    text: Seq<Row>,
    width: u16,
    start: int,
    file_pos: int,
    found: Seq<Located>,
    n: int,
) -> Seq<AppMatch>
    decreases n,
{
    if n <= 0 {
        Seq::empty()
    } else {
        placed_upto(text, width, start, file_pos, found, n - 1).push(
            placed_match(text, width, start, file_pos, found[n - 1]),
        )
    }
}

/// What is searched for, and how.
pub struct Hunt {
    pub needle: Option<Seq<char>>,
    pub scope: Scope,
    pub tab_width: u16,
}

/// The content-search hits of a section that starts at row `start`.
pub open spec fn section_matches(
    shown: Result<Seq<Row>, Seq<char>>,
    raw: Option<Seq<char>>,
    hunt: Hunt,
    width: u16,
    start: int,
    file_pos: int,
) -> Seq<AppMatch> {
    match (shown, hunt.needle, raw) {
        (Ok(text), Some(needle), Some(raw)) => if text.len() == 0 {
            Seq::empty()
        } else {
            let found = search::located_matches(
                raw,
                rich::row_texts(text),
                needle,
                hunt.scope,
                hunt.tab_width,
            );
            placed_upto(text, width, start, file_pos, found, found.len() as int)
        },
        _ => Seq::empty(),
    }
}

// --- the whole diff ------------------------------------------------------------

/// A combined diff: its rows, where each file's section starts, the hits in it, and
/// the last file's error, if any failed.
pub struct Drafted {
    pub rows: Seq<Row>,
    pub offsets: Seq<usize>,
    pub matches: Seq<AppMatch>,
    pub complaint: Option<Seq<char>>,
}

/// A combined diff in the making, with the cache it leaves.
pub struct Built {
    pub cache: Cached,
    pub draft: Drafted,
}

impl State {
    /// What is searched for.
    pub open spec fn hunt(self) -> Hunt {
        Hunt {
            needle: search::content_needle(self.find.search),
            scope: self.find.search_scope,
            tab_width: self.source.tab_width,
        }
    }

    /// The filtered file at position `k`.
    pub open spec fn filtered_entry(self, k: int) -> Entry {
        self.list.files[self.list.filtered[k] as int]
    }

    /// Whether the filtered file at position `k` is yet to be rendered at this width.
    pub open spec fn is_cold(self, k: int) -> bool {
        let e = self.filtered_entry(k);
        !self.source.cache.contains(e.path, listing::signature_of(e), self.pane.diff_width)
    }

    /// The combined diff with the section of the filtered file at position `k`
    /// added; `made` is what was produced for it, in case it is not cached.
    pub open spec fn build_step(self, b: Built, k: int, made: Production) -> Built {
        let e = self.filtered_entry(k);
        let sig = listing::signature_of(e);
        let width = self.pane.diff_width;
        let shown = b.cache.shown(e.path, sig, width, made);
        let cache = b.cache.after_showing(e.path, sig, width, made);
        let start = b.draft.rows.len() as int;
        Built {
            cache,
            draft: Drafted {
                rows: b.draft.rows + section_rows(e.path, shown, width),
                offsets: b.draft.offsets.push(start as usize),
                matches: b.draft.matches + section_matches(
                    shown,
                    cache.raw_text(e.path, sig),
                    self.hunt(),
                    width,
                    start,
                    k,
                ),
                complaint: match shown {
                    Ok(_) => b.draft.complaint,
                    Err(message) => Some(message),
                },
            },
        }
    }

    /// The combined diff of the first `n` filtered files.
    pub open spec fn built_upto(self, made: Seq<Production>, n: int) -> Built
        decreases n,
    {
        if n <= 0 {
            Built {
                cache: self.source.cache,
                draft: Drafted {
                    rows: Seq::empty(),
                    offsets: Seq::empty(),
                    matches: Seq::empty(),
                    complaint: None,
                },
            }
        } else {
            self.build_step(self.built_upto(made, n - 1), n - 1, made[n - 1])
        }
    }

    /// The combined diff of all filtered files.
    pub open spec fn built(self, made: Seq<Production>) -> Built {
        self.built_upto(made, self.list.filtered.len() as int)
    }

    /// With cache `cache`.
    pub open spec fn with_cache(self, cache: Cached) -> State {
        State { source: SourceState { cache, ..self.source }, ..self }
    }

    /// The first position at or after `k` of a filtered file at `path`.
    pub open spec fn path_position(self, path: Seq<char>, k: int) -> Option<int>
        decreases self.list.filtered.len() - k,
    {
        if k < 0 || k >= self.list.filtered.len() {
            None
        } else if self.filtered_entry(k).path == path {
            Some(k)
        } else {
            self.path_position(path, k + 1)
        }
    }

    /// With a new combined diff in place, the viewport not yet moved.
    pub open spec fn install(self, d: Drafted) -> State {
        let s = State {
            pane: PaneState {
                combined: d.rows,
                offsets: d.offsets,
                built_width: self.pane.diff_width,
                needs_rebuild: false,
                ..self.pane
            },
            find: FindState {
                matches: d.matches,
                current_match: geometry::lesser(
                    self.find.current_match,
                    geometry::minus(d.matches.len() as int, 1),
                ),
                ..self.find
            },
            ..self
        };
        match d.complaint {
            Some(message) => s.set_status(message),
            None => s,
        }
    }

    /// With the viewport back on the file it was anchored to, if that is still
    /// there.
    pub open spec fn restore_viewport(self) -> State {
        match self.pane.restore_anchor {
            None => self,
            Some((path, intra)) => match self.path_position(path, 0) {
                None => self.with_anchor(None),
                Some(k) => self.with_anchor(None).with_selected(k).with_scroll(
                    geometry::fit16(self.pane.offsets[k] + intra),
                ),
            },
        }
    }

    /// With the live jump to the current match made, if one is due.
    pub open spec fn jump_to_match(self) -> State {
        let s = State {
            find: FindState { pending_match_jump: false, ..self.find },
            ..self
        };
        if self.find.pending_match_jump && self.find.matches.len() > 0 {
            s.center_current_match()
        } else {
            s
        }
    }

    /// With the viewport moved into a new combined diff, and the history in step.
    pub open spec fn arrive(self) -> State {
        self.clamp_scroll_to_window().update_selected_from_scroll().jump_to_match().sync_history()
    }

    /// With a new combined diff in place, and the viewport where it was.
    pub open spec fn installed(self, d: Drafted) -> State {
        self.install(d).restore_viewport()
    }

    /// Whether the combined diff is out of date (data/sort/filter changed, or the
    /// pane was resized).
    pub open spec fn needs_build(self) -> bool {
        self.pane.needs_rebuild || self.pane.built_width != self.pane.diff_width
    }

    /// With the combined diff up to date.
    pub open spec fn ensure_combined(self, made: Seq<Production>) -> State {
        if !self.needs_build() {
            self
        } else {
            let b = self.built(made);
            self.with_cache(b.cache).installed(b.draft).arrive()
        }
    }
}

impl Drafted {
    /// Whether the sections follow each other within the rows, one for each of
    /// `count` files.
    pub open spec fn wf(self, count: int) -> bool {
        &&& self.offsets.len() == count
        &&& forall|i: int, j: int|
            0 <= i <= j < self.offsets.len() ==> #[trigger] self.offsets[i]
                <= #[trigger] self.offsets[j]
        &&& forall|i: int|
            0 <= i < self.offsets.len() ==> #[trigger] self.offsets[i] <= self.rows.len()
        &&& forall|i: int|
            0 <= i < self.matches.len() ==> (#[trigger] self.matches[i]).file_pos < usize::MAX
    }
}

// --- the application -----------------------------------------------------------

/// A combined diff, not yet taken over.
pub struct Draft {
    pub lines: Vec<Line>,
    pub offsets: Vec<usize>,
    pub matches: Vec<AppMatch>,
    pub complaint: Option<String>,
}

impl View for Draft {
    type V = Drafted;

    open spec fn view(&self) -> Drafted {
        Drafted {
            rows: rich::rows(self.lines@),
            offsets: self.offsets@,
            matches: self.matches@,
            complaint: txt::opt_text(self.complaint),
        }
    }
}

/// What the lines of a text say.
fn line_texts(text: &Text) -> (r: Vec<String>)
    ensures
        txt::texts(r@) == rich::row_texts(text@),
        rich::row_texts(text@).len() <= usize::MAX,
        forall|i: int|
            0 <= i < rich::row_texts(text@).len() ==> (#[trigger] rich::row_texts(text@)[i]).len()
                <= usize::MAX,
{
    let ghost all = rich::row_texts(text@);
    let mut out: Vec<String> = Vec::new();
    let mut i: usize = 0;
    assert(txt::texts(out@) =~= all.take(0));
    while i < text.lines.len()
        invariant
            i <= text.lines@.len(),
            all == rich::row_texts(text@),
            all.len() == text.lines@.len(),
            txt::texts(out@) == all.take(i as int),
            forall|j: int| 0 <= j < i ==> (#[trigger] all[j]).len() <= usize::MAX,
        decreases text.lines@.len() - i,
    {
        assert(text@[i as int] == text.lines@[i as int]@);
        let chars = rich::line_chars(&text.lines[i]);
        let n = chars.len();
        assert(all[i as int].len() == n);
        txt::push_text(&mut out, txt::string_of(chars.as_slice()));
        assert(all.take(i as int + 1) =~= all.take(i as int).push(all[i as int]));
        i = i + 1;
    }
    assert(all.take(i as int) =~= all);
    out
}

/// Appends the rows of a file's section; returns, for a rendered diff, the row each
/// of its lines starts at.
pub fn append_section(lines: &mut Vec<Line>, path: &str, shown: &Result<Text, String>, width: u16) -> (r:
    Vec<usize>)
    ensures
        rich::rows(final(lines)@) == rich::rows(old(lines)@) + section_rows(
            path@,
            delta::outcome(*shown),
            width,
        ),
        shown matches Ok(text) ==> r@.len() == text@.len() && forall|l: int|
            0 <= l < text@.len() ==> #[trigger] r@[l] == old(lines)@.len() + rich::wrapped_upto(
                text@,
                width as nat,
                l,
            ).len(),
{
    let ghost was = rich::rows(lines@);
    let mut row_of: Vec<usize> = Vec::new();
    match shown {
        Ok(text) => {
            assert(text@.len() == text.lines@.len());
            if text.lines.len() == 0 {
                rich::push_line(lines, rich::raw_line("  (no textual diff)"));
                assert(rich::rows(lines@) =~= was + section_rows(
                    path@,
                    delta::outcome(*shown),
                    width,
                ));
                return row_of;
            }
            let ghost list = text@;
            let mut i: usize = 0;
            assert(was + rich::wrapped_upto(list, width as nat, 0) =~= was);
            while i < text.lines.len()
                invariant
                    i <= text.lines@.len(),
                    list == rich::rows(text.lines@),
                    was == rich::rows(old(lines)@),
                    was.len() == old(lines)@.len(),
                    rich::rows(lines@) == was + rich::wrapped_upto(list, width as nat, i as int),
                    row_of@.len() == i,
                    forall|l: int|
                        0 <= l < i ==> #[trigger] row_of@[l] == was.len() + rich::wrapped_upto(
                            list,
                            width as nat,
                            l,
                        ).len(),
                decreases text.lines@.len() - i,
            {
                assert(list[i as int] == text.lines@[i as int]@);
                let here = lines.len();
                assert(here == rich::rows(lines@).len());
                row_of.push(here);
                rich::wrap_line_into(&text.lines[i], width as usize, lines);
                assert(was + (rich::wrapped_upto(list, width as nat, i as int) + rich::wrapped(
                    list[i as int],
                    width as nat,
                )) =~= (was + rich::wrapped_upto(list, width as nat, i as int)) + rich::wrapped(
                    list[i as int],
                    width as nat,
                ));
                i = i + 1;
            }
            row_of
        },
        Err(message) => {
            let mut line = "  error rendering ".to_owned();
            line.append(path);
            line.append(": ");
            line.append(message.as_str());
            rich::push_line(lines, rich::raw_line(line.as_str()));
            assert(rich::rows(lines@) =~= was + section_rows(
                path@,
                delta::outcome(*shown),
                width,
            ));
            row_of
        },
    }
}

/// Where a located match stands in the combined diff.
fn place_match(row_of: &Vec<usize>, width: u16, start: usize, file_pos: usize, m: Located) -> (r:
    AppMatch)
    requires
        m.aligned ==> m.line < row_of@.len() && m.cols.0 <= m.cols.1,
    ensures
        forall|text: Seq<Row>|
            (forall|l: int|
                0 <= l < row_of@.len() ==> #[trigger] row_of@[l] == start + rich::wrapped_upto(
                    text,
                    width as nat,
                    l,
                ).len()) ==> r == #[trigger] placed_match(
                text,
                width,
                start as int,
                file_pos as int,
                m,
            ),
{
    if !m.aligned {
        return AppMatch { row: start, cols: (0, 0), file_pos, aligned: false };
    }
    let w: usize = if width >= 1 {
        width as usize
    } else {
        1
    };
    let row: u128 = row_of[m.line] as u128 + (m.cols.0 / w) as u128;
    let from: usize = m.cols.0 % w;
    let len: usize = m.cols.1 - m.cols.0;
    let to: usize = if len > w - from {
        w
    } else {
        from + len
    };
    proof {
        assert forall|text: Seq<Row>|
            (forall|l: int|
                0 <= l < row_of@.len() ==> #[trigger] row_of@[l] == start + rich::wrapped_upto(
                    text,
                    width as nat,
                    l,
                ).len()) implies (row as usize) == (#[trigger] placed_match(
            text,
            width,
            start as int,
            file_pos as int,
            m,
        )).row by {
            assert(row_of@[m.line as int] == start + rich::wrapped_upto(
                text,
                width as nat,
                m.line as int,
            ).len());
        }
    }
    AppMatch { row: row as usize, cols: (from, to), file_pos, aligned: true }
}

/// Appends the content-search hits of a file's section that starts at row `start`,
/// each line of whose diff starts at the row that `row_of` gives.
fn append_matches(
    out: &mut Vec<AppMatch>,
    text: &Text,
    row_of: &Vec<usize>,
    found: Vec<Located>,
    width: u16,
    start: usize,
    file_pos: usize,
)
    requires
        row_of@.len() == text@.len(),
        forall|l: int|
            0 <= l < text@.len() ==> #[trigger] row_of@[l] == start + rich::wrapped_upto(
                text@,
                width as nat,
                l,
            ).len(),
        forall|i: int|
            0 <= i < found@.len() && (#[trigger] found@[i]).aligned ==> found@[i].line < text@.len()
                && found@[i].cols.0 <= found@[i].cols.1,
    ensures
        final(out)@ == old(out)@ + placed_upto(
            text@,
            width,
            start as int,
            file_pos as int,
            found@,
            found@.len() as int,
        ),
{
    let ghost was = out@;
    let mut i: usize = 0;
    assert(was + placed_upto(text@, width, start as int, file_pos as int, found@, 0) =~= was);
    while i < found.len()
        invariant
            i <= found@.len(),
            row_of@.len() == text@.len(),
            forall|l: int|
                0 <= l < text@.len() ==> #[trigger] row_of@[l] == start + rich::wrapped_upto(
                    text@,
                    width as nat,
                    l,
                ).len(),
            forall|j: int|
                0 <= j < found@.len() && (#[trigger] found@[j]).aligned ==> found@[j].line
                    < text@.len() && found@[j].cols.0 <= found@[j].cols.1,
            out@ == was + placed_upto(
                text@,
                width,
                start as int,
                file_pos as int,
                found@,
                i as int,
            ),
        decreases found@.len() - i,
    {
        let m = found[i];
        let placed = place_match(row_of, width, start, file_pos, m);
        assert(placed == placed_match(text@, width, start as int, file_pos as int, m));
        out.push(placed);
        assert(out@ =~= was + placed_upto(
            text@,
            width,
            start as int,
            file_pos as int,
            found@,
            i as int + 1,
        ));
        i = i + 1;
    }
}

proof fn lemma_placed_files(
    text: Seq<Row>,
    width: u16,
    start: int,
    file_pos: int,
    found: Seq<Located>,
    n: int,
)
    requires
        0 <= n <= found.len(),
        0 <= file_pos < usize::MAX,
    ensures
        forall|i: int|
            0 <= i < placed_upto(text, width, start, file_pos, found, n).len() ==> (
            #[trigger] placed_upto(text, width, start, file_pos, found, n)[i]).file_pos
                < usize::MAX,
    decreases n,
{
    if n > 0 {
        lemma_placed_files(text, width, start, file_pos, found, n - 1);
        let a = placed_upto(text, width, start, file_pos, found, n - 1);
        let b = placed_upto(text, width, start, file_pos, found, n);
        assert forall|i: int| 0 <= i < b.len() implies (#[trigger] b[i]).file_pos < usize::MAX by {
            if i < a.len() {
                assert(a[i].file_pos < usize::MAX);
            } else {
                assert(b[i] == placed_match(text, width, start, file_pos, found[n - 1]));
                assert((file_pos as usize) < usize::MAX);
            }
        }
    }
}

impl Draft {
    /// Appends the section of the file at `path`, whose diff rendered to `shown`.
    pub fn append(
        &mut self,
        path: &str,
        shown: Result<Text, String>,
        raw: Option<&str>,
        needle: &Option<String>,
        scope: Scope,
        tab_width: u16,
        width: u16,
        file_pos: usize,
    )
        requires
            file_pos < usize::MAX,
        ensures
            final(self)@.rows == old(self)@.rows + section_rows(
                path@,
                delta::outcome(shown),
                width,
            ),
            final(self)@.offsets == old(self)@.offsets.push(old(self)@.rows.len() as usize),
            final(self)@.matches == old(self)@.matches + section_matches(
                delta::outcome(shown),
                match raw {
                    Some(r) => Some(r@),
                    None => None,
                },
                Hunt { needle: txt::opt_text(*needle), scope, tab_width },
                width,
                old(self)@.rows.len() as int,
                file_pos as int,
            ),
            final(self)@.complaint == (match shown {
                Ok(_) => old(self)@.complaint,
                Err(message) => Some(message@),
            }),
            old(self)@.rows.len() <= usize::MAX,
            forall|i: int|
                old(self)@.matches.len() <= i < final(self)@.matches.len() ==> (
                #[trigger] final(self)@.matches[i]).file_pos < usize::MAX,
    {
        let start = self.lines.len();
        assert(self@.rows.len() == start);
        self.offsets.push(start);
        let row_of = append_section(&mut self.lines, path, &shown, width);
        let ghost before = self.matches@;
        assert(before + Seq::<AppMatch>::empty() =~= before);
        match shown {
            Ok(text) => {
                assert(text@.len() == text.lines@.len());
                if let (Some(needle), Some(raw)) = (needle, raw) {
                    if text.lines.len() > 0 {
                        let rendered = line_texts(&text);
                        let found = search::locate_matches(
                            raw,
                            rendered.as_slice(),
                            needle.as_str(),
                            scope,
                            tab_width,
                        );
                        proof {
                            let shown_texts = rich::row_texts(text@);
                            assert forall|i: int|
                                0 <= i < found@.len() && (
                                #[trigger] found@[i]).aligned implies found@[i].line < text@.len()
                                && found@[i].cols.0 <= found@[i].cols.1 by {
                                crate::search_laws::law_aligned_matches_show_the_needle(
                                    raw@,
                                    shown_texts,
                                    needle@,
                                    scope,
                                    tab_width,
                                    i,
                                );
                            }
                            lemma_placed_files(
                                text@,
                                width,
                                start as int,
                                file_pos as int,
                                found@,
                                found@.len() as int,
                            );
                        }
                        let ghost all = found@;
                        append_matches(
                            &mut self.matches,
                            &text,
                            &row_of,
                            found,
                            width,
                            start,
                            file_pos,
                        );
                        proof {
                            let new = placed_upto(
                                text@,
                                width,
                                start as int,
                                file_pos as int,
                                all,
                                all.len() as int,
                            );
                            assert forall|i: int|
                                before.len() <= i < self.matches@.len() implies (
                            #[trigger] self.matches@[i]).file_pos < usize::MAX by {
                                assert(self.matches@[i] == new[i - before.len()]);
                            }
                        }
                    }
                }
            },
            Err(message) => {
                self.complaint = Some(message);
            },
        }
    }
}

impl App {
    /// Whether [`Self::ensure_combined`] has work to do (data/sort/filter changed,
    /// or the pane was resized). Lets the event loop paint first, then build.
    pub fn needs_build(&self) -> (r: bool)
        ensures
            r == self@.needs_build(),
    {
        self.pane.needs_rebuild || self.pane.built_width != self.pane.diff_width
    }

    /// The positions of the filtered files that have no cached render at the current
    /// width.
    pub fn cold_files(&self) -> (r: Vec<usize>)
        requires
            self@.wf(),
        ensures
            forall|k: int|
                0 <= k < self@.list.filtered.len() ==> (r@.contains(k as usize)
                    <==> #[trigger] self@.is_cold(k)),
            forall|j: int| 0 <= j < r@.len() ==> (#[trigger] r@[j]) < self@.list.filtered.len(),
            forall|a: int, b: int| 0 <= a < b < r@.len() ==> #[trigger] r@[a] < #[trigger] r@[b],
    {
        proof {
            reveal(State::wf);
            reveal(State::steady);
        }
        let ghost s = self@;
        let n = self.list.filtered.len();
        let mut out: Vec<usize> = Vec::new();
        let mut k: usize = 0;
        while k < n
            invariant
                k <= n,
                n == s.list.filtered.len(),
                s == self@,
                s.wf(),
                forall|j: int|
                    0 <= j < k ==> (out@.contains(j as usize) <==> !s.source.cache.contains(
                        (#[trigger] s.filtered_entry(j)).path,
                        listing::signature_of(s.filtered_entry(j)),
                        s.pane.diff_width,
                    )),
                forall|j: int| 0 <= j < out@.len() ==> (#[trigger] out@[j]) < k,
                forall|a: int, b: int|
                    0 <= a < b < out@.len() ==> #[trigger] out@[a] < #[trigger] out@[b],
            decreases n - k,
        {
            proof {
                reveal(State::wf);
                reveal(State::steady);
            }
            let ghost was = out@;
            assert(s.list.filtered[k as int] < s.list.files.len());
            let entry = &self.list.files[self.list.filtered[k]];
            assert(s.filtered_entry(k as int) == entry@);
            let cold = !self.source.cache.contains(
                entry.path.as_str(),
                listing::signature(entry),
                self.pane.diff_width,
            );
            if cold {
                out.push(k);
            }
            proof {
                assert forall|j: int| 0 <= j < k + 1 implies (out@.contains(j as usize)
                    <==> !s.source.cache.contains(
                    (#[trigger] s.filtered_entry(j)).path,
                    listing::signature_of(s.filtered_entry(j)),
                    s.pane.diff_width,
                )) by {
                    if cold {
                        assert(out@[was.len() as int] == k);
                        if was.contains(j as usize) {
                            let i = choose|i: int| 0 <= i < was.len() && was[i] == j as usize;
                            assert(out@[i] == j as usize);
                        }
                        if out@.contains(j as usize) && j < k {
                            let i = choose|i: int| 0 <= i < out@.len() && out@[i] == j as usize;
                            assert(was[i] == j as usize);
                        }
                    }
                }
            }
            k = k + 1;
        }
        out
    }

    /// Concatenates every filtered file's diff; what is not cached comes from
    /// `made`, and is cached.
    fn build(&mut self, made: &Vec<Production>) -> (r: Draft)
        requires
            old(self)@.wf(),
            made@.len() == old(self)@.list.filtered.len(),
        ensures
            final(self)@ == old(self)@.with_cache(old(self)@.built(made@).cache),
            r@ == old(self)@.built(made@).draft,
            r@.wf(old(self)@.list.filtered.len() as int),
            final(self)@.wf(),
    {
        proof {
            reveal(State::wf);
            reveal(State::steady);
        }
        let ghost s = self@;
        let n = self.list.filtered.len();
        let width = self.pane.diff_width;
        let (needle, _) = search::split_query(self.find.search.as_str());
        let mut draft = Draft {
            lines: Vec::new(),
            offsets: Vec::new(),
            matches: Vec::new(),
            complaint: None,
        };
        let mut k: usize = 0;
        assert(draft@.rows =~= Seq::<Row>::empty());
        while k < n
            invariant
                k <= n,
                n == s.list.filtered.len(),
                made@.len() == n,
                s.wf(),
                width == s.pane.diff_width,
                txt::opt_text(needle) == s.hunt().needle,
                self@ == s.with_cache(s.built_upto(made@, k as int).cache),
                draft@ == s.built_upto(made@, k as int).draft,
                draft@.wf(k as int),
            decreases n - k,
        {
            proof {
                reveal(State::wf);
                reveal(State::steady);
            }
            let ghost b = s.built_upto(made@, k as int);
            assert(s.list.filtered[k as int] < s.list.files.len());
            let at = self.list.filtered[k];
            assert(s.filtered_entry(k as int) == self.list.files@[at as int]@);
            let path = self.list.files[at].path.clone();
            let sig = listing::signature(&self.list.files[at]);
            let shown = self.source.cache.get_or_render(path.as_str(), sig, width, &made[k]);
            let raw = self.source.cache.raw_text(path.as_str(), sig);
            let ghost before = draft@;
            draft.append(
                path.as_str(),
                shown,
                raw,
                &needle,
                self.find.search_scope,
                self.source.tab_width,
                width,
                k,
            );
            proof {
                let next = s.build_step(b, k as int, made@[k as int]);
                assert(next == s.built_upto(made@, k as int + 1));
                assert(draft@ == next.draft);
                assert(before.rows.len() <= draft@.rows.len());
                assert forall|i: int, j: int|
                    0 <= i <= j < draft@.offsets.len() implies #[trigger] draft@.offsets[i]
                    <= #[trigger] draft@.offsets[j] by {
                    if i < k && j == k {
                        assert(before.offsets[i] <= before.rows.len());
                    } else if i < k {
                        assert(before.offsets[i] <= before.offsets[j]);
                    }
                }
                assert forall|i: int| 0 <= i < draft@.offsets.len() implies #[trigger] draft@.offsets[i]
                    <= draft@.rows.len() by {
                    if i < k {
                        assert(before.offsets[i] <= before.rows.len());
                    }
                }
                assert forall|i: int| 0 <= i < draft@.matches.len() implies (
                #[trigger] draft@.matches[i]).file_pos < usize::MAX by {
                    if i < before.matches.len() {
                        assert(before.matches[i].file_pos < usize::MAX);
                    }
                }
            }
            k = k + 1;
        }
        draft
    }

    /// Puts a new combined diff in place.
    fn install(&mut self, draft: Draft)
        requires
            old(self)@.wf(),
            draft@.wf(old(self)@.list.filtered.len() as int),
        ensures
            final(self)@ == old(self)@.install(draft@),
            final(self)@.wf(),
    {
        proof {
            reveal(State::wf);
            reveal(State::steady);
        }
        let width = self.pane.diff_width;
        let count = draft.matches.len();
        self.pane.combined = Text { lines: draft.lines };
        self.pane.offsets = draft.offsets;
        self.find.matches = draft.matches;
        self.find.current_match = geometry::min_size(
            self.find.current_match,
            geometry::sub_size(count, 1),
        );
        self.pane.built_width = width;
        self.pane.needs_rebuild = false;
        if let Some(message) = draft.complaint {
            self.set_status(message);
        }
    }

    /// The first position of a filtered file at `path`.
    fn path_position(&self, path: &str) -> (r: Option<usize>)
        requires
            self@.wf(),
        ensures
            match r {
                Some(k) => self@.path_position(path@, 0) == Some(k as int) && k
                    < self@.list.filtered.len(),
                None => self@.path_position(path@, 0) is None,
            },
    {
        proof {
            reveal(State::wf);
            reveal(State::steady);
        }
        let n = self.list.filtered.len();
        let mut k: usize = 0;
        while k < n
            invariant
                k <= n,
                n == self@.list.filtered.len(),
                self@.wf(),
                self@.path_position(path@, 0) == self@.path_position(path@, k as int),
            decreases n - k,
        {
            proof {
                reveal(State::wf);
                reveal(State::steady);
            }
            assert(self@.list.filtered[k as int] < self@.list.files.len());
            let at = self.list.filtered[k];
            assert(self@.filtered_entry(k as int) == self.list.files@[at as int]@);
            if txt::same(self.list.files[at].path.as_str(), path) {
                return Some(k);
            }
            k = k + 1;
        }
        None
    }

    /// Restores the viewport onto the previously anchored file, if still present.
    fn restore_viewport(&mut self)
        requires
            old(self)@.wf(),
            old(self)@.pane.offsets.len() == old(self)@.list.filtered.len(),
        ensures
            final(self)@ == old(self)@.restore_viewport(),
            final(self)@.wf(),
    {
        proof {
            reveal(State::wf);
            reveal(State::steady);
        }
        let (path, intra) = match &self.pane.restore_anchor {
            None => {
                return;
            },
            Some((path, intra)) => (path.clone(), *intra),
        };
        self.pane.restore_anchor = None;
        let ghost s = self@;
        if let Some(k) = self.path_position(path.as_str()) {
            proof {
                lemma_same_position(old(self)@, s, path@, 0);
            }
            let n = self.list.filtered.len();
            self.list.selected = k;
            self.pane.diff_scroll = geometry::add16(
                geometry::fit_16(self.pane.offsets[k]),
                intra,
            );
        } else {
            proof {
                lemma_same_position(old(self)@, s, path@, 0);
            }
        }
    }

    /// Moves the viewport into a new combined diff.
    fn arrive(&mut self)
        requires
            old(self)@.wf(),
        ensures
            final(self)@ == old(self)@.arrive(),
            final(self)@.wf(),
    {
        self.clamp_scroll_to_window();
        self.update_selected_from_scroll();

        // Live jump: land on the first match after a query edit.
        let jump = self.find.pending_match_jump && self.find.matches.len() > 0;
        let ghost s = self@;
        self.find.pending_match_jump = false;
        proof {
            crate::state::lemma_wf(s, self@);
        }
        if jump {
            self.center_current_match();
        }
        self.sync_history();
    }

    /// Takes over a new combined diff, with the viewport where it was.
    pub fn adopt(&mut self, draft: Draft)
        requires
            old(self)@.wf(),
            draft@.wf(old(self)@.list.filtered.len() as int),
        ensures
            final(self)@ == old(self)@.installed(draft@).arrive(),
            final(self)@.wf(),
    {
        self.install(draft);
        self.restore_viewport();
        self.arrive();
    }

    /// Ensure the combined diff reflects the current file set at the current width.
    /// Cheap when nothing changed. Per-file diffs come from the cache, so a rebuild
    /// is mostly just concatenation; `made` holds, for each filtered file, what was
    /// produced for it, and is looked at for those that are not cached.
    pub fn ensure_combined(&mut self, made: &Vec<Production>)
        requires
            old(self)@.wf(),
            made@.len() == old(self)@.list.filtered.len(),
        ensures
            final(self)@ == old(self)@.ensure_combined(made@),
            final(self)@.wf(),
    {
        if !self.needs_build() {
            return;
        }
        let draft = self.build(made);
        self.adopt(draft);
    }
}

proof fn lemma_same_position(a: State, b: State, path: Seq<char>, k: int)
    requires
        a.list == b.list,
    ensures
        a.path_position(path, k) == b.path_position(path, k),
    decreases a.list.filtered.len() - k,
{
    if 0 <= k < a.list.filtered.len() {
        lemma_same_position(a, b, path, k + 1);
    }
}

// --- warming the cache ---------------------------------------------------------

/// A diff rendered ahead of time: its cache key but for the width, the rendered
/// text or the error's message, and the searchable text if git gave a diff.
pub struct Rendered {
    pub path: String,
    pub sig: u64,
    pub text: Result<Text, String>,
    pub raw: Option<String>,
}

/// How many workers render diffs ahead of time: one for each, but no more than there are
/// cores, and 16 at most.
pub open spec fn workers(cores: int, cold: int) -> int {
    geometry::lesser(geometry::lesser(cores, cold), 16)
}

/// How many workers render `cold` files on a machine with `cores` cores.
pub fn worker_count(cores: usize, cold: usize) -> (r: usize)
    ensures
        r == workers(cores as int, cold as int),
{
    geometry::min_size(geometry::min_size(cores, cold), 16)
}

/// Renders what was produced for `entry`. Works on its arguments alone, so many
/// files can be rendered concurrently.
pub fn prepare(entry: &FileEntry, made: &Production) -> (r: Rendered)
    ensures
        r.path@ == entry@.path,
        r.sig == listing::signature_of(entry@),
        delta::outcome(r.text) == made.shown(),
        txt::opt_text(r.raw) == (match made.raw {
            Ok(raw) => Some(delta::searchable(raw@)),
            Err(_) => None,
        }),
{
    Rendered {
        path: entry.path.clone(),
        sig: listing::signature(entry),
        text: made.show(),
        raw: match &made.raw {
            Ok(raw) => Some(delta::searchable_text(raw.as_slice())),
            Err(_) => None,
        },
    }
}

impl State {
    /// With one diff that was rendered ahead of time stored.
    pub open spec fn warm_step(self, r: Rendered) -> State {
        let kept = match r.raw {
            Some(raw) => self.source.cache.insert_raw(r.path@, r.sig, raw@),
            None => self.source.cache,
        };
        match delta::outcome(r.text) {
            Ok(text) => self.with_cache(kept.insert(r.path@, r.sig, self.pane.diff_width, text)),
            Err(message) => self.with_cache(kept).set_status(message),
        }
    }

    /// With the first `n` of the diffs that were rendered ahead of time stored.
    pub open spec fn warmed_upto(self, list: Seq<Rendered>, n: int) -> State
        decreases n,
    {
        if n <= 0 {
            self
        } else {
            self.warmed_upto(list, n - 1).warm_step(list[n - 1])
        }
    }

    /// With the diffs that were rendered ahead of time stored.
    pub open spec fn prewarm(self, list: Seq<Rendered>) -> State {
        self.warmed_upto(list, list.len() as int)
    }
}

impl App {
    /// Store diffs that were rendered ahead of time at the current width, so the
    /// subsequent concatenation is all cache hits.
    pub fn prewarm(&mut self, out: Vec<Rendered>)
        requires
            old(self)@.wf(),
        ensures
            final(self)@ == old(self)@.prewarm(out@),
            final(self)@.wf(),
    {
        proof {
            reveal(State::wf);
            reveal(State::steady);
        }
        let ghost s = self@;
        let ghost list = out@;
        let width = self.pane.diff_width;
        let mut rest = out;
        let ghost mut i: int = 0;
        assert(rest@ =~= list.skip(0));
        while rest.len() > 0
            invariant
                0 <= i <= list.len(),
                rest@ == list.skip(i),
                width == self@.pane.diff_width,
                self@ == s.warmed_upto(list, i),
                self@.wf(),
            decreases rest@.len(),
        {
            proof {
                reveal(State::wf);
                reveal(State::steady);
            }
            let r = rest.remove(0);
            assert(r == list[i]);
            assert(rest@ =~= list.skip(i + 1));
            if let Some(raw) = r.raw {
                self.source.cache.insert_raw(r.path.as_str(), r.sig, raw);
            }
            match r.text {
                Ok(text) => self.source.cache.insert(r.path.as_str(), r.sig, width, text),
                Err(message) => self.set_status(message),
            }
            proof {
                i = i + 1;
            }
        }
    }
}

} // verus!
