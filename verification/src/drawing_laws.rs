//! What the screen says, character by character.

use vstd::prelude::*;
use crate::diff_pane;
use crate::diff_pane::Mark;
use crate::footer;
use crate::geometry;
use crate::git;
use crate::git::{Entry, KIND_ORDER};
use crate::labels;
use crate::list_pane;
use crate::rich;
use crate::rich::{Highlight, Ink, Row, Run};
use crate::rich_laws;
use crate::rich_laws::{style_at, text_of};
use crate::search;
use crate::sort;
use crate::state;
use crate::state::{AppMatch, KindSet, Mode, Selection, State, Target};
use crate::txt;

verus! {

proof fn lemma_text_two(a: Run, b: Run)
    ensures
        text_of(seq![a, b]) == a.text + b.text,
{
    rich_laws::lemma_text_add(seq![a], seq![b]);
    rich_laws::lemma_text_one(a);
    rich_laws::lemma_text_one(b);
    assert(seq![a] + seq![b] =~= seq![a, b]);
}

proof fn lemma_text_three(a: Run, b: Run, c: Run)
    ensures
        text_of(seq![a, b, c]) == a.text + b.text + c.text,
{
    lemma_text_two(a, b);
    rich_laws::lemma_text_add(seq![a, b], seq![c]);
    rich_laws::lemma_text_one(c);
    assert(seq![a, b] + seq![c] =~= seq![a, b, c]);
}

/// A text that is only there under a condition.
pub open spec fn only_if(shown: bool, text: Seq<char>) -> Seq<char> {
    if shown {
        text
    } else {
        Seq::empty()
    }
}

proof fn lemma_run_if(shown: bool, run: Run)
    ensures
        text_of(list_pane::run_if(shown, run)) == only_if(shown, run.text),
{
    if shown {
        rich_laws::lemma_text_one(run);
    } else {
        assert(text_of(Seq::<Run>::empty()) =~= Seq::<char>::empty());
    }
}

// --- the file list -----------------------------------------------------------------------

/// Line counts as they are written: ` +added` and ` -removed`, where they are not zero.
pub open spec fn counts_text(added: nat, removed: nat) -> Seq<char> {
    only_if(added > 0, " +"@ + txt::decimal(added)) + only_if(removed > 0, " -"@ + txt::decimal(
        removed,
    ))
}

proof fn lemma_counts(added: nat, removed: nat)
    ensures
        text_of(list_pane::stat_runs(added, removed)) == counts_text(added, removed),
{
    let a = rich::styled(" +"@ + txt::decimal(added), rich::colored(Ink::Green));
    let b = rich::styled(" -"@ + txt::decimal(removed), rich::colored(Ink::Red));
    lemma_run_if(added > 0, a);
    lemma_run_if(removed > 0, b);
    rich_laws::lemma_text_add(list_pane::run_if(added > 0, a), list_pane::run_if(removed > 0, b));
}

/// What a file's row says behind the path: the lines added and removed, as far as they are
/// known and not zero, a dot if it changed and was not looked at since, and the number of
/// matches in it.
pub proof fn law_behind_the_path(e: Entry, recent: bool, hits: nat)
    ensures
        ({
            let added: nat = if e.added is Some {
                e.added->0 as nat
            } else {
                0
            };
            let removed: nat = if e.removed is Some {
                e.removed->0 as nat
            } else {
                0
            };
            text_of(list_pane::tail_runs(e, recent, hits)) == counts_text(added, removed)
                + only_if(recent, " ●"@) + only_if(hits > 0, " ×"@ + txt::decimal(hits))
        }),
{
    let (added, removed) = (list_pane::count_shown(e.added), list_pane::count_shown(e.removed));
    lemma_counts(added, removed);
    let dot = rich::styled(" ●"@, rich::colored(Ink::Cyan));
    let times = rich::styled(" ×"@ + txt::decimal(hits), rich::colored(Ink::Yellow));
    lemma_run_if(recent, dot);
    lemma_run_if(hits > 0, times);
    let x = list_pane::stat_runs(added, removed);
    let y = list_pane::run_if(recent, dot);
    rich_laws::lemma_text_add(x, y);
    rich_laws::lemma_text_add(x + y, list_pane::run_if(hits > 0, times));
}

proof fn lemma_width_is_text(list: Seq<Run>)
    ensures
        rich::width(list) == text_of(list).len(),
{
    lemma_width_upto_is_text(list, list.len() as int);
}

proof fn lemma_width_upto_is_text(list: Seq<Run>, n: int)
    requires
        n <= list.len(),
    ensures
        rich::width_upto(list, n) == rich::chars_upto(list, n).len(),
    decreases n,
{
    if n > 0 {
        lemma_width_upto_is_text(list, n - 1);
    }
}

/// The row of a listed file: the letter of its kind, its path, and what stands behind it;
/// a path that does not fit is shortened to what is left, in the selected row it scrolls
/// if that is more than four columns.
pub proof fn law_rows_of_files(s: State, k: int, row_w: int, hover: Option<Target>)
    requires
        row_w >= 0,
    ensures
        ({
            let e = s.list.files[s.list.filtered[k] as int];
            let tail = list_pane::tail_runs(
                e,
                s.cues.recently_changed.contains(e.path),
                list_pane::hits_of(s.find.matches, k),
            );
            let room = row_w - 2 - text_of(tail).len();
            let text = rich::row_text(s.file_row(k, row_w, hover));
            let start = seq![git::marker_of(e.kind), ' '];
            &&& e.path.len() <= room ==> text == start + e.path + text_of(tail)
            &&& 0 < room < e.path.len() && !(k == s.list.selected && room > 4) ==> text == start
                + labels::middle_cut(e.path, room) + text_of(tail)
            &&& 4 < room < e.path.len() && k == s.list.selected ==> text == start
                + labels::scrolled_name(e.path, room as nat, s.marquee.offset as int) + text_of(tail)
            &&& room <= 0 ==> text == start + text_of(tail)
        }),
{
    let e = s.filtered_entry(k);
    let tail = s.tail_at(k);
    lemma_width_is_text(tail);
    let avail = s.path_columns(k, row_w);
    let row = s.file_row(k, row_w, hover);
    let (a, b) = (row.runs[0], row.runs[1]);
    lemma_text_two(a, b);
    rich_laws::lemma_text_add(seq![a, b], tail);
    assert(seq![a, b] + tail =~= row.runs);
    let start = seq![git::marker_of(e.kind), ' '];
    let room = row_w - 2 - text_of(tail).len();
    if room <= 0 {
        assert(avail == 0);
        assert(b.text =~= Seq::<char>::empty());
        assert(start + b.text =~= start);
    }
}

/// The list has one row for each listed file, in their order.
pub proof fn law_one_row_for_each_file(s: State, row_w: int, hover: Option<Target>, n: int, k: int)
    requires
        0 <= k < n,
    ensures
        s.file_rows_upto(row_w, hover, n).len() == n,
        s.file_rows_upto(row_w, hover, n)[k] == s.file_row(k, row_w, hover),
    decreases n,
{
    if n > 1 {
        if k < n - 1 {
            law_one_row_for_each_file(s, row_w, hover, n - 1, k);
        } else {
            law_one_row_for_each_file(s, row_w, hover, n - 1, 0);
        }
    } else {
        reveal_with_fuel(State::file_rows_upto, 2);
    }
}

/// The matches of a file are counted one by one.
pub proof fn law_matches_of_a_file(matches: Seq<AppMatch>, m: AppMatch, k: int)
    ensures
        list_pane::hits_of(Seq::empty(), k) == 0,
        list_pane::hits_of(matches.push(m), k) == list_pane::hits_of(matches, k) + if m.file_pos
            == k {
            1int
        } else {
            0
        },
{
    lemma_hits_start(matches.push(m), matches, k, matches.len() as int);
}

proof fn lemma_hits_start(a: Seq<AppMatch>, b: Seq<AppMatch>, k: int, n: int)
    requires
        n <= a.len(),
        n <= b.len(),
        forall|i: int| 0 <= i < n ==> #[trigger] a[i] == b[i],
    ensures
        list_pane::hits_upto(a, k, n) == list_pane::hits_upto(b, k, n),
    decreases n,
{
    if n > 0 {
        lemma_hits_start(a, b, k, n - 1);
        assert(a[n - 1] == b[n - 1]);
    }
}

/// The changeset's totals are summed up over the listed files; a count that is not known
/// adds nothing.
pub proof fn law_totals(s: State, n: int)
    requires
        0 <= n,
    ensures
        s.added_upto(0) == 0 && s.removed_upto(0) == 0,
        ({
            let e = s.list.files[s.list.filtered[n] as int];
            &&& s.added_upto(n + 1) == s.added_upto(n) + if e.added is Some {
                e.added->0 as int
            } else {
                0
            }
            &&& s.removed_upto(n + 1) == s.removed_upto(n) + if e.removed is Some {
                e.removed->0 as int
            } else {
                0
            }
        }),
{
}

/// The list's header: how many files are listed, the totals if there is room, and at the
/// right end of the row the sort field and its direction.
pub proof fn law_header_of_the_list(s: State, avail: int, hover: Option<Target>)
    ensures
        ({
            let n = s.list.filtered.len() as int;
            let title = " CHANGES ("@ + txt::decimal(n as nat) + ")"@;
            let counts = counts_text(s.added_upto(n), s.removed_upto(n));
            let order = sort::field_name(s.list.sort_field) + " "@ + sort::arrow(s.list.sort_desc);
            let text = text_of(s.list_header(avail, hover));
            let width = title.len() + counts.len() + order.len();
            &&& width <= avail ==> text == title + counts + txt::repeated(
                ' ',
                (avail - width) as nat,
            ) + order && text.len() == avail
            &&& title.len() + order.len() <= avail < width ==> text == title + txt::repeated(
                ' ',
                (avail - title.len() - order.len()) as nat,
            ) + order
            &&& avail < title.len() + order.len() ==> text == title + order
        }),
{
    let n = s.list.filtered.len() as int;
    let title = s.header_title();
    let stats = list_pane::stat_runs(s.added_upto(n), s.removed_upto(n));
    lemma_counts(s.added_upto(n), s.removed_upto(n));
    lemma_width_is_text(stats);
    let order = s.order_runs(hover);
    reveal_strlit(" ");
    lemma_text_three(order[0], order[1], order[2]);
    assert(order =~= seq![order[0], order[1], order[2]]);
    let runs = s.list_header(avail, hover);
    let head = runs[0];
    let base_w = title.len() as int;
    let right_w = s.order_width();
    let shown = if base_w + rich::width(stats) + right_w <= avail {
        stats
    } else {
        Seq::empty()
    };
    assert(text_of(Seq::<Run>::empty()) =~= Seq::<char>::empty());
    lemma_width_is_text(shown);
    let pad = geometry::minus(avail, base_w + rich::width(shown) + right_w);
    let gap = rich::raw(txt::repeated(' ', pad as nat));
    rich_laws::lemma_text_one(head);
    rich_laws::lemma_text_one(gap);
    rich_laws::lemma_text_add(seq![head], shown);
    rich_laws::lemma_text_add(seq![head] + shown, seq![gap]);
    rich_laws::lemma_text_add(seq![head] + shown + seq![gap], order);
    assert(runs =~= seq![head] + shown + seq![gap] + order);
    let text = text_of(runs);
    assert(text == title + text_of(shown) + gap.text + text_of(order));
    if base_w + rich::width(stats) + right_w > avail {
        assert(title + Seq::<char>::empty() =~= title);
    }
    if pad == 0 {
        assert(gap.text =~= Seq::<char>::empty());
        assert(title + Seq::<char>::empty() =~= title);
        assert(title + text_of(shown) + gap.text =~= title + text_of(shown));
    }
    let counts = counts_text(s.added_upto(n), s.removed_upto(n));
    let width = title.len() + counts.len() + text_of(order).len();
    if width == avail {
        assert(txt::repeated(' ', 0) =~= gap.text);
    }
    if title.len() + text_of(order).len() == avail {
        assert(txt::repeated(' ', 0) =~= Seq::<char>::empty());
        assert(title + txt::repeated(' ', 0) =~= title);
    }
}

/// The chips of the kinds: ` [A][M][D][R][U]`, lit where the kind is chosen, underlined
/// under the mouse.
pub proof fn law_chips_of_the_kinds(on: KindSet, hover: Option<Target>, i: int)
    requires
        0 <= i < 5,
    ensures
        ({
            let runs = list_pane::kind_chips_upto(on, hover, 5);
            let kind = KIND_ORDER[i];
            let plain = if state::has_kind(on, kind) {
                rich::with_modifier(rich::colored(labels::kind_color(kind)), 65)
            } else {
                rich::colored(Ink::DarkGray)
            };
            &&& runs.len() == 6
            &&& runs[0].text == " "@
            &&& runs[i + 1].text == seq!['[', git::marker_of(kind), ']']
            &&& runs[i + 1].style == if hover == Some(Target::KindChip(kind)) {
                rich::with_modifier(plain, 8)
            } else {
                plain
            }
        }),
{
    reveal_with_fuel(list_pane::kind_chips_upto, 6);
    assert(64u16 | 1u16 == 65u16) by (bit_vector);
}

/// The chips of the types: each as `[.ext]`, lit where the type is chosen, underlined
/// under the mouse, with a blank behind it.
pub proof fn law_chips_of_the_types(
    types: Seq<Seq<char>>,
    on: Set<Seq<char>>,
    hover: Option<Target>,
    n: int,
    i: int,
)
    requires
        0 <= i < n <= types.len(),
    ensures
        ({
            let runs = list_pane::type_chips_upto(types, on, hover, n);
            let ext = types[i];
            let plain = if on.contains(ext) {
                rich::with_modifier(rich::colored(labels::extension_color(ext)), 65)
            } else {
                rich::colored(Ink::DarkGray)
            };
            &&& runs.len() == 2 * n + 1
            &&& runs[0].text == " "@
            &&& runs[2 * i + 1].text == "[."@ + ext + "]"@
            &&& runs[2 * i + 1].style == if hover == Some(Target::FileType(ext)) {
                rich::with_modifier(plain, 8)
            } else {
                plain
            }
            &&& runs[2 * i + 2].text == " "@
        }),
    decreases n,
{
    assert(64u16 | 1u16 == 65u16) by (bit_vector);
    if n > 1 {
        law_chips_of_the_types(
            types,
            on,
            hover,
            n - 1,
            if i < n - 1 {
                i
            } else {
                0
            },
        );
    } else {
        reveal_with_fuel(list_pane::type_chips_upto, 2);
    }
}

/// Drawing the list is looking at the selected file: its mark goes, and those of others
/// stay.
pub proof fn law_looking_takes_the_mark(s: State, width: u16, path: Seq<char>)
    ensures
        ({
            let t = s.after_list(width);
            let seen = s.current_entry() is Some && s.current_entry()->0.path == path;
            &&& t.cues.recently_changed.contains(path) == (!seen && s.cues.recently_changed.contains(
                path,
            ))
            &&& t.list == s.list && t.find == s.find && t.pane == s.pane
        }),
        s.list.selected >= 0 && s.list.selected != s.marquee.sel ==> s.after_list(
            width,
        ).marquee.offset == 0,
        s.list.selected == s.marquee.sel ==> s.after_list(width).marquee.offset == s.marquee.offset,
{
}

// --- the diff ------------------------------------------------------------------------------

/// The lines that are shown: from the one that is scrolled to on, as many as there is room
/// for, and none that is not in view.
pub proof fn law_which_lines_are_shown(s: State, height: int, k: int)
    requires
        0 <= k,
        height >= 0,
        s.shown_window().0 <= s.shown_scroll() < s.shown_window().1,
        s.shown_window().0 >= 0,
    ensures
        ({
            let (start, end) = s.shown_window();
            let left = end - s.shown_scroll();
            let lines = s.drawn_upto(s.end_visible(height));
            &&& lines.len() == if left < height {
                left
            } else {
                height
            }
            &&& k < lines.len() ==> lines[k] == s.drawn_row(s.shown_scroll() + k)
        }),
        s.history is None ==> s.shown_scroll() == s.pane.diff_scroll && s.shown_window()
            == s.view_window(),
        s.history is Some ==> s.shown_scroll() == s.history->0.scroll && s.shown_window() == (
            0int,
            s.history->0.text.len() as int,
        ),
{
    assert(s.first_visible() == s.shown_scroll());
    lemma_drawn(s, s.end_visible(height), k);
}

proof fn lemma_drawn(s: State, end: int, k: int)
    requires
        s.first_visible() >= 0,
        0 <= k,
    ensures
        s.drawn_upto(end).len() == geometry::minus(end, s.first_visible()),
        k < s.drawn_upto(end).len() ==> s.drawn_upto(end)[k] == s.drawn_row(s.first_visible() + k),
    decreases end,
{
    if end > s.first_visible() && end > 0 {
        lemma_drawn(s, end - 1, k);
    }
}

/// Which columns of a line are selected: in the first line from the selection's start, in
/// the last up to its end, in between all of them.
pub proof fn law_selected_columns(sel: Selection, li: int, len: int, col: int)
    requires
        len >= 0,
        0 <= col < len,
    ensures
        ({
            let (a, b) = if sel.anchor.0 < sel.cursor.0 || sel.anchor.0 == sel.cursor.0
                && sel.anchor.1 <= sel.cursor.1 {
                (sel.anchor, sel.cursor)
            } else {
                (sel.cursor, sel.anchor)
            };
            let inside = diff_pane::selected_columns(state::ends(sel), li, len) matches Some(r)
                && r.0 <= col < r.1;
            inside <==> {
                &&& a.0 <= li <= b.0
                &&& li == a.0 ==> a.1 <= col
                &&& li == b.0 ==> col < b.1
            }
        }),
{
}

/// A line stands as it is in the diff where it has no matches and is not selected.
pub proof fn law_plain_lines_are_drawn_plain(s: State, li: int)
    requires
        s.pointer.selection is None,
        s.history is Some || forall|i: int|
            0 <= i < s.find.matches.len() ==> !(#[trigger] s.find.matches[i]).aligned
                || s.find.matches[i].row != li,
    ensures
        s.drawn_row(li) == s.shown_rows()[li],
{
    if s.history is None {
        lemma_unlit(
            s.shown_rows()[li],
            li,
            s.find.matches,
            s.find.current_match,
            s.find.matches.len() as int,
        );
    }
}

proof fn lemma_unlit(row: Row, li: int, matches: Seq<AppMatch>, current: int, n: int)
    requires
        n <= matches.len(),
        forall|i: int|
            0 <= i < matches.len() ==> !(#[trigger] matches[i]).aligned || matches[i].row != li,
    ensures
        diff_pane::lit_upto(row, li, matches, current, n) == row,
    decreases n,
{
    if n > 0 {
        assert(!matches[n - 1].aligned || matches[n - 1].row != li);
        lemma_unlit(row, li, matches, current, n - 1);
    }
}

/// Whether match `m` covers column `col` of line `li`.
pub open spec fn covers(m: AppMatch, li: int, col: int) -> bool {
    m.aligned && m.row == li && m.cols.0 <= col < m.cols.1
}

/// The columns of a match stand out, those of the current one in its own way; every other
/// column of the line keeps its style.
pub proof fn law_matches_stand_out(
    row: Row,
    li: int,
    matches: Seq<AppMatch>,
    current: int,
    col: int,
    i: int,
)
    requires
        0 <= col < rich::width(row.runs),
        0 <= i < matches.len(),
        forall|j: int|
            0 <= j < matches.len() && j != i ==> !covers(#[trigger] matches[j], li, col),
    ensures
        ({
            let lit = diff_pane::lit_upto(row, li, matches, current, matches.len() as int);
            &&& style_at(row.runs, col) is Some
            &&& covers(matches[i], li, col) ==> style_at(lit.runs, col) == Some(
                rich::highlighted(
                    style_at(row.runs, col)->0,
                    if i == current {
                        Highlight::Current
                    } else {
                        Highlight::Hit
                    },
                ),
            )
            &&& !covers(matches[i], li, col) ==> style_at(lit.runs, col) == style_at(row.runs, col)
        }),
{
    rich_laws::law_highlighting_styles_those_columns(row, 0, 0, Highlight::Hit, col);
    lemma_lit(row, li, matches, current, col, i, matches.len() as int);
}

proof fn lemma_lit(
    row: Row,
    li: int,
    matches: Seq<AppMatch>,
    current: int,
    col: int,
    i: int,
    n: int,
)
    requires
        0 <= n <= matches.len(),
        0 <= col < rich::width(row.runs),
        0 <= i < matches.len(),
        style_at(row.runs, col) is Some,
        forall|j: int|
            0 <= j < matches.len() && j != i ==> !covers(#[trigger] matches[j], li, col),
    ensures
        ({
            let lit = diff_pane::lit_upto(row, li, matches, current, n);
            &&& rich::width(lit.runs) == rich::width(row.runs)
            &&& covers(matches[i], li, col) && i < n ==> style_at(lit.runs, col) == Some(
                rich::highlighted(
                    style_at(row.runs, col)->0,
                    if i == current {
                        Highlight::Current
                    } else {
                        Highlight::Hit
                    },
                ),
            )
            &&& !covers(matches[i], li, col) || i >= n ==> style_at(lit.runs, col) == style_at(
                row.runs,
                col,
            )
        }),
    decreases n,
{
    if n > 0 {
        lemma_lit(row, li, matches, current, col, i, n - 1);
        let before = diff_pane::lit_upto(row, li, matches, current, n - 1);
        let m = matches[n - 1];
        if m.aligned && m.row == li && m.cols.1 > m.cols.0 {
            let how = if n - 1 == current {
                Highlight::Current
            } else {
                Highlight::Hit
            };
            let (cs, ce) = (m.cols.0 as int, m.cols.1 as int);
            rich_laws::law_highlighting_styles_those_columns(before, cs, ce, how, col);
            rich_laws::law_highlighting_keeps_the_text(before, cs, ce, how);
            lemma_width_is_text(before.runs);
            lemma_width_is_text(rich::restyled(before, cs, ce, how).runs);
        }
        if n - 1 != i {
            assert(!covers(matches[n - 1], li, col));
        }
    }
}

/// What stands in place of a diff: that nothing changed, that no file is listed, or that
/// the diffs are being rendered; where there is something to show, it is shown.
pub proof fn law_in_place_of_a_diff(s: State)
    ensures
        s.history is Some ==> s.placeholder() is None,
        s.history is None && s.list.files.len() == 0 ==> s.placeholder() == Some(
            "✨ clean working tree — nothing changed"@,
        ),
        s.history is None && s.list.files.len() > 0 && s.list.filtered.len() == 0
            ==> s.placeholder() == Some("no files match the current filters"@),
        s.history is None && s.list.filtered.len() > 0 && s.list.files.len() > 0
            && s.pane.combined.len() == 0 ==> s.placeholder() == Some("rendering diffs…"@),
        s.history is None && s.list.filtered.len() > 0 && s.list.files.len() > 0
            && s.pane.combined.len() > 0 ==> s.placeholder() is None,
{
}

/// Each match that was located in view has its mark on the rail, and the current one's is
/// marked as such; nothing is marked without a search, or in a history.
pub proof fn law_marks_on_the_rail(s: State, top: int, height: int, i: int)
    requires
        0 <= i < s.find.matches.len(),
        s.find.current_match >= 0,
        height > 0,
    ensures
        ({
            let m = s.find.matches[i];
            let (start, end) = s.view_window();
            let searching = s.history is None && search::content_needle(s.find.search) is Some;
            let shown = m.aligned && start <= m.row < end;
            let mark = Mark {
                y: (top + geometry::rail_cell(m.row - start, end - start, height)) as u16,
                current: i == s.find.current_match,
            };
            &&& searching && shown ==> s.marks(top, height).contains(mark)
            &&& !searching ==> s.marks(top, height).len() == 0
        }),
{
    let n = s.find.matches.len() as int;
    let list = s.marks_upto(top, height, n);
    lemma_marks(s, top, height, n, i);
    if s.shows_marks(height) && s.markable(i) {
        let mark = Mark {
            y: s.mark_row(i, top, height) as u16,
            current: i == s.find.current_match,
        };
        if i == s.find.current_match {
            assert(s.marks(top, height).last() == mark);
        } else {
            let k = choose|k: int| 0 <= k < list.len() && list[k] == mark;
            assert(s.marks(top, height)[k] == mark);
        }
    }
}

proof fn lemma_marks(s: State, top: int, height: int, n: int, i: int)
    requires
        0 <= n <= s.find.matches.len(),
    ensures
        0 <= i < n && s.markable(i) && i != s.find.current_match ==> s.marks_upto(
            top,
            height,
            n,
        ).contains(Mark { y: s.mark_row(i, top, height) as u16, current: false }),
    decreases n,
{
    if n > 0 {
        lemma_marks(s, top, height, n - 1, i);
        let before = s.marks_upto(top, height, n - 1);
        let list = s.marks_upto(top, height, n);
        let mark = Mark { y: s.mark_row(i, top, height) as u16, current: false };
        if i == n - 1 {
            if s.markable(i) && i != s.find.current_match {
                assert(list.last() == mark);
            }
        } else if before.contains(mark) {
            let k = choose|k: int| 0 <= k < before.len() && before[k] == mark;
            assert(list[k] == mark);
        }
    }
}

/// The rail is there when not everything fits.
pub proof fn law_when_there_is_a_rail(s: State, height: int)
    ensures
        s.shows_rail(height) <==> s.shown_window().1 - s.shown_window().0 > height,
{
}

/// The header of the live view, where there is room for all of it: the kind's letter, the
/// path, the base, how far the branch is behind, and the position.
pub proof fn law_header_of_the_diff(s: State, width: u16, e: Entry)
    requires
        s.history is None,
        s.current_entry() == Some(e),
        0 <= s.view_window().0 <= s.pane.diff_scroll,
        s.view_window().0 <= s.view_window().1,
        s.source.base_label.len() > 0,
    ensures
        ({
            let (start, end) = s.view_window();
            let position = " ["@ + txt::decimal((s.pane.diff_scroll - start) as nat) + "/"@
                + txt::decimal((end - start) as nat) + "]"@;
            let behind = only_if(
                s.cues.behind is Some && s.cues.behind->0 > 0,
                " ↓"@ + txt::decimal(s.cues.behind->0 as nat),
            );
            let base = "   "@ + s.source.base_label;
            let rest = behind.len() + position.len() + base.len() + 4;
            let path = if e.path.len() < 12 {
                12
            } else {
                e.path.len() as int
            };
            width >= rest + path ==> text_of(s.diff_header(width)) == seq![
                ' ',
                git::marker_of(e.kind),
                ' ',
            ] + e.path + base + behind + position
        }),
{
    let (start, end) = s.view_window();
    crate::label_laws::law_positions(s.pane.diff_scroll, start, end);
    let position = labels::position_text(s.pane.diff_scroll, start, end);
    let behind = s.behind_text();
    reveal_strlit("   ");
    let base = "   "@ + s.source.base_label;
    let rest = behind.len() + position.len() + base.len() + 4;
    let path = if e.path.len() < 12 {
        12
    } else {
        e.path.len() as int
    };
    if width >= rest + path {
        let runs = s.diff_header(width);
        let total = width - 1 - 3 - behind.len() - position.len();
        let label = s.source.base_label;
        crate::label_laws::law_header_columns(total, label.len() as int);
        assert(labels::header_split(total, label.len() as int) == (
            total - label.len() - 3,
            label.len() as int,
        ));
        assert(labels::middle_cut(label, label.len() as int) == label);
        assert(labels::middle_cut(e.path, total - label.len() - 3) == e.path) by {
            crate::label_laws::law_cuts_only_when_needed(e.path, total - label.len() - 3);
        }
        let dim = rich::colored(Ink::DarkGray);
        let a = rich::styled(
            seq![' ', git::marker_of(e.kind), ' '],
            rich::colored(labels::kind_color(e.kind)),
        );
        let b = rich::styled(e.path, dim);
        let c = rich::styled(base, dim);
        let d = rich::styled(behind, rich::colored(Ink::Yellow));
        let p = rich::styled(position, dim);
        assert(runs =~= seq![a, b] + seq![c] + seq![d, p]);
        lemma_text_two(a, b);
        lemma_text_two(d, p);
        rich_laws::lemma_text_one(c);
        rich_laws::lemma_text_add(seq![a, b], seq![c]);
        rich_laws::lemma_text_add(seq![a, b] + seq![c], seq![d, p]);
        assert(text_of(runs) =~= a.text + b.text + c.text + behind + position);
    }
}

/// Which commit of how many a history shows, and where it is scrolled to; a commit from
/// before the branch says so.
pub proof fn law_header_of_a_history(s: State, width: u16)
    requires
        s.history is Some,
    ensures
        ({
            let h = s.history->0;
            let c = h.entries[h.pos];
            let runs = s.diff_header(width);
            &&& runs.last().text == " ("@ + txt::decimal((h.pos + 1) as nat) + "/"@ + txt::decimal(
                h.entries.len(),
            ) + ") ["@ + txt::decimal(h.scroll as nat) + "/"@ + txt::decimal(h.text.len()) + "]"@
            &&& runs[0].text == " ⟲ "@
            &&& c.pre_branch ==> runs[runs.len() - 2].text == " pre-branch "@
            &&& !c.pre_branch ==> runs[runs.len() - 2].text != " pre-branch "@
                || runs[runs.len() - 2].style != rich::with_modifier(rich::colored(Ink::Red), 64)
        }),
{
    let h = s.history->0;
    let c = h.commit();
    let runs = s.diff_header(width);
    let dim = rich::colored(Ink::DarkGray);
    let last = rich::styled(h.suffix(), dim);
    assert(runs.last() == last);
}

// --- the footer ----------------------------------------------------------------------------

/// The footer while typing: the scope, the query, and how many matches there are.
pub proof fn law_footer_while_typing(s: State)
    requires
        s.find.mode == Mode::Search,
    ensures
        ({
            let runs = s.footer();
            let n = s.find.matches.len();
            &&& runs[0].text == "search["@ + search::scope_glyph(s.find.search_scope) + "]: "@
            &&& runs[1].text == s.find.search
            &&& search::content_needle(s.find.search) is Some ==> runs.len() == 5 && runs[3].text
                == " — "@ + txt::decimal(n) + " match"@ + only_if(n != 1, "es"@)
            &&& search::content_needle(s.find.search) is None ==> runs.len() == 4
        }),
{
}

/// The footer while choosing kinds: one pill for each, lit where it is chosen.
pub proof fn law_footer_while_choosing(s: State, i: int)
    requires
        s.find.mode == Mode::KindFilter,
        0 <= i < 5,
    ensures
        ({
            let runs = s.footer();
            let kind = KIND_ORDER[i];
            &&& runs.len() == 7
            &&& runs[0].text == "kinds: "@
            &&& runs[i + 1].text == seq!['[', git::marker_of(kind), ']']
            &&& state::has_kind(s.find.kind_filter, kind) ==> runs[i + 1].style
                == rich::with_modifier(rich::colored(labels::kind_color(kind)), 65)
            &&& !state::has_kind(s.find.kind_filter, kind) ==> runs[i + 1].style == rich::colored(
                Ink::DarkGray,
            )
        }),
{
    reveal_with_fuel(footer::pills_upto, 6);
    assert(64u16 | 1u16 == 65u16) by (bit_vector);
}

/// The footer otherwise: a message if there is one, else the keys, and what is unusual;
/// either way that an update is ready.
pub proof fn law_footer_otherwise(s: State)
    requires
        s.find.mode == Mode::Normal,
    ensures
        ({
            let runs = s.footer();
            let n = s.find.matches.len();
            let searching = s.history is None && search::content_needle(s.find.search) is Some;
            let unusual = only_if(s.history is Some, " · history (←/→ walk · Esc live)"@) + only_if(
                s.control.follow,
                " · follow"@,
            ) + only_if(
                s.find.kind_filter != state::no_kinds(),
                " · kinds: "@ + footer::markers_upto(s.find.kind_filter, 5),
            ) + only_if(
                searching,
                if n == 0 {
                    " · match 0/0"@
                } else {
                    " · match "@ + txt::decimal((s.find.current_match + 1) as nat) + "/"@
                        + txt::decimal(n)
                },
            );
            &&& s.note.status.len() > 0 ==> runs[0].text == s.note.status
            &&& s.note.status.len() == 0 ==> runs[0].text
                == "c kinds · b base · / search · Tab collapse · ? help · q quit"@
            &&& s.note.status.len() == 0 && unusual.len() > 0 ==> runs[1].text == unusual
            &&& s.cues.update_ready && s.note.status.len() > 0 ==> runs.last().text
                == "   ⟳ restart to apply"@
            &&& s.cues.update_ready && s.note.status.len() == 0 ==> runs.last().text
                == " · ⟳ restart to apply"@
        }),
{
    let n = s.find.matches.len();
    let searching = s.history is None && search::content_needle(s.find.search) is Some;
    let unusual = only_if(s.history is Some, " · history (←/→ walk · Esc live)"@) + only_if(
        s.control.follow,
        " · follow"@,
    ) + only_if(
        s.find.kind_filter != state::no_kinds(),
        " · kinds: "@ + footer::markers_upto(s.find.kind_filter, 5),
    ) + only_if(
        searching,
        if n == 0 {
            " · match 0/0"@
        } else {
            " · match "@ + txt::decimal((s.find.current_match + 1) as nat) + "/"@ + txt::decimal(n)
        },
    );
    assert(s.unusual() =~= unusual);
}

/// The kinds that are chosen are named by their letters, in the order of the chips.
pub proof fn law_letters_of_the_chosen(on: KindSet, n: int)
    requires
        0 <= n < 5,
    ensures
        footer::markers_upto(on, 0).len() == 0,
        state::has_kind(on, KIND_ORDER[n]) ==> footer::markers_upto(on, n + 1)
            == footer::markers_upto(on, n).push(git::marker_of(KIND_ORDER[n])),
        !state::has_kind(on, KIND_ORDER[n]) ==> footer::markers_upto(on, n + 1)
            == footer::markers_upto(on, n),
{
}

// --- the help ------------------------------------------------------------------------------

/// The help names each key with what it does, aligned, and says how to leave it.
pub proof fn law_the_help(i: int)
    requires
        0 <= i < 20,
    ensures
        ({
            let rows = footer::help_rows();
            let entry = footer::help_entries()[i];
            &&& rows.len() == 21
            &&& entry.0.len() <= 22 ==> rich::row_text(rows[i]) == "  "@ + entry.0 + txt::repeated(
                ' ',
                (22 - entry.0.len()) as nat,
            ) + entry.1
            &&& rich::row_text(rows[20]) == "  press any key to close"@
        }),
{
    let list = footer::help_entries();
    lemma_help_rows(list, 20, i);
    let rows = footer::help_rows();
    let entry = list[i];
    let row = footer::help_row(entry);
    lemma_text_two(row.runs[0], row.runs[1]);
    assert(row.runs =~= seq![row.runs[0], row.runs[1]]);
    if entry.0.len() <= 22 {
        assert(geometry::minus(22, entry.0.len() as int) == 22 - entry.0.len());
        assert(row.runs[0].text =~= "  "@ + entry.0 + txt::repeated(
            ' ',
            (22 - entry.0.len()) as nat,
        ));
    }
    rich_laws::lemma_text_one(rows[20].runs[0]);
    assert(rows[20].runs =~= seq![rows[20].runs[0]]);
}

proof fn lemma_help_rows(list: Seq<(Seq<char>, Seq<char>)>, n: int, i: int)
    requires
        0 <= i < n,
    ensures
        footer::help_rows_upto(list, n).len() == n,
        footer::help_rows_upto(list, n)[i] == footer::help_row(list[i]),
    decreases n,
{
    if n > 1 {
        lemma_help_rows(
            list,
            n - 1,
            if i < n - 1 {
                i
            } else {
                0
            },
        );
    } else {
        reveal_with_fuel(footer::help_rows_upto, 2);
    }
}

/// The help stands in the middle, as large as it is or as there is room.
pub proof fn law_where_the_help_stands(area: crate::geometry::Rect)
    requires
        area.x + area.width <= 0xffff,
        area.y + area.height <= 0xffff,
    ensures
        ({
            let r = crate::picture::help_rect(area);
            &&& area.width >= 62 ==> r.width == 62
            &&& area.width < 62 ==> r.width == area.width
            &&& area.height >= 23 ==> r.height == 23
            &&& area.height < 23 ==> r.height == area.height
            &&& 0 <= (area.width - r.width) - 2 * (r.x - area.x) <= 1
            &&& 0 <= (area.height - r.height) - 2 * (r.y - area.y) <= 1
        }),
{
}

/// The colors of the chips of common languages.
pub proof fn law_curated_colors()
    ensures
        labels::extension_color("rs"@) == Ink::Red,
        labels::extension_color("py"@) == Ink::Green,
        labels::extension_color("md"@) == Ink::Gray,
        labels::extension_color("ts"@) == Ink::Blue && labels::extension_color("tsx"@) == Ink::Blue,
        labels::extension_color("js"@) == Ink::Yellow && labels::extension_color("jsx"@)
            == Ink::Yellow,
        labels::extension_color("json"@) == Ink::Cyan && labels::extension_color("yaml"@)
            == Ink::Cyan && labels::extension_color("yml"@) == Ink::Cyan && labels::extension_color(
            "toml"@,
        ) == Ink::Cyan,
        labels::extension_color("css"@) == Ink::Magenta && labels::extension_color("scss"@)
            == Ink::Magenta && labels::extension_color("html"@) == Ink::Magenta,
{
    reveal_strlit("rs");
    reveal_strlit("py");
    reveal_strlit("md");
    reveal_strlit("ts");
    reveal_strlit("tsx");
    reveal_strlit("js");
    reveal_strlit("jsx");
    reveal_strlit("json");
    reveal_strlit("yaml");
    reveal_strlit("yml");
    reveal_strlit("toml");
    reveal_strlit("css");
    reveal_strlit("scss");
    reveal_strlit("html");
    let c = |e: Seq<char>| (e.len(), e[0], e[1]);
    assert(c("rs"@) != c("ts"@) && c("rs"@) != c("js"@) && c("rs"@) != c("py"@));
    assert(c("py"@) != c("ts"@) && c("py"@) != c("js"@));
    assert(c("md"@) != c("ts"@) && c("md"@) != c("js"@) && c("md"@) != c("py"@) && c("md"@) != c(
        "rs"@,
    ));
    assert(c("js"@) != c("ts"@) && c("jsx"@) != c("tsx"@));
    assert(c("yml"@) != c("tsx"@) && c("yml"@) != c("jsx"@));
    assert(c("css"@) != c("tsx"@) && c("css"@) != c("jsx"@) && c("css"@) != c("yml"@));
    assert(c("scss"@) != c("json"@) && c("scss"@) != c("yaml"@) && c("scss"@) != c("toml"@));
    assert(c("html"@) != c("json"@) && c("html"@) != c("yaml"@) && c("html"@) != c("toml"@));
}

// --- where things stand --------------------------------------------------------------------

/// Where the parts of the diff's pane stand: the header in the first row, the text below
/// it, and the rail, if there is one, right of the text in the last column.
pub proof fn law_parts_of_the_diff_pane(
    pane: diff_pane::DiffPane,
    s: State,
    area: crate::geometry::Rect,
)
    requires
        pane.shows(s, area),
        area.width > 0,
        area.height > 0,
        area.x + area.width <= 0xffff,
        area.y + area.height <= 0xffff,
    ensures
        pane.header_area.x == area.x && pane.header_area.y == area.y,
        pane.header_area.width == area.width && pane.header_area.height == 1,
        pane.inner.x == area.x && pane.inner.y == area.y + 1,
        pane.inner.width == area.width - 1 && pane.inner.height == area.height - 1,
        pane.header@.runs == s.diff_header(area.width),
        match pane.body {
            diff_pane::DiffBody::Placeholder(text) => s.placeholder() == Some(text@),
            diff_pane::DiffBody::Lines(lines, rail) => {
                &&& s.placeholder() is None
                &&& rich::rows(lines@) == s.drawn_upto(s.end_visible(area.height - 1))
                &&& rail is Some <==> s.shown_window().1 - s.shown_window().0 > area.height - 1
                &&& rail matches Some(rail) ==> {
                    &&& rail.area.x == area.x + area.width - 1 && rail.area.y == area.y + 1
                    &&& rail.area.width == 1 && rail.area.height == area.height - 1
                    &&& rail.length + area.height - 1 == s.shown_window().1 - s.shown_window().0
                    &&& s.shown_scroll() >= s.shown_window().0 ==> rail.position == s.shown_scroll()
                        - s.shown_window().0
                    &&& rail.marks@ == s.marks(area.y + 1, area.height - 1)
                }
            },
        },
{
}

/// Where the parts of the list's pane stand: the header, the kinds and the types in a row
/// each, the files below; the selected file's row is the one highlighted.
pub proof fn law_parts_of_the_list_pane(
    pane: list_pane::ListPane,
    s: State,
    area: crate::geometry::Rect,
)
    requires
        pane.shows(s, area),
        area.height >= 3,
        area.width >= 2,
        area.y + area.height <= 0xffff,
        0 <= s.list.selected <= usize::MAX,
    ensures
        pane.header_area.y == area.y && pane.header_area.height == 1,
        pane.kind_area.y == area.y + 1 && pane.kind_area.height == 1,
        pane.type_area.y == area.y + 2 && pane.type_area.height == 1,
        pane.list_area.y == area.y + 3 && pane.list_area.height == area.height - 3,
        pane.list_area.x == area.x && pane.list_area.width == area.width,
        s.list.filtered.len() == 0 ==> pane.selected is None,
        s.list.filtered.len() > 0 ==> pane.selected is Some && pane.selected->0 == s.list.selected,
        rich::rows(pane.rows@) == s.file_rows_upto(
            area.width - 2,
            s.hover_target(),
            s.list.filtered.len() as int,
        ),
        pane.header@.runs == s.list_header(area.width - 1, s.hover_target()),
        pane.kind_chips@.runs == list_pane::kind_chips_upto(
            s.find.kind_filter,
            s.hover_target(),
            5,
        ),
        pane.type_chips@.runs == list_pane::type_chips_upto(
            s.list.file_types,
            s.find.file_type_filter,
            s.hover_target(),
            s.list.file_types.len() as int,
        ),
{
    assert(pane.shown() == s.list_shown(area.width));
    assert(pane.shown().rows == s.list_shown(area.width).rows);
}

/// What is on the screen: the diff always, the list unless it is collapsed, the footer, and
/// the help while it is asked for.
pub proof fn law_parts_of_the_picture(
    picture: crate::picture::Picture,
    s: State,
    p: crate::frame::Panes,
)
    requires
        picture.shows(s, p),
    ensures
        picture.list is Some <==> !s.screen.sidebar_collapsed && p.left.height > 0,
        picture.diff is Some <==> p.right.height > 0,
        picture.help is Some <==> s.control.show_help,
        picture.footer@.runs == s.footer(),
        picture.list matches Some(pane) ==> pane.shows(s, p.left),
        picture.diff matches Some(pane) ==> pane.shows(s, p.right),
{
}

/// Without a selected file the header only says what the pane is.
pub proof fn law_header_without_a_file(s: State, width: u16)
    requires
        s.history is None,
        s.current_entry() is None,
    ensures
        text_of(s.diff_header(width)) == " DIFF"@,
        s.list.selected >= s.list.filtered.len() ==> s.current_entry() is None,
{
    rich_laws::lemma_text_one(s.diff_header(width)[0]);
    assert(s.diff_header(width) =~= seq![s.diff_header(width)[0]]);
}

/// A file's row is underlined under the mouse, and its letter has the kind's color.
pub proof fn law_styles_of_a_row(s: State, k: int, row_w: int, hover: Option<Target>)
    ensures
        ({
            let row = s.file_row(k, row_w, hover);
            let e = s.list.files[s.list.filtered[k] as int];
            &&& row.runs[0].style == rich::colored(labels::kind_color(e.kind))
            &&& hover == Some(Target::FileRow(k)) ==> row.style == rich::with_modifier(
                rich::unstyled(),
                8,
            )
            &&& hover != Some(Target::FileRow(k)) ==> row.style == rich::unstyled()
        }),
{
}

/// The header of a history, where there is room for all of it: the path the file had, the
/// short hash, the subject, and the positions.
pub proof fn law_whole_header_of_a_history(s: State, width: u16)
    requires
        s.history is Some,
        !s.history->0.entries[s.history->0.pos].pre_branch,
    ensures
        ({
            let h = s.history->0;
            let c = h.entries[h.pos];
            let end = " ("@ + txt::decimal((h.pos + 1) as nat) + "/"@ + txt::decimal(
                h.entries.len(),
            ) + ") ["@ + txt::decimal(h.scroll as nat) + "/"@ + txt::decimal(h.text.len()) + "]"@;
            let subject = if c.subject.len() < 10 {
                10
            } else {
                c.subject.len() as int
            };
            width >= 8 + end.len() + c.path_at_commit.len() + c.short_hash.len() + subject
                ==> text_of(s.diff_header(width)) == " ⟲ "@ + c.path_at_commit + (" · "@
                + c.short_hash) + (" "@ + c.subject) + end
        }),
{
    let h = s.history->0;
    let c = h.commit();
    let end = h.suffix();
    let subject = if c.subject.len() < 10 {
        10
    } else {
        c.subject.len() as int
    };
    if width >= 8 + end.len() + c.path_at_commit.len() + c.short_hash.len() + subject {
        let total = width - 1;
        crate::label_laws::law_history_header_columns(
            total,
            c.path_at_commit.len() as int,
            c.short_hash.len() as int,
            end.len() as int,
            false,
        );
        let (p, shown, room) = labels::history_split(
            total,
            c.path_at_commit.len() as int,
            c.short_hash.len() as int,
            end.len() as int,
            false,
        );
        assert(p == c.path_at_commit.len() && shown && room >= c.subject.len() && room > 0);
        crate::label_laws::law_cuts_only_when_needed(c.path_at_commit, p);
        crate::label_laws::law_cuts_only_when_needed(c.subject, room);
        let dim = rich::colored(Ink::DarkGray);
        let cyan = rich::colored(Ink::Cyan);
        let a = rich::styled(" ⟲ "@, cyan);
        let b = rich::styled(c.path_at_commit, dim);
        let d = rich::styled(" · "@ + c.short_hash, cyan);
        let e = rich::styled(" "@ + c.subject, rich::colored(Ink::Gray));
        let z = rich::styled(end, dim);
        let runs = s.diff_header(width);
        assert(runs =~= seq![a, b] + seq![d] + seq![e] + seq![z]);
        lemma_text_two(a, b);
        rich_laws::lemma_text_one(d);
        rich_laws::lemma_text_one(e);
        rich_laws::lemma_text_one(z);
        rich_laws::lemma_text_add(seq![a, b], seq![d]);
        rich_laws::lemma_text_add(seq![a, b] + seq![d], seq![e]);
        rich_laws::lemma_text_add(seq![a, b] + seq![d] + seq![e], seq![z]);
    }
}

/// Nothing else is marked on the rail: a mark stands for a match that was located in view,
/// and only the current one's says that it is.
pub proof fn law_no_other_marks(s: State, top: int, height: int, mark: Mark)
    requires
        s.marks(top, height).contains(mark),
        s.find.current_match >= 0,
    ensures
        exists|i: int|
            {
                let m = #[trigger] s.find.matches[i];
                let (start, end) = s.view_window();
                &&& 0 <= i < s.find.matches.len()
                &&& m.aligned && start <= m.row < end
                &&& mark.current == (i == s.find.current_match)
                &&& mark.y == (top + geometry::rail_cell(m.row - start, end - start, height)) as u16
            },
{
    let n = s.find.matches.len() as int;
    let list = s.marks_upto(top, height, n);
    let all = s.marks(top, height);
    let k = choose|k: int| 0 <= k < all.len() && all[k] == mark;
    let at = s.find.current_match;
    if k < list.len() {
        let i = lemma_whose_mark(s, top, height, n, k);
        let m = s.find.matches[i];
    } else {
        let m = s.find.matches[at];
        assert(mark.current);
    }
}

proof fn lemma_whose_mark(s: State, top: int, height: int, n: int, k: int) -> (i: int)
    requires
        0 <= n <= s.find.matches.len(),
        0 <= k < s.marks_upto(top, height, n).len(),
    ensures
        0 <= i < n,
        s.markable(i),
        i != s.find.current_match,
        s.marks_upto(top, height, n)[k] == (Mark {
            y: s.mark_row(i, top, height) as u16,
            current: false,
        }),
    decreases n,
{
    if k < s.marks_upto(top, height, n - 1).len() {
        lemma_whose_mark(s, top, height, n - 1, k)
    } else {
        n - 1
    }
}

/// The header of the live view in whatever room there is: the path and the base are
/// shortened in the middle to the columns that they have.
pub proof fn law_shortened_header_of_the_diff(s: State, width: u16, e: Entry)
    requires
        s.history is None,
        s.current_entry() == Some(e),
        width > 0,
    ensures
        ({
            let (start, end) = s.view_window();
            let position = labels::position_text(s.pane.diff_scroll, start, end);
            let behind = only_if(
                s.cues.behind is Some && s.cues.behind->0 > 0,
                " ↓"@ + txt::decimal(s.cues.behind->0 as nat),
            );
            let left = width - 4 - behind.len() - position.len();
            let total = if left > 0 {
                left
            } else {
                0
            };
            let (path, base) = labels::header_split(total, s.source.base_label.len() as int);
            let label = labels::middle_cut(s.source.base_label, base);
            text_of(s.diff_header(width)) == seq![' ', git::marker_of(e.kind), ' ']
                + labels::middle_cut(e.path, path) + only_if(label.len() > 0, "   "@ + label)
                + behind + position
        }),
{
    let (start, end) = s.view_window();
    let position = labels::position_text(s.pane.diff_scroll, start, end);
    let behind = s.behind_text();
    let left = width - 4 - behind.len() - position.len();
    let total = if left > 0 {
        left
    } else {
        0
    };
    let (path, base) = labels::header_split(total, s.source.base_label.len() as int);
    let label = labels::middle_cut(s.source.base_label, base);
    let dim = rich::colored(Ink::DarkGray);
    let runs = s.diff_header(width);
    let a = rich::styled(
        seq![' ', git::marker_of(e.kind), ' '],
        rich::colored(labels::kind_color(e.kind)),
    );
    let b = rich::styled(labels::middle_cut(e.path, path), dim);
    let c = rich::styled("   "@ + label, dim);
    let d = rich::styled(behind, rich::colored(Ink::Yellow));
    let p = rich::styled(position, dim);
    let mid = list_pane::run_if(label.len() > 0, c);
    assert(runs =~= seq![a, b] + mid + seq![d, p]);
    lemma_text_two(a, b);
    lemma_text_two(d, p);
    lemma_run_if(label.len() > 0, c);
    rich_laws::lemma_text_add(seq![a, b], mid);
    rich_laws::lemma_text_add(seq![a, b] + mid, seq![d, p]);
    assert(text_of(runs) =~= a.text + b.text + text_of(mid) + behind + position);
}

} // verus!
