//! What holds of the view: histories, keys and clicks, themes, and the combined diff.

use vstd::prelude::*;
use crate::building;
use crate::commits::Commit;
use crate::config;
use crate::delta::Production;
use crate::diff_pane;
use crate::geometry;
use crate::git::ChangeKind;
use crate::input::{KeyCode, KeyEvent};
use crate::listing;
use crate::mouse::{MouseButton, MouseEvent, MouseEventKind};
use crate::rich;
use crate::state;
use crate::state::{Found, Mode, Pointer, State, Target};

verus! {

// --- histories -------------------------------------------------------------------

/// Stepping newer undoes stepping older: the same commit of the same file is shown.
pub proof fn law_newer_undoes_older(s: State)
    requires
        s.history matches Some(h) && 0 <= h.pos && h.pos + 1 < h.entries.len(),
    ensures
        s.history_back().history matches Some(h) && h.pos == s.history->Some_0.pos + 1,
        s.history_back().history_forward().history matches Some(h) && h.pos
            == s.history->Some_0.pos && h.entries == s.history->Some_0.entries && h.path
            == s.history->Some_0.path,
{
    reveal(State::history_back);
    reveal(State::history_forward);
}

/// Stepping older stops at the oldest commit.
pub proof fn law_the_oldest_commit_is_the_last(s: State)
    requires
        s.history matches Some(h) && h.pos + 1 == h.entries.len(),
    ensures
        s.history_back() == s,
{
    reveal(State::history_back);
}

/// Stepping newer from the newest commit lands back on the live diff, which is as it
/// was left.
pub proof fn law_the_newest_commit_leads_to_live(s: State)
    requires
        s.history matches Some(h) && h.pos == 0,
    ensures
        s.history_forward() == s.with_history(None),
        s.history_forward().pane == s.pane,
{
    reveal(State::history_forward);
}

/// A history opens at its newest commit, without a text selection left over from the
/// live view.
pub proof fn law_histories_open_at_the_newest(s: State, entries: Seq<Commit>)
    requires
        s.queue.history_request is Some,
        entries.len() > 0,
    ensures
        ({
            let t = s.open_history(Ok(entries));
            &&& t.history matches Some(h)
            &&& h.pos == 0 && h.entries == entries && h.scroll == 0
            &&& s.queue.history_request == Some(h.path)
            &&& t.pointer.selection is None
            &&& t.pane == s.pane
        }),
{
}

/// A file without commits says so, and the live view stays.
pub proof fn law_files_without_history_say_so(s: State)
    requires
        s.history is None,
    ensures
        s.current_entry() matches Some(e) && e.kind == ChangeKind::Untracked ==> {
            &&& s.history_back().history is None
            &&& s.history_back().queue.history_request == s.queue.history_request
            &&& s.history_back().note.status == "no commit history for this file"@
        },
        s.queue.history_request is Some ==> s.open_history(Ok(Seq::empty())).history is None && s.open_history(
            Ok(Seq::empty()),
        ).note.status == "no commit history for this file"@,
{
    reveal(State::history_back);
}

/// A commit that was rendered once is not rendered again when it is stepped back to.
pub proof fn law_rendered_commits_are_kept(s: State, made: Production)
    requires
        s.history matches Some(h) && 0 <= h.pos && h.pos + 1 < h.entries.len(),
    ensures
        ({
            let t = s.history_rendered(made).history_back().history_forward();
            &&& !t.queue.history_stale
            &&& t.history matches Some(h)
            &&& h.text == s.history_rendered(made).history->Some_0.text
        }),
{
    reveal(State::history_back);
    reveal(State::history_forward);
}

/// Scrolling a history leaves the live diff where it is.
pub proof fn law_history_scrolling_leaves_the_live_diff(s: State, amount: int)
    requires
        s.history is Some,
    ensures
        s.scroll_down(amount).pane == s.pane,
        s.scroll_up(amount).pane == s.pane,
        s.scroll_home().pane == s.pane,
        s.scroll_end().pane == s.pane,
        s.autoscroll().pane == s.pane,
{
    reveal(State::autoscroll);
}

// --- keys and clicks ---------------------------------------------------------------

/// `Esc` leaves a history first; only from the live view does it quit.
pub proof fn law_escape_leaves_the_history_first(s: State, key: KeyEvent)
    requires
        key == (KeyEvent { code: KeyCode::Esc, control: key.control }),
        s.find.mode == Mode::Normal,
        !s.control.show_help,
    ensures
        s.history is Some ==> s.handle_key(key) == s.with_history(None),
        s.history is None ==> s.handle_key(key).control.should_quit,
{
    reveal(State::normal_key);
    reveal(State::command_key);
}

/// Ctrl-C always quits.
pub proof fn law_control_c_quits(s: State)
    ensures
        s.handle_key(KeyEvent { code: KeyCode::Char('c'), control: true }).control.should_quit,
{
}

/// While help is open, any key and any click dismisses it and does nothing else; `q`
/// quits too.
pub proof fn law_help_is_dismissed(s: State, key: KeyEvent, button: MouseButton, col: u16, row: u16)
    requires
        s.control.show_help,
        !(key.control && key.code == KeyCode::Char('c')),
    ensures
        s.handle_key(key) == (if key.code == KeyCode::Char('q') {
            s.quit().with_help(false)
        } else {
            s.with_help(false)
        }),
        s.handle_mouse(MouseEvent { kind: MouseEventKind::Down(button), column: col, row })
            == s.with_help(false),
{
}

/// `Esc` in the search box clears the query and its scope and shows everything that
/// the other filters leave; `Enter` keeps the filter. Both return to normal keys.
pub proof fn law_leaving_the_search_box(s: State)
    requires
        s.find.mode == Mode::Search,
    ensures
        s.search_key(KeyCode::Esc).find.mode == Mode::Normal,
        s.search_key(KeyCode::Esc).find.search.len() == 0,
        s.search_key(KeyCode::Esc).find.search_scope == crate::search::Scope::Both,
        s.search_key(KeyCode::Esc).find.kind_filter == s.find.kind_filter,
        s.search_key(KeyCode::Esc).find.file_type_filter == s.find.file_type_filter,
        s.search_key(KeyCode::Enter) == s.with_mode(Mode::Normal),
{
    reveal(State::search_key);
    reveal(State::apply_filter);
    reveal(State::rebuild_filter);
}

/// What clicking an element does.
pub open spec fn clicked(s: State, t: Target) -> State {
    match t {
        Target::SortLabel => s.cycle_sort_field(),
        Target::SortArrow => s.toggle_sort_dir(),
        Target::KindChip(kind) => s.toggle_kind(kind),
        Target::FileType(ext) => s.toggle_file_type(ext),
        Target::FileRow(i) => s.select(i),
    }
}

/// Hovering previews the click: the element under the mouse is the one that a click
/// there reaches (but for the column next to the divider, which grabs it).
pub proof fn law_hovering_previews_the_click(s: State, col: u16, row: u16)
    requires
        !s.near_divider(col),
    ensures
        ({
            let over = s.handle_mouse(MouseEvent { kind: MouseEventKind::Moved, column: col, row });
            let click = MouseEvent {
                kind: MouseEventKind::Down(MouseButton::Left),
                column: col,
                row,
            };
            over.hover_target() matches Some(t) ==> over.handle_mouse(click) == clicked(
                over.with_pointer(Pointer { selection: None, ..over.pointer }),
                t,
            )
        }),
{
    reveal(State::hover_target);
    reveal(State::press);
    reveal(State::click_left);
    let over = s.handle_mouse(MouseEvent { kind: MouseEventKind::Moved, column: col, row });
    let bare = over.with_pointer(Pointer { selection: None, ..over.pointer });
    assert(over.spot(col, row) == bare.spot(col, row)) by {
        reveal(State::spot);
    }
}

/// The kinds' chips do what their keys do, the sort label what `s` does, and the sort
/// arrow what `r` does.
pub proof fn law_clicks_do_what_keys_do(s: State)
    ensures
        clicked(s, Target::SortLabel) == s.normal_key(KeyCode::Char('s')),
        clicked(s, Target::SortArrow) == s.normal_key(KeyCode::Char('r')),
        clicked(s, Target::KindChip(ChangeKind::Added)) == s.kind_key(KeyCode::Char('a')),
        clicked(s, Target::KindChip(ChangeKind::Modified)) == s.kind_key(KeyCode::Char('m')),
        clicked(s, Target::KindChip(ChangeKind::Deleted)) == s.kind_key(KeyCode::Char('d')),
        clicked(s, Target::KindChip(ChangeKind::Renamed)) == s.kind_key(KeyCode::Char('r')),
        clicked(s, Target::KindChip(ChangeKind::Untracked)) == s.kind_key(KeyCode::Char('u')),
{
    reveal(State::normal_key);
    reveal(State::command_key);
    reveal(State::kind_key);
}

/// Dragging the divider keeps both panes usable.
pub proof fn law_the_split_stays_within_bounds(s: State, col: u16)
    requires
        15 <= s.screen.split_pct <= 85,
    ensures
        15 <= s.set_split_from_col(col).screen.split_pct <= 85,
{
}

/// Collapsing and expanding the sidebar leaves the screen as it was, and so does
/// switching the diff mode there and back with the mode.
pub proof fn law_switching_twice(s: State)
    ensures
        s.toggle_sidebar().toggle_sidebar().screen == s.screen,
        s.toggle_diff_mode().toggle_diff_mode().source == s.source,
{
}

/// Applying the filters touches no setting, and asks for nothing to be persisted.
proof fn lemma_filtering_keeps_settings(s: State)
    ensures
        s.apply_filter().settings() == s.settings(),
        s.apply_filter().queue == s.queue,
{
    reveal(State::apply_filter);
    reveal(State::rebuild_filter);
}

/// What is persisted comes from the settings; filters and searches are not persisted.
pub proof fn law_filters_are_not_persisted(s: State, kind: ChangeKind, ext: Seq<char>, c: char)
    ensures
        s.toggle_kind(kind).settings() == s.settings(),
        s.toggle_file_type(ext).settings() == s.settings(),
        s.search_key(KeyCode::Char(c)).settings() == s.settings(),
        s.toggle_kind(kind).queue.save_pending == s.queue.save_pending,
        s.toggle_file_type(ext).queue.save_pending == s.queue.save_pending,
        s.search_key(KeyCode::Char(c)).queue.save_pending == s.queue.save_pending,
{
    reveal(State::toggle_kind);
    reveal(State::toggle_file_type);
    reveal(State::search_key);
    lemma_filtering_keeps_settings(
        State {
            find: state::FindState {
                kind_filter: state::toggled_kind(s.find.kind_filter, kind),
                ..s.find
            },
            history: None,
            ..s
        },
    );
    lemma_filtering_keeps_settings(
        State {
            find: state::FindState {
                file_type_filter: if s.find.file_type_filter.contains(ext) {
                    s.find.file_type_filter.remove(ext)
                } else {
                    s.find.file_type_filter.insert(ext)
                },
                ..s.find
            },
            history: None,
            ..s
        },
    );
    lemma_filtering_keeps_settings(s.with_search(s.find.search.push(c)));
}

/// A change of a remembered setting is persisted.
pub proof fn law_settings_are_remembered(s: State, dir: int)
    ensures
        s.cycle_sort_field().queue.save_pending,
        s.toggle_sort_dir().queue.save_pending,
        s.cycle_theme(dir).queue.save_pending,
        s.toggle_diff_mode().queue.save_pending,
        s.toggle_follow().queue.save_pending,
        s.toggle_sidebar().queue.save_pending,
        s.pointer.dragging_divider ==> s.release().queue.save_pending,
{
    reveal(State::cycle_sort_field);
    reveal(State::toggle_sort_dir);
    reveal(State::cycle_theme);
    reveal(State::toggle_follow);
    reveal(State::rebuild_filter);
}

/// Whether two states expand tabs alike and persist the same tab width.
pub open spec fn same_tabs(a: State, b: State) -> bool {
    a.source.tab_width == b.source.tab_width && a.source.saved_tab_width
        == b.source.saved_tab_width
}

proof fn lemma_actions_keep_tabs(s: State, dir: int)
    ensures
        same_tabs(s, s.apply_filter()),
        same_tabs(s, s.rebuild_filter()),
        same_tabs(s, s.next_match(dir)),
        same_tabs(s, s.toggle_follow()),
        same_tabs(s, s.copy_selection()),
        same_tabs(s, s.cycle_sort_field()),
        same_tabs(s, s.toggle_sort_dir()),
        same_tabs(s, s.cycle_theme(dir)),
        same_tabs(s, s.toggle_diff_mode()),
{
    reveal(State::apply_filter);
    reveal(State::rebuild_filter);
    reveal(State::next_match);
    reveal(State::toggle_follow);
    reveal(State::copy_selection);
    reveal(State::cycle_sort_field);
    reveal(State::toggle_sort_dir);
    reveal(State::cycle_theme);
}

proof fn lemma_filters_keep_tabs(s: State, kind: ChangeKind, ext: Seq<char>)
    ensures
        same_tabs(s, s.toggle_kind(kind)),
        same_tabs(s, s.toggle_file_type(ext)),
{
    reveal(State::toggle_kind);
    reveal(State::toggle_file_type);
    assert forall|t: State| same_tabs(t, #[trigger] t.apply_filter()) by {
        lemma_actions_keep_tabs(t, 1);
    }
}

proof fn lemma_move_keys_keep_tabs(s: State, code: KeyCode)
    ensures
        same_tabs(s, s.move_key(code)),
{
    reveal(State::move_key);
    reveal(State::history_back);
    reveal(State::history_forward);
    lemma_actions_keep_tabs(s, 1);
    lemma_actions_keep_tabs(s, -1);
}

proof fn lemma_command_keys_keep_tabs(s: State, code: KeyCode)
    ensures
        same_tabs(s, s.command_key(code)),
{
    reveal(State::command_key);
    lemma_actions_keep_tabs(s, 1);
    lemma_actions_keep_tabs(s, -1);
    assert forall|t: State| same_tabs(t, #[trigger] t.apply_filter()) by {
        lemma_actions_keep_tabs(t, 1);
    }
}

proof fn lemma_filter_keys_keep_tabs(s: State, code: KeyCode)
    ensures
        same_tabs(s, s.search_key(code)),
        same_tabs(s, s.kind_key(code)),
{
    reveal(State::search_key);
    reveal(State::kind_key);
    lemma_actions_keep_tabs(s, 1);
    lemma_actions_keep_tabs(s, -1);
    assert forall|t: State| same_tabs(t, #[trigger] t.apply_filter()) by {
        lemma_actions_keep_tabs(t, 1);
    }
    assert forall|kind: ChangeKind| same_tabs(s, #[trigger] s.toggle_kind(kind)) by {
        lemma_filters_keep_tabs(s, kind, Seq::empty());
    }
}

proof fn lemma_presses_keep_tabs(s: State, col: u16, row: u16)
    ensures
        same_tabs(s, s.press(col, row)),
{
    reveal(State::press);
    reveal(State::click_left);
    reveal(State::begin_selection);
    let t = s.with_pointer(Pointer { selection: None, ..s.pointer });
    lemma_actions_keep_tabs(t, 1);
    match t.spot(col, row) {
        Some(Target::KindChip(kind)) => lemma_filters_keep_tabs(t, kind, Seq::empty()),
        Some(Target::FileType(ext)) => lemma_filters_keep_tabs(t, ChangeKind::Added, ext),
        _ => {},
    }
}

proof fn lemma_autoscroll_keeps_tabs(s: State)
    ensures
        same_tabs(s, s.autoscroll()),
{
    reveal(State::autoscroll);
}

proof fn lemma_drags_keep_tabs(s: State, col: u16, row: u16)
    ensures
        same_tabs(s, s.update_selection(col, row)),
{
    reveal(State::update_selection);
    lemma_autoscroll_keeps_tabs(s.with_autoscroll(-1));
    lemma_autoscroll_keeps_tabs(s.with_autoscroll(1));
}

proof fn lemma_releases_keep_tabs(s: State)
    ensures
        same_tabs(s, s.release()),
{
    let t = s.with_pointer(Pointer { selecting: false, sel_autoscroll: 0, ..s.pointer });
    lemma_actions_keep_tabs(t, 1);
}

proof fn lemma_mouse_keeps_tabs(s: State, ev: MouseEvent)
    ensures
        same_tabs(s, s.handle_mouse(ev)),
{
    lemma_presses_keep_tabs(s, ev.column, ev.row);
    lemma_drags_keep_tabs(s, ev.column, ev.row);
    lemma_releases_keep_tabs(s);
}

/// Neither keys nor the mouse nor changes on disk touch the tab width, the one in use or
/// the one to persist.
pub proof fn law_tab_widths_stay(s: State, key: KeyEvent, ev: MouseEvent, found: Found)
    ensures
        same_tabs(s, s.handle_key(key)),
        same_tabs(s, s.handle_mouse(ev)),
        same_tabs(s, s.on_fs_change(found)),
        same_tabs(s, s.refresh(found)),
{
    reveal(State::normal_key);
    lemma_move_keys_keep_tabs(s, key.code);
    lemma_command_keys_keep_tabs(s, key.code);
    lemma_filter_keys_keep_tabs(s, key.code);
    lemma_mouse_keeps_tabs(s, ev);
    assert forall|t: State| same_tabs(t, #[trigger] t.rebuild_filter()) by {
        lemma_actions_keep_tabs(t, 1);
    }
    assert forall|t: State| same_tabs(t, #[trigger] t.apply_filter()) by {
        lemma_actions_keep_tabs(t, 1);
    }
}

/// A tab width given for one run is in use from the start, and what is persisted is the
/// saved one.
pub proof fn law_the_tab_width_of_a_run_is_not_persisted(
    c: config::Settings,
    theme: Option<Seq<char>>,
    tabs: u16,
    found: Found,
)
    ensures
        ({
            let s = listing::started(config::with_flags(c, theme, Some(tabs)), found);
            &&& s.source.tab_width == if tabs < 16 {
                tabs
            } else {
                16
            }
            &&& s.settings().tab_width == config::kept_tab_width(c)
            &&& s.settings().saved_tab_width is None
        }),
{
    assert forall|t: State| same_tabs(t, #[trigger] t.rebuild_filter()) by {
        lemma_actions_keep_tabs(t, 1);
    }
}

// --- selections ----------------------------------------------------------------------

/// Dragging a selection within the pane's content, its first and last row included,
/// extends it to the cell dragged to and scrolls nothing: only past an edge does the
/// view scroll along.
pub proof fn law_dragging_scrolls_only_past_the_edges(s: State, col: u16, row: u16)
    requires
        s.pointer.selecting,
        s.pointer.selection is Some,
    ensures
        ({
            let area = s.screen.area_right;
            let t = s.update_selection(col, row);
            &&& area.y < row < area.y + area.height ==> {
                &&& !t.is_autoscrolling()
                &&& t.pane == s.pane
                &&& t.history == s.history
                &&& t.pointer.selection matches Some(sel) && sel.cursor == s.diff_cell(col, row)
                    && sel.anchor == s.pointer.selection->Some_0.anchor
            }
            &&& row <= area.y ==> t.pointer.sel_autoscroll == -1
            &&& row > area.y && row >= area.y + area.height ==> t.pointer.sel_autoscroll == 1
        }),
{
    reveal(State::update_selection);
    reveal(State::autoscroll);
}

/// A selection within one row copies those columns of it, in either direction of the
/// drag.
pub proof fn law_a_selection_copies_its_columns(s: State, row: usize, a: usize, b: usize)
    requires
        row < s.shown_rows().len(),
        a <= b <= rich::row_text(s.shown_rows()[row as int]).len(),
    ensures
        s.selected_text(state::Selection { anchor: (row, a), cursor: (row, b) }) == rich::row_text(
            s.shown_rows()[row as int],
        ).subrange(a as int, b as int),
        s.selected_text(state::Selection { anchor: (row, b), cursor: (row, a) }) == rich::row_text(
            s.shown_rows()[row as int],
        ).subrange(a as int, b as int),
{
    let rows = s.shown_rows();
    let text = rich::row_text(rows[row as int]).subrange(a as int, b as int);
    assert(crate::mouse::copied(rows, (row, a), (row, b), row as int + 1) =~= Seq::<char>::empty());
    assert(text + Seq::<char>::empty() + Seq::<char>::empty() =~= text);
    assert(crate::mouse::copied(rows, (row, a), (row, b), row as int) =~= text);
}

// --- themes ----------------------------------------------------------------------------

/// A listed theme stands where it is looked up.
proof fn lemma_listed(i: int)
    requires
        0 <= i < 15,
    ensures
        listing::position_from(listing::themes(), listing::themes()[i], 0) == Some(i),
{
    lemma_themes_differ();
    lemma_position(listing::themes(), i, 0);
}

proof fn lemma_position(list: Seq<Seq<char>>, i: int, k: int)
    requires
        0 <= k <= i < list.len(),
        forall|a: int, b: int| 0 <= a < b < list.len() ==> #[trigger] list[a] != #[trigger] list[b],
    ensures
        listing::position_from(list, list[i], k) == Some(i),
    decreases i - k,
{
    if k < i {
        assert(list[k] != list[i]);
        lemma_position(list, i, k + 1);
    }
}

/// No theme is listed twice.
proof fn lemma_themes_differ()
    ensures
        forall|a: int, b: int|
            0 <= a < b < 15 ==> #[trigger] listing::themes()[a] != #[trigger] listing::themes()[b],
{
    reveal_strlit("Dracula");
    reveal_strlit("Monokai Extended");
    reveal_strlit("Nord");
    reveal_strlit("gruvbox-dark");
    reveal_strlit("gruvbox-light");
    reveal_strlit("Solarized (dark)");
    reveal_strlit("Solarized (light)");
    reveal_strlit("OneHalfDark");
    reveal_strlit("OneHalfLight");
    reveal_strlit("TwoDark");
    reveal_strlit("Coldark-Dark");
    reveal_strlit("Coldark-Cold");
    reveal_strlit("Sublime Snazzy");
    reveal_strlit("zenburn");
    reveal_strlit("ansi");
    let t = listing::themes();
    // Lengths and last characters tell the themes apart.
    assert forall|a: int, b: int| 0 <= a < b < 15 implies #[trigger] t[a] != #[trigger] t[b] by {
        if t[a].len() == t[b].len() {
            let n = t[a].len() - 1;
            assert(t[a][0] != t[b][0] || t[a][n] != t[b][n] || t[a][8] != t[b][8]);
        }
    }
}

/// The themes cycle: one step from each listed theme leads to the next, the last leads
/// to the first, and a step back undoes a step forward.
pub proof fn law_themes_cycle(i: int)
    requires
        0 <= i < 15,
    ensures
        ({
            let on = listing::theme_after(Some(listing::themes()[i]), 1);
            let back = listing::theme_after(Some(listing::themes()[i]), -1);
            &&& on == listing::themes()[if i == 14 { 0 } else { i + 1 }]
            &&& back == listing::themes()[if i == 0 { 14 } else { i - 1 }]
            &&& listing::theme_after(Some(on), -1) == listing::themes()[i]
            &&& listing::theme_after(Some(back), 1) == listing::themes()[i]
        }),
{
    let next = if i == 14 { 0 } else { i + 1 };
    let last = if i == 0 { 14 } else { i - 1 };
    lemma_listed(i);
    lemma_listed(next);
    lemma_listed(last);
    assert((i + 1) % 15 == next && (i - 1) % 15 == last);
    assert((next - 1) % 15 == i && (last + 1) % 15 == i);
}

/// A change of theme renders every diff anew, but keeps the searchable texts and the
/// place in the diff.
pub proof fn law_a_theme_change_keeps_what_is_searched(s: State, dir: int, path: Seq<char>, sig: u64, width: u16)
    ensures
        s.cycle_theme(dir).source.cache.raw_text(path, sig) == s.source.cache.raw_text(path, sig),
        !s.cycle_theme(dir).source.cache.contains(path, sig, width),
        s.cycle_theme(dir).needs_build(),
        s.cycle_theme(dir).pane.restore_anchor == s.current_anchor(),
        s.cycle_theme(dir).list == s.list,
{
    reveal(State::cycle_theme);
}

// --- the combined diff -------------------------------------------------------------------

/// Moving the viewport into a new combined diff does not put the diff out of date.
proof fn lemma_arriving_keeps_the_diff(s: State)
    ensures
        s.arrive().needs_build() == s.needs_build(),
{
    let t = s.clamp_scroll_to_window().update_selected_from_scroll();
    assert(t.needs_build() == s.needs_build());
    let u = t.jump_to_match();
    assert(u.needs_build() == t.needs_build());
    assert(u.sync_history().pane == u.pane);
}

/// Bringing the combined diff up to date leaves it up to date: doing so again changes
/// nothing.
pub proof fn law_building_is_idempotent(s: State, made: Seq<Production>, again: Seq<Production>)
    ensures
        !s.ensure_combined(made).needs_build(),
        s.ensure_combined(made).ensure_combined(again) == s.ensure_combined(made),
{
    let b = s.built(made);
    let t = s.with_cache(b.cache).installed(b.draft);
    assert(!t.needs_build());
    lemma_arriving_keeps_the_diff(t);
}

proof fn lemma_built(s: State, made: Seq<Production>, n: int)
    requires
        0 <= n,
    ensures
        s.built_upto(made, n).draft.offsets.len() == n,
    decreases n,
{
    if n > 0 {
        lemma_built(s, made, n - 1);
    }
}

/// The rows and offsets of fewer files come first.
proof fn lemma_built_grows(s: State, made: Seq<Production>, k: int, n: int)
    requires
        0 <= k <= n,
    ensures
        s.built_upto(made, k).draft.rows.len() <= s.built_upto(made, n).draft.rows.len(),
        s.built_upto(made, n).draft.rows.take(s.built_upto(made, k).draft.rows.len() as int)
            == s.built_upto(made, k).draft.rows,
        s.built_upto(made, n).draft.offsets.len() == n,
        s.built_upto(made, k).draft.offsets.len() == k,
        s.built_upto(made, n).draft.offsets.take(k) == s.built_upto(made, k).draft.offsets,
    decreases n - k,
{
    lemma_built(s, made, k);
    lemma_built(s, made, n);
    let (a, b) = (s.built_upto(made, k).draft, s.built_upto(made, n).draft);
    if k == n {
        assert(b.rows.take(a.rows.len() as int) =~= a.rows);
        assert(b.offsets.take(k) =~= a.offsets);
    } else {
        lemma_built_grows(s, made, k, n - 1);
        let m = s.built_upto(made, n - 1).draft;
        assert(b.rows.take(a.rows.len() as int) =~= m.rows.take(a.rows.len() as int));
        assert(b.offsets.take(k) =~= m.offsets.take(k));
    }
}

/// What is shown for the filtered file at position `k`.
pub open spec fn section(s: State, made: Seq<Production>, k: int) -> Seq<rich::Row> {
    let e = s.filtered_entry(k);
    building::section_rows(
        e.path,
        s.built_upto(made, k).cache.shown(
            e.path,
            listing::signature_of(e),
            s.pane.diff_width,
            made[k],
        ),
        s.pane.diff_width,
    )
}

/// The combined diff is one continuous view of all filtered files' diffs, in their
/// order: file `k`'s section starts at its offset, and ends where the next one starts.
pub proof fn law_the_diff_is_all_sections(s: State, made: Seq<Production>, k: int)
    requires
        0 <= k < s.list.filtered.len(),
        s.built(made).draft.rows.len() <= usize::MAX,
    ensures
        ({
            let d = s.built(made).draft;
            let end = if k + 1 < d.offsets.len() {
                d.offsets[k + 1] as int
            } else {
                d.rows.len() as int
            };
            &&& d.offsets.len() == s.list.filtered.len()
            &&& d.offsets[0] == 0
            &&& 0 <= d.offsets[k] <= end <= d.rows.len()
            &&& d.rows.subrange(d.offsets[k] as int, end) == section(s, made, k)
        }),
{
    let n = s.list.filtered.len() as int;
    let d = s.built_upto(made, n).draft;
    let a = s.built_upto(made, k).draft;
    let b = s.built_upto(made, k + 1).draft;
    lemma_built_grows(s, made, k, n);
    lemma_built_grows(s, made, k + 1, n);
    assert(b.offsets[k] == a.rows.len() as usize);
    assert(d.offsets.take(k + 1)[k] == b.offsets[k]);
    assert(d.offsets[k] == a.rows.len());
    if k + 1 < n {
        lemma_built_grows(s, made, k + 2, n);
        let c = s.built_upto(made, k + 2).draft;
        assert(d.offsets.take(k + 2)[k + 1] == c.offsets[k + 1]);
        assert(c.offsets[k + 1] == b.rows.len() as usize);
    } else {
        assert(b == d);
    }
    lemma_built_grows(s, made, 1, n);
    assert(d.offsets.take(1)[0] == s.built_upto(made, 1).draft.offsets[0]);
    assert(s.built_upto(made, 0).draft.rows.len() == 0);
    lemma_built(s, made, 0);
    let end = b.rows.len() as int;
    assert(d.rows.take(end) == b.rows);
    assert(d.rows.subrange(a.rows.len() as int, end) =~= section(s, made, k)) by {
        assert forall|i: int| 0 <= i < section(s, made, k).len() implies d.rows[a.rows.len() + i]
            == section(s, made, k)[i] by {
            assert(d.rows.take(end)[a.rows.len() + i] == b.rows[a.rows.len() + i]);
        }
    }
}

/// The rows of the first lines come first, and those of line `n` follow.
proof fn lemma_wrapped_prefix(text: Seq<rich::Row>, w: nat, n: int, r: int)
    requires
        0 <= n < text.len(),
        0 <= r < rich::wrapped(text[n], w).len(),
    ensures
        rich::wrapped_upto(text, w, n).len() + r < rich::wrapped_all(text, w).len(),
        rich::wrapped_all(text, w)[rich::wrapped_upto(text, w, n).len() + r] == rich::wrapped(
            text[n],
            w,
        )[r],
{
    lemma_wrapped_grows(text, w, n + 1, text.len() as int);
    let at = rich::wrapped_upto(text, w, n).len() + r;
    assert(rich::wrapped_upto(text, w, n + 1)[at] == rich::wrapped(text[n], w)[r]);
    assert(rich::wrapped_all(text, w).take(
        rich::wrapped_upto(text, w, n + 1).len() as int,
    )[at] == rich::wrapped(text[n], w)[r]);
}

proof fn lemma_wrapped_grows(text: Seq<rich::Row>, w: nat, k: int, n: int)
    requires
        0 <= k <= n <= text.len(),
    ensures
        rich::wrapped_upto(text, w, k).len() <= rich::wrapped_upto(text, w, n).len(),
        rich::wrapped_upto(text, w, n).take(rich::wrapped_upto(text, w, k).len() as int)
            == rich::wrapped_upto(text, w, k),
    decreases n - k,
{
    let (a, b) = (rich::wrapped_upto(text, w, k), rich::wrapped_upto(text, w, n));
    if k == n {
        assert(b.take(a.len() as int) =~= a);
    } else {
        lemma_wrapped_grows(text, w, k, n - 1);
        let m = rich::wrapped_upto(text, w, n - 1);
        assert(b.take(a.len() as int) =~= m.take(a.len() as int));
    }
}

/// Highlights land on the exact columns: a located match is placed on the row of the
/// wrapped diff, and on the columns of it, that show the beginning of the match; all
/// of it where it does not cross a wrap boundary.
pub proof fn law_matches_are_placed_on_their_columns(
    text: Seq<rich::Row>,
    width: u16,
    start: int,
    file_pos: int,
    m: crate::search::Located,
)
    requires
        width > 0,
        m.aligned,
        m.line < text.len(),
        m.cols.0 < m.cols.1 <= rich::row_text(text[m.line as int]).len(),
        0 <= start,
        start + rich::wrapped_all(text, width as nat).len() <= usize::MAX,
    ensures
        ({
            let p = building::placed_match(text, width, start, file_pos, m);
            let rows = rich::wrapped_all(text, width as nat);
            let shown = rich::row_text(rows[p.row - start]);
            let whole = rich::row_text(text[m.line as int]);
            &&& start <= p.row < start + rows.len()
            &&& p.cols.0 < p.cols.1 <= shown.len()
            &&& shown.subrange(p.cols.0 as int, p.cols.1 as int) == whole.subrange(
                m.cols.0 as int,
                m.cols.0 + (p.cols.1 - p.cols.0),
            )
            &&& m.cols.0 as int % width as int + (m.cols.1 - m.cols.0) <= width ==> p.cols.1 - p.cols.0
                == m.cols.1 - m.cols.0
        }),
{
    let w = width as int;
    let row = text[m.line as int];
    let whole = rich::row_text(row);
    let (q, r) = (m.cols.0 as int / w, m.cols.0 as int % w);
    assert(m.cols.0 == q * w + r && 0 <= r < w && 0 <= q) by {
        vstd::arithmetic::div_mod::lemma_fundamental_div_mod(m.cols.0 as int, w);
        vstd::arithmetic::div_mod::lemma_div_pos_is_pos(m.cols.0 as int, w);
        assert(w * q == q * w) by (nonlinear_arith);
    }
    rich::lemma_width_is_length(row.runs, row.runs.len() as int);
    let total = rich::width(row.runs);
    assert(total == whole.len());
    let p = building::placed_match(text, width, start, file_pos, m);
    let upto = geometry::lesser(r + (m.cols.1 - m.cols.0), w);
    if total <= w {
        assert(q == 0) by (nonlinear_arith)
            requires
                q * w + r < w,
                0 <= q,
                0 <= r,
                w > 0,
        ;
        assert(q * w == 0) by (nonlinear_arith)
            requires
                q == 0,
        ;
        assert(rich::wrapped(row, w as nat)[q] == row);
        lemma_wrapped_prefix(text, w as nat, m.line as int, q);
        let rows = rich::wrapped_all(text, w as nat);
        assert(p.row - start == rich::wrapped_upto(text, w as nat, m.line as int).len() + q);
        assert(rich::row_text(rows[p.row - start]).subrange(r, upto) =~= whole.subrange(
            m.cols.0 as int,
            m.cols.0 + (upto - r),
        ));
    } else {
        rich::lemma_row_count(total as int, w, q);
        assert(q < rich::wrapped(row, w as nat).len());
        crate::rich_laws::lemma_wrapped_row(row, w as nat, q);
        lemma_wrapped_prefix(text, w as nat, m.line as int, q);
        let rows = rich::wrapped_all(text, w as nat);
        assert(p.row - start == rich::wrapped_upto(text, w as nat, m.line as int).len() + q);
        let from = q * w;
        let shown = rich::row_text(rows[p.row - start]);
        assert(shown == whole.subrange(from, rich::within(from + w, total)));
        assert(from + upto <= rich::within(from + w, total));
        assert(upto <= shown.len());
        assert(rich::row_text(rows[p.row - start]).subrange(r, upto) =~= whole.subrange(
            m.cols.0 as int,
            m.cols.0 + (upto - r),
        ));
    }
}

// --- drawing -------------------------------------------------------------------------------

proof fn lemma_lit_text(
    row: rich::Row,
    li: int,
    matches: Seq<state::AppMatch>,
    current: int,
    n: int,
)
    ensures
        rich::row_text(diff_pane::lit_upto(row, li, matches, current, n)) == rich::row_text(row),
    decreases n,
{
    if n > 0 {
        lemma_lit_text(row, li, matches, current, n - 1);
        let before = diff_pane::lit_upto(row, li, matches, current, n - 1);
        let m = matches[n - 1];
        crate::rich_laws::law_highlighting_keeps_the_text(
            before,
            m.cols.0 as int,
            m.cols.1 as int,
            if n - 1 == current {
                rich::Highlight::Current
            } else {
                rich::Highlight::Hit
            },
        );
    }
}

/// Hits and selections only make a line stand out: what it says is what the diff says.
pub proof fn law_drawing_keeps_the_text(s: State, li: int)
    ensures
        rich::row_text(s.drawn_row(li)) == rich::row_text(s.shown_rows()[li]),
{
    let row = s.shown_rows()[li];
    let n = s.find.matches.len() as int;
    lemma_lit_text(row, li, s.find.matches, s.find.current_match, n);
    let lit = if s.history is Some {
        row
    } else {
        diff_pane::lit_upto(row, li, s.find.matches, s.find.current_match, n)
    };
    if let Some(sel) = s.pointer.selection {
        if let Some((cs, ce)) = diff_pane::selected_columns(
            state::ends(sel),
            li,
            rich::width(lit.runs) as int,
        ) {
            crate::rich_laws::law_highlighting_keeps_the_text(
                lit,
                cs,
                ce,
                rich::Highlight::Selected,
            );
        }
    }
}

/// Whatever the scroll is, only lines of the active view window are drawn: in focus,
/// the selected file's section and nothing else.
pub proof fn law_only_the_window_is_drawn(s: State, height: int)
    requires
        s.shown_window().0 < s.shown_window().1,
        height >= 0,
    ensures
        s.shown_window().0 <= s.first_visible() < s.shown_window().1,
        s.end_visible(height) <= s.shown_window().1,
        s.drawn_upto(s.end_visible(height)).len() <= height,
{
    lemma_drawn_count(s, s.end_visible(height));
}

proof fn lemma_drawn_count(s: State, end: int)
    ensures
        s.drawn_upto(end).len() <= geometry::minus(end, s.first_visible()),
    decreases end,
{
    if end > s.first_visible() && end > 0 {
        lemma_drawn_count(s, end - 1);
    }
}

/// Every match that is marked is marked on the rail, the first line's at its top and the
/// last line's at its bottom.
pub proof fn law_marks_lie_on_the_rail(s: State, i: int, top: int, height: int)
    requires
        0 <= i < s.find.matches.len(),
        s.markable(i),
        height > 0,
    ensures
        top <= s.mark_row(i, top, height) < top + height,
        s.find.matches[i].row == s.view_window().0 ==> s.mark_row(i, top, height) == top,
        s.find.matches[i].row == s.view_window().1 - 1 && s.view_window().1 - s.view_window().0
            > 1 ==> s.mark_row(i, top, height) == top + height - 1,
{
    let (start, end) = s.view_window();
    let (row, total) = (s.find.matches[i].row - start, end - start);
    geometry::law_rail_is_monotonic(row, row, total, height);
    if total >= 2 {
        geometry::law_rail_ends(total, height);
    } else {
        assert(0 * (height - 1) == 0) by (nonlinear_arith);
    }
}

// --- what is remembered, and where things stand ------------------------------------------

/// What is remembered is what is in use: the order, the theme, the mode, the split, and
/// the switches.
pub proof fn law_what_is_remembered(s: State)
    ensures
        ({
            let c = s.settings();
            &&& c.sort_field == s.list.sort_field && c.sort_desc == s.list.sort_desc
            &&& c.theme == s.source.theme && c.diff_mode == s.source.diff_mode
            &&& c.split_pct == s.screen.split_pct
            &&& c.follow == s.control.follow && c.auto_update == s.control.auto_update
            &&& c.sidebar_collapsed == s.screen.sidebar_collapsed
        }),
{
}

/// Placing the panes sets the size of the diff's text: a column less than the pane, for
/// the rail, and a row less, for the header.
pub proof fn law_the_size_of_the_text(s: State, p: crate::frame::Panes)
    ensures
        ({
            let t = s.with_panes(p);
            &&& p.right.width > 0 ==> t.pane.diff_width == p.right.width - 1
            &&& p.right.width == 0 ==> t.pane.diff_width == 0
            &&& p.right.height > 0 ==> t.pane.diff_viewport_height == p.right.height - 1
            &&& p.right.height == 0 ==> t.pane.diff_viewport_height == 0
            &&& t.screen.area_main == p.main && t.screen.area_left == p.left
                && t.screen.area_right == p.right
            &&& t.list == s.list && t.find == s.find && t.pane.diff_scroll == s.pane.diff_scroll
        }),
{
}

/// What the mouse is over: what stands in the list under it, if the list is there and no
/// help covers it.
pub proof fn law_what_the_mouse_is_over(s: State, col: u16, row: u16)
    requires
        s.pointer.hover_pos == Some((col, row)),
    ensures
        s.screen.sidebar_collapsed || s.control.show_help ==> s.hover_target() is None,
        !s.screen.sidebar_collapsed && !s.control.show_help && s.in_left(col) ==> s.hover_target()
            == s.spot(col, row),
        !s.in_left(col) ==> s.hover_target() is None,
{
    reveal(State::hover_target);
}

/// When the mouse needs a redraw: always, but for a move that stays over the same thing.
pub proof fn law_when_the_mouse_redraws(s: State, ev: MouseEvent)
    ensures
        ev.kind != MouseEventKind::Moved ==> s.mouse_redraws(ev),
        ev.kind == MouseEventKind::Moved ==> s.mouse_redraws(ev) == (s.hover_target() != s.with_pointer(
            Pointer { hover_pos: Some((ev.column, ev.row)), ..s.pointer },
        ).hover_target()),
        s.history is None ==> s.autoscroll_moves() == (s.autoscroll().pane.diff_scroll
            != s.pane.diff_scroll),
{
    reveal(State::autoscroll);
}

/// The search box searches inside the changes exactly if it holds a needle.
pub proof fn law_when_it_searches(s: State)
    ensures
        s.is_content_search() == (crate::search::content_needle(s.find.search) is Some),
{
}

} // verus!
