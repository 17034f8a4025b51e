//! What each key does to what is shown, stated on the fields of the state.

use vstd::prelude::*;
use crate::config::DiffMode;
use crate::git::ChangeKind;
use crate::input::{KeyCode, KeyEvent};
use crate::listing;
use crate::search::Scope;
use crate::state;
use crate::state::{Mode, State};

verus! {

/// A key pressed without Control.
pub open spec fn plain(code: KeyCode) -> KeyEvent {
    KeyEvent { code, control: false }
}

/// Whether keys go to the diff: no help is shown, nothing is typed.
pub open spec fn browsing(s: State) -> bool {
    !s.control.show_help && s.find.mode == Mode::Normal
}

/// Whether two states show the same files in the same order, under the same filters.
pub open spec fn same_list(a: State, b: State) -> bool {
    &&& a.list.files == b.list.files
    &&& a.list.filtered == b.list.filtered
    &&& a.find.search == b.find.search
    &&& a.find.kind_filter == b.find.kind_filter
    &&& a.find.file_type_filter == b.find.file_type_filter
    &&& a.list.sort_field == b.list.sort_field
    &&& a.list.sort_desc == b.list.sort_desc
}

/// `q` quits, and so does Control-C whatever is going on; Escape first leaves a history.
pub proof fn law_quitting(s: State, control: bool)
    requires
        browsing(s),
    ensures
        s.handle_key(plain(KeyCode::Char('q'))).control.should_quit,
        s.handle_key(KeyEvent { code: KeyCode::Esc, control }).control.should_quit == (
        s.control.should_quit || s.history is None),
        s.handle_key(KeyEvent { code: KeyCode::Esc, control }).history is None,
{
    reveal(State::normal_key);
    reveal(State::command_key);
}

/// Control-C quits in every mode; nothing but `q`, Escape and Control-C does.
pub proof fn law_only_these_keys_quit(s: State, key: KeyEvent)
    requires
        !s.control.should_quit,
        key.code != KeyCode::Char('q'),
        key.code != KeyCode::Esc,
    ensures
        s.handle_key(key).control.should_quit == (key.control && key.code == KeyCode::Char('c')),
{
    if key.control && key.code == KeyCode::Char('c') {
    } else if s.control.show_help {
    } else {
        match s.find.mode {
            Mode::Normal => lemma_normal_keeps_running(s, key.code),
            Mode::Search => lemma_search_keeps_running(s, key.code),
            Mode::KindFilter => lemma_search_keeps_running(s, key.code),
        }
    }
}

proof fn lemma_filters_keep_running(s: State)
    ensures
        s.apply_filter().control == s.control,
        s.rebuild_filter().control == s.control,
        s.apply_filter().find.mode == s.find.mode,
{
    reveal(State::apply_filter);
    reveal(State::rebuild_filter);
}

proof fn lemma_steps_keep_running(s: State, dir: int)
    ensures
        s.next_match(dir).control == s.control,
{
    reveal(State::next_match);
}

proof fn lemma_search_keeps_running(s: State, code: KeyCode)
    ensures
        s.search_key(code).control == s.control,
        s.kind_key(code).control == s.control,
{
    reveal(State::search_key);
    reveal(State::kind_key);
    reveal(State::toggle_kind);
    assert forall|t: State| (#[trigger] t.apply_filter()).control == t.control by {
        lemma_filters_keep_running(t);
    }
    lemma_steps_keep_running(s, 1);
    lemma_steps_keep_running(s, -1);
}

proof fn lemma_normal_keeps_running(s: State, code: KeyCode)
    requires
        code != KeyCode::Char('q'),
        code != KeyCode::Esc,
    ensures
        s.normal_key(code).control.should_quit == s.control.should_quit,
{
    reveal(State::normal_key);
    reveal(State::move_key);
    reveal(State::command_key);
    reveal(State::history_back);
    reveal(State::history_forward);
    reveal(State::cycle_sort_field);
    reveal(State::toggle_sort_dir);
    reveal(State::cycle_theme);
    reveal(State::toggle_follow);
    reveal(State::copy_selection);
    reveal(State::rebuild_filter);
    lemma_steps_keep_running(s, 1);
    lemma_steps_keep_running(s, -1);
    assert forall|t: State| (#[trigger] t.apply_filter()).control == t.control by {
        lemma_filters_keep_running(t);
    }
}

/// `?` shows the help, and any key but Control-C puts it away and does nothing else,
/// except that `q` quits.
pub proof fn law_help(s: State, code: KeyCode)
    ensures
        browsing(s) ==> s.handle_key(plain(KeyCode::Char('?'))).control.show_help,
        s.control.show_help ==> {
            let t = s.handle_key(plain(code));
            &&& !t.control.show_help
            &&& t.list == s.list && t.find == s.find && t.pane == s.pane && t.source == s.source
            &&& t.screen == s.screen && t.history == s.history && t.queue == s.queue
            &&& t.control.should_quit == (s.control.should_quit || code == KeyCode::Char('q'))
        },
{
    reveal(State::normal_key);
    reveal(State::command_key);
}

/// `j`, `k` and the arrows select the next file and the previous one, up to the ends of
/// the list, and show it live.
pub proof fn law_selecting_keys(s: State)
    requires
        browsing(s),
        s.list.selected >= 0,
    ensures
        ({
            let n = s.list.filtered.len() as int;
            let down = s.handle_key(plain(KeyCode::Char('j')));
            let up = s.handle_key(plain(KeyCode::Char('k')));
            &&& down == s.handle_key(plain(KeyCode::Down))
            &&& up == s.handle_key(plain(KeyCode::Up))
            &&& s.list.selected + 1 < n ==> down.list.selected == s.list.selected + 1
                && down.history is None
            &&& s.list.selected + 1 >= n ==> down == s
            &&& s.list.selected > 0 ==> up.list.selected == s.list.selected - 1 && up.history is None
            &&& s.list.selected == 0 ==> up == s
            &&& same_list(s, down) && same_list(s, up)
        }),
{
    reveal(State::normal_key);
    reveal(State::move_key);
}

/// The keys that scroll: a page down and up, to the top and to the end.
pub proof fn law_scrolling_keys(s: State)
    requires
        browsing(s),
    ensures
        ({
            let h = s.pane.diff_viewport_height as int;
            let page = if h > 2 {
                h - 1
            } else {
                1
            };
            &&& s.handle_key(plain(KeyCode::PageDown)) == s.scroll_down(page)
            &&& s.handle_key(plain(KeyCode::Char(' '))) == s.scroll_down(page)
            &&& s.handle_key(plain(KeyCode::PageUp)) == s.scroll_up(page)
            &&& s.handle_key(plain(KeyCode::Home)) == s.scroll_home()
            &&& s.handle_key(plain(KeyCode::Char('g'))) == s.scroll_home()
            &&& s.handle_key(plain(KeyCode::End)) == s.scroll_end()
            &&& s.handle_key(plain(KeyCode::Char('G'))) == s.scroll_end()
        }),
{
    reveal(State::normal_key);
    reveal(State::move_key);
}

/// `n` and `N` step through the matches, forward and back, unless a history is shown.
pub proof fn law_match_keys(s: State)
    requires
        browsing(s),
    ensures
        s.history is None ==> s.handle_key(plain(KeyCode::Char('n'))) == s.next_match(1),
        s.history is None ==> s.handle_key(plain(KeyCode::Char('N'))) == s.next_match(-1),
        s.history is Some ==> s.handle_key(plain(KeyCode::Char('n'))) == s,
        s.history is Some ==> s.handle_key(plain(KeyCode::Char('N'))) == s,
{
    reveal(State::normal_key);
    reveal(State::move_key);
}

/// Left goes back in the history of the selected file, right forward again.
pub proof fn law_history_keys(s: State)
    requires
        browsing(s),
    ensures
        s.handle_key(plain(KeyCode::Left)) == s.history_back(),
        s.handle_key(plain(KeyCode::Right)) == s.history_forward(),
{
    reveal(State::normal_key);
    reveal(State::move_key);
}

/// The keys that flip a setting: `f` follow-latest, `b` the diff mode, Tab the sidebar.
/// Each is remembered.
pub proof fn law_switching_keys(s: State)
    requires
        browsing(s),
    ensures
        ({
            let f = s.handle_key(plain(KeyCode::Char('f')));
            let b = s.handle_key(plain(KeyCode::Char('b')));
            let t = s.handle_key(plain(KeyCode::Tab));
            &&& f.control.follow == !s.control.follow
            &&& f.note.status == if s.control.follow {
                "follow: off"@
            } else {
                "follow: on"@
            }
            &&& f.queue.save_pending && same_list(s, f)
            &&& s.source.diff_mode == DiffMode::Working ==> b.source.diff_mode
                == DiffMode::BaseBranch
            &&& s.source.diff_mode == DiffMode::BaseBranch ==> b.source.diff_mode
                == DiffMode::Working
            &&& b.queue.scan_pending && b.queue.save_pending && b.history is None
            &&& b.list.selected == 0 && b.pane.diff_scroll == 0 && b.cues.behind_dirty
            &&& t.screen.sidebar_collapsed == !s.screen.sidebar_collapsed
            &&& t.queue.save_pending && same_list(s, t) && t.pane == s.pane
        }),
{
    reveal(State::normal_key);
    reveal(State::command_key);
    reveal(State::toggle_follow);
}

/// `s` sorts by the next field, `r` reverses the order, `t` and `T` take the next theme and
/// the previous one.
pub proof fn law_order_and_theme_keys(s: State)
    requires
        browsing(s),
    ensures
        s.handle_key(plain(KeyCode::Char('s'))) == s.cycle_sort_field(),
        s.handle_key(plain(KeyCode::Char('r'))) == s.toggle_sort_dir(),
        ({
            let next = s.handle_key(plain(KeyCode::Char('t')));
            let last = s.handle_key(plain(KeyCode::Char('T')));
            &&& next.source.theme == Some(listing::theme_after(s.source.theme, 1))
            &&& last.source.theme == Some(listing::theme_after(s.source.theme, -1))
            &&& next.note.status == "theme: "@ + next.source.theme->0
            &&& next.pane.needs_rebuild && next.queue.save_pending
            &&& last.pane.needs_rebuild && last.queue.save_pending
            &&& same_list(s, next) && same_list(s, last)
        }),
{
    reveal(State::normal_key);
    reveal(State::command_key);
    reveal(State::cycle_theme);
}

/// `/` opens the search box, empty, on the live view; `c` the choice of kinds.
pub proof fn law_opening_keys(s: State)
    requires
        browsing(s),
    ensures
        ({
            let t = s.handle_key(plain(KeyCode::Char('/')));
            let k = s.handle_key(plain(KeyCode::Char('c')));
            &&& t.find.mode == Mode::Search && t.find.search.len() == 0 && t.history is None
            &&& k.find.mode == Mode::KindFilter && k.history is None && same_list(s, k)
            &&& t.find.kind_filter == s.find.kind_filter
            &&& t.find.file_type_filter == s.find.file_type_filter
        }),
{
    reveal(State::normal_key);
    reveal(State::command_key);
    reveal(State::apply_filter);
    reveal(State::rebuild_filter);
}

/// `y` copies the selection.
pub proof fn law_copy_key(s: State)
    requires
        browsing(s),
    ensures
        s.handle_key(plain(KeyCode::Char('y'))) == s.copy_selection(),
{
    reveal(State::normal_key);
    reveal(State::command_key);
}

/// The keys that do something while browsing.
pub open spec fn bound(code: KeyCode) -> bool {
    match code {
        KeyCode::Char(c) => c == 'q' || c == 'j' || c == 'k' || c == ' ' || c == 'g' || c == 'G'
            || c == 'n' || c == 'N' || c == 's' || c == 'r' || c == 't' || c == 'T' || c == 'b' || c
            == 'f' || c == 'y' || c == '/' || c == 'c' || c == '?',
        KeyCode::Enter | KeyCode::Backspace | KeyCode::Other => false,
        _ => true,
    }
}

/// Every other key does nothing.
pub proof fn law_other_keys_do_nothing(s: State, code: KeyCode)
    requires
        browsing(s),
        !bound(code),
    ensures
        s.handle_key(plain(code)) == s,
{
    reveal(State::normal_key);
    reveal(State::move_key);
    reveal(State::command_key);
}

/// Typing in the search box: a character goes to the end of the query, Backspace takes
/// the last one away, Tab takes the next scope; each time the list is filtered anew.
/// Enter keeps the query, Escape drops it with its scope; the arrows step through the
/// matches.
pub proof fn law_typing(s: State, c: char)
    requires
        !s.control.show_help,
        s.find.mode == Mode::Search,
    ensures
        ({
            let t = s.handle_key(plain(KeyCode::Char(c)));
            let b = s.handle_key(plain(KeyCode::Backspace));
            let tab = s.handle_key(plain(KeyCode::Tab));
            let enter = s.handle_key(plain(KeyCode::Enter));
            let esc = s.handle_key(plain(KeyCode::Esc));
            &&& t.find.search == s.find.search.push(c) && t.find.mode == Mode::Search
            &&& s.find.search.len() > 0 ==> b.find.search == s.find.search.drop_last()
            &&& s.find.search.len() == 0 ==> b.find.search.len() == 0
            &&& b.find.mode == Mode::Search && tab.find.mode == Mode::Search
            &&& tab.find.search == s.find.search
            &&& tab.find.search_scope == crate::search::next_scope(s.find.search_scope)
            &&& t.find.search_scope == s.find.search_scope
            &&& enter.find.mode == Mode::Normal && same_list(s, enter)
            &&& enter.find.search_scope == s.find.search_scope
            &&& esc.find.mode == Mode::Normal && esc.find.search.len() == 0
            &&& esc.find.search_scope == Scope::Both
            &&& s.handle_key(plain(KeyCode::Down)) == s.next_match(1)
            &&& s.handle_key(plain(KeyCode::Up)) == s.next_match(-1)
            &&& t.list.filtered == s.with_search(s.find.search.push(c)).rebuild_filter().list.filtered
        }),
{
    reveal(State::search_key);
    reveal(State::apply_filter);
    reveal(State::rebuild_filter);
}

/// Choosing kinds: each letter turns its kind over, and Escape, Enter and `c` are done.
pub proof fn law_choosing_kinds(s: State)
    requires
        !s.control.show_help,
        s.find.mode == Mode::KindFilter,
    ensures
        s.handle_key(plain(KeyCode::Char('a'))) == s.toggle_kind(ChangeKind::Added),
        s.handle_key(plain(KeyCode::Char('m'))) == s.toggle_kind(ChangeKind::Modified),
        s.handle_key(plain(KeyCode::Char('d'))) == s.toggle_kind(ChangeKind::Deleted),
        s.handle_key(plain(KeyCode::Char('r'))) == s.toggle_kind(ChangeKind::Renamed),
        s.handle_key(plain(KeyCode::Char('u'))) == s.toggle_kind(ChangeKind::Untracked),
        s.handle_key(plain(KeyCode::Esc)) == s.with_mode(Mode::Normal),
        s.handle_key(plain(KeyCode::Enter)) == s.with_mode(Mode::Normal),
        s.handle_key(plain(KeyCode::Char('c'))) == s.with_mode(Mode::Normal),
        s.handle_key(plain(KeyCode::Other)) == s,
        s.with_mode(Mode::Normal).find.mode == Mode::Normal,
        same_list(s, s.with_mode(Mode::Normal)),
{
    reveal(State::kind_key);
}

/// The themes in turn: each is followed by the next of the list, the last by the first;
/// a theme that is not in the list gives way to the first.
pub proof fn law_themes_in_turn(i: int)
    requires
        0 <= i < 15,
    ensures
        listing::themes().len() == 15,
        ({
            let list = listing::themes();
            &&& (forall|k: int| 0 <= k < i ==> list[k] != list[i]) ==> {
                &&& listing::theme_after(Some(list[i]), 1) == if i == 14 {
                    list[0]
                } else {
                    list[i + 1]
                }
                &&& listing::theme_after(Some(list[i]), -1) == if i == 0 {
                    list[14]
                } else {
                    list[i - 1]
                }
            }
        }),
        listing::theme_after(None, 1) == listing::themes()[0],
        listing::themes()[0] == "Dracula"@,
        listing::themes()[14] == "ansi"@,
{
    let list = listing::themes();
    if forall|k: int| 0 <= k < i ==> list[k] != list[i] {
        lemma_position(list, i, 0);
    }
}

proof fn lemma_position(list: Seq<Seq<char>>, i: int, from: int)
    requires
        0 <= from <= i < list.len(),
        forall|k: int| 0 <= k < i ==> list[k] != list[i],
    ensures
        listing::position_from(list, list[i], from) == Some(i),
    decreases i - from,
{
    if from < i {
        assert(list[from] != list[i]);
        lemma_position(list, i, from + 1);
    }
}

} // verus!
