//! Reviewing a changeset: filters, sorting, searching, what changed on disk, and what
//! is drawn of it.

use diffski::app::App;
use diffski::building::{prepare, worker_count};
use diffski::commits::HistoryEntry;
use diffski::config::{Config, DiffMode};
use diffski::delta::{DeltaRun, Production};
use diffski::diff_pane::{selection_span, DiffBody};
use diffski::footer::{help_area, help_lines};
use diffski::frame::Panes;
use diffski::geometry::Rect;
use diffski::filter::Query;
use diffski::git::{ChangeKind, FileEntry, EMPTY_TREE, KIND_ORDER};
use diffski::history::commit_lines;
use diffski::input::{KeyCode, KeyEvent};
use diffski::labels::{chip_color, marker_style, marquee, truncate_middle};
use diffski::list_pane::ListPane;
use diffski::listing::{next_theme, signature, theme_names, Scan};
use diffski::mouse::{Hover, MouseButton, MouseEvent, MouseEventKind};
use diffski::pacing::{Pacing, Step};
use diffski::rich::{
    line_len, raw_line, restyle_range, wrap_text, Highlight, Ink, Line, Style, Text, BOLD,
    REVERSED, UNDERLINED,
};
use diffski::search::{count_matches, find_matches, strip_ansi, Scope};
use diffski::sort::{file_extension, order_entries, SortField};
use diffski::state::{Mode, Selection};

fn file(path: &str, kind: ChangeKind, mtime: i128) -> FileEntry {
    FileEntry {
        path: path.to_string(),
        kind,
        mtime,
        added: Some(2),
        removed: Some(1),
    }
}

fn scan(files: Vec<FileEntry>) -> Scan {
    Scan {
        has_head: true,
        branch: None,
        files: Ok(files),
    }
}

fn changes() -> Vec<FileEntry> {
    vec![
        file("src/b.rs", ChangeKind::Modified, 20),
        file("src/a.rs", ChangeKind::Added, 30),
        file("notes.md", ChangeKind::Untracked, 10),
    ]
}

const A: &str = "--- a/src/a.rs\n+++ b/src/a.rs\n@@ -1,2 +1,2 @@\n shared value\n-old value\n+new Value\n";
const B: &str = "--- a/src/b.rs\n+++ b/src/b.rs\n@@ -1 +1 @@\n-gone\n+here\n";
const N: &str = "--- /dev/null\n+++ b/notes.md\n@@ -0,0 +1 @@\n+remember the value\n";

fn production(path: &str) -> Production {
    let raw = match path {
        "src/a.rs" => A,
        "src/b.rs" => B,
        _ => N,
    };
    Production {
        raw: Ok(raw.as_bytes().to_vec()),
        run: DeltaRun::Missing,
    }
}

/// Brings the combined diff up to date, as the program around the library does.
fn build(app: &mut App) {
    let cold = app.cold_files();
    let warm = cold
        .iter()
        .map(|&k| {
            let entry = &app.list.files[app.list.filtered[k]];
            prepare(entry, &production(&entry.path))
        })
        .collect();
    app.prewarm(warm);
    assert!(app.cold_files().is_empty());
    let made: Vec<Production> = app
        .list
        .filtered
        .iter()
        .map(|&i| production(&app.list.files[i].path))
        .collect();
    app.ensure_combined(&made);
    assert!(!app.needs_build());
}

fn retain(app: &mut App) {
    for i in app.missing_raw(&app.list.files) {
        let entry = app.list.files[i].clone();
        let made = prepare(&entry, &production(&entry.path));
        app.source
            .cache
            .insert_raw(&entry.path, signature(&entry), made.raw.unwrap());
    }
}

fn opened() -> App {
    let mut app = App::new(Config::default(), scan(changes()));
    app.pane.diff_width = 30;
    app.pane.diff_viewport_height = 5;
    build(&mut app);
    app
}

fn press(app: &mut App, code: KeyCode) {
    retain(app);
    let key = KeyEvent::plain(code);
    app.handle_key(key);
}

fn typed(app: &mut App, text: &str) {
    for c in text.chars() {
        press(app, KeyCode::Char(c));
    }
}

fn text(line: &Line) -> String {
    line.spans.iter().map(|s| s.content.clone()).collect()
}

fn texts(lines: &[Line]) -> Vec<String> {
    lines.iter().map(text).collect()
}

fn shown_paths(app: &App) -> Vec<&str> {
    app.list
        .filtered
        .iter()
        .map(|&i| app.list.files[i].path.as_str())
        .collect()
}

// --- the combined diff -----------------------------------------------------------

#[test]
fn the_combined_diff_is_all_sections_in_order() {
    let app = opened();
    assert_eq!(shown_paths(&app), ["notes.md", "src/a.rs", "src/b.rs"]);
    let rows = texts(&app.pane.combined.lines);
    assert_eq!(app.pane.offsets, [0, 4, 10]);
    assert_eq!(rows.len(), 15);
    assert_eq!(rows[3], "+remember the value");
    assert_eq!(rows[4], "--- a/src/a.rs");
    assert_eq!(rows[14], "+here");
}

#[test]
fn rendering_is_spread_over_a_few_workers() {
    assert_eq!(worker_count(8, 3), 3);
    assert_eq!(worker_count(8, 100), 8);
    assert_eq!(worker_count(64, 100), 16);
}

#[test]
fn building_again_changes_nothing() {
    let mut app = opened();
    let before = texts(&app.pane.combined.lines);
    app.ensure_combined(&vec![]);
    assert_eq!(texts(&app.pane.combined.lines), before);
}

#[test]
fn long_lines_wrap_and_lose_nothing() {
    let mut app = opened();
    app.pane.diff_width = 10;
    assert!(app.needs_build());
    build(&mut app);
    let rows = texts(&app.pane.combined.lines);
    assert_eq!(rows[..3], ["--- /dev/n", "ull", "+++ b/note"]);
    assert_eq!(rows.concat(), [N, A, B].concat().replace('\n', ""));
    let narrow = wrap_text(&Text { lines: vec![raw_line("abcde")] }, 2);
    assert_eq!(texts(&narrow.lines), ["ab", "cd", "e"]);
    let unwrapped = wrap_text(&Text { lines: vec![raw_line("abcde")] }, 0);
    assert_eq!(texts(&unwrapped.lines), ["abcde"]);
}

#[test]
fn failures_and_empty_diffs_have_sections_too() {
    let mut app = App::new(Config::default(), scan(changes()));
    let sig = signature(&app.list.files[1]);
    app.source
        .cache
        .insert("src/a.rs", sig, app.pane.diff_width, Text { lines: vec![] });
    let made = vec![
        Production {
            raw: Err("no diff today".to_string()),
            run: DeltaRun::Missing,
        },
        production("src/a.rs"),
        production("src/b.rs"),
    ];
    app.ensure_combined(&made);
    let rows = texts(&app.pane.combined.lines);
    assert_eq!(rows[0], "  error rendering notes.md: no diff today");
    assert_eq!(rows[1], "  (no textual diff)");
    assert_eq!(app.pane.offsets, [0, 1, 2]);
    assert_eq!(app.note.status, "no diff today");
}

#[test]
fn the_selection_tracks_the_viewport() {
    let mut app = opened();
    app.scroll_down(5);
    assert_eq!((app.pane.diff_scroll, app.list.selected), (5, 1));
    app.scroll_end();
    assert_eq!((app.pane.diff_scroll, app.list.selected), (10, 2));
    app.scroll_up(100);
    assert_eq!((app.pane.diff_scroll, app.list.selected), (0, 0));
    app.select_next();
    assert_eq!((app.pane.diff_scroll, app.list.selected), (4, 1));
    app.select_prev();
    app.select_prev();
    assert_eq!((app.pane.diff_scroll, app.list.selected), (0, 0));
}

#[test]
fn the_viewport_stays_on_its_file_across_a_rebuild() {
    let mut app = opened();
    app.scroll_down(5);
    app.toggle_sort_dir();
    assert_eq!(app.note.status, "sort: tree ▼");
    assert!(app.queue.save_pending);
    build(&mut app);
    assert_eq!(shown_paths(&app), ["src/b.rs", "src/a.rs", "notes.md"]);
    assert_eq!(app.pane.offsets, [0, 5, 11]);
    assert_eq!((app.list.selected, app.pane.diff_scroll), (1, 6));
}

// --- searching ---------------------------------------------------------------------

#[test]
fn a_content_search_narrows_jumps_and_steps() {
    let mut app = opened();
    press(&mut app, KeyCode::Char('/'));
    assert_eq!(app.find.mode, Mode::Search);
    typed(&mut app, "value");
    build(&mut app);
    // Context lines never match: a.rs counts two, b.rs none.
    assert_eq!(shown_paths(&app), ["notes.md", "src/a.rs"]);
    let hits: Vec<_> = app
        .find
        .matches
        .iter()
        .map(|m| (m.row, m.cols, m.file_pos, m.aligned))
        .collect();
    assert_eq!(
        hits,
        [(3, (14, 19), 0, true), (8, (5, 10), 1, true), (9, (5, 10), 1, true)]
    );
    assert_eq!((app.find.current_match, app.pane.diff_scroll), (0, 1));
    press(&mut app, KeyCode::Up);
    assert_eq!(app.find.current_match, 2);
    press(&mut app, KeyCode::Down);
    assert_eq!(app.find.current_match, 0);
    press(&mut app, KeyCode::Tab);
    assert_eq!(app.find.search_scope, Scope::Add);
    build(&mut app);
    assert_eq!(app.find.matches.len(), 2);
    press(&mut app, KeyCode::Enter);
    assert_eq!(app.find.mode, Mode::Normal);
    assert_eq!(app.find.search, "value");
    press(&mut app, KeyCode::Char('n'));
    assert_eq!(app.find.current_match, 1);
    press(&mut app, KeyCode::Char('N'));
    assert_eq!(app.find.current_match, 0);
}

#[test]
fn a_match_that_crosses_a_wrap_is_cut_at_its_row() {
    let mut app = opened();
    app.pane.diff_width = 16;
    press(&mut app, KeyCode::Char('/'));
    typed(&mut app, "value");
    build(&mut app);
    // "+remember the value" wraps after "+remember the va".
    let m = app.find.matches[0];
    assert_eq!(m.cols, (14, 16));
    let row = text(&app.pane.combined.lines[m.row]);
    assert_eq!(&row[14..16], "va");
}

#[test]
fn uppercase_makes_a_search_exact_and_escape_clears_it() {
    let mut app = opened();
    press(&mut app, KeyCode::Char('/'));
    typed(&mut app, "Value");
    assert_eq!(shown_paths(&app), ["src/a.rs"]);
    press(&mut app, KeyCode::Backspace);
    assert_eq!(app.find.search, "Valu");
    press(&mut app, KeyCode::Esc);
    assert_eq!(app.find.mode, Mode::Normal);
    assert_eq!(app.find.search, "");
    assert_eq!(shown_paths(&app).len(), 3);
    // Uppercase beyond ASCII makes a search exact too.
    assert_eq!(find_matches("äB ab", "äb"), vec![(0, 2)]);
    assert!(find_matches("ÄB ab", "Äb").is_empty());
    assert_eq!(find_matches("x Äb", "Äb"), vec![(2, 4)]);
}

#[test]
fn filters_compose() {
    let mut app = opened();
    press(&mut app, KeyCode::Char('/'));
    typed(&mut app, "file:src/*.rs");
    press(&mut app, KeyCode::Enter);
    assert_eq!(shown_paths(&app), ["src/a.rs", "src/b.rs"]);
    press(&mut app, KeyCode::Char('c'));
    press(&mut app, KeyCode::Char('a'));
    assert_eq!(shown_paths(&app), ["src/a.rs"]);
    press(&mut app, KeyCode::Char('a'));
    assert_eq!(shown_paths(&app), ["src/a.rs", "src/b.rs"]);
    press(&mut app, KeyCode::Char('u'));
    assert!(shown_paths(&app).is_empty());
    press(&mut app, KeyCode::Enter);
    assert_eq!(app.find.mode, Mode::Normal);
}

#[test]
fn stripping_twice_changes_nothing() {
    let once = strip_ansi("a\u{1b}[1mb\u{1b}[0mc");
    assert_eq!(once, "abc");
    assert_eq!(strip_ansi(&once), once);
}

#[test]
fn scopes_add_up_and_cycle() {
    for needle in ["value", "e", "gone"] {
        for raw in [A, B, N] {
            assert_eq!(
                count_matches(raw, needle, Scope::Both),
                count_matches(raw, needle, Scope::Add) + count_matches(raw, needle, Scope::Del)
            );
        }
    }
    assert_eq!(Scope::Both.cycle().cycle().cycle(), Scope::Both);
    assert_eq!((Scope::Both.glyph(), Scope::Add.glyph(), Scope::Del.glyph()), ("±", "+", "−"));
}

#[test]
fn names_are_compared_in_lower_case() {
    assert!(Query::parse("ÄPFEL").matches("obst/äpfel.txt"));
    assert!(Query::parse("*.ÄB").matches("x.äb"));
    assert!(!Query::parse("!Äpfel").matches("ÄPFEL"));
    assert_eq!(file_extension("X.ÄB"), Some("äb".to_string()));
}

#[test]
fn type_chips_stay_when_a_type_is_chosen() {
    let mut app = opened();
    assert_eq!(app.list.file_types, ["md", "rs"]);
    app.toggle_file_type("md".to_string());
    assert_eq!(shown_paths(&app), ["notes.md"]);
    assert_eq!(app.list.file_types, ["md", "rs"]);
    app.toggle_file_type("md".to_string());
    assert_eq!(shown_paths(&app).len(), 3);
}

// --- sorting and themes --------------------------------------------------------------

#[test]
fn the_sort_field_cycles() {
    let mut app = opened();
    press(&mut app, KeyCode::Char('s'));
    assert_eq!(app.list.sort_field, SortField::Modified);
    assert_eq!(shown_paths(&app), ["notes.md", "src/b.rs", "src/a.rs"]);
    assert_eq!(app.note.status, "sort: modified ▲");
    press(&mut app, KeyCode::Char('s'));
    press(&mut app, KeyCode::Char('s'));
    assert_eq!(app.list.sort_field, SortField::Tree);
    assert_eq!(SortField::Size.indicator(true), "size ▼");
}

#[test]
fn sorting_by_time_is_stable_and_reversible() {
    let mut files = vec![
        file("z", ChangeKind::Modified, 5),
        file("y", ChangeKind::Modified, -1),
        file("x", ChangeKind::Modified, 5),
    ];
    order_entries(&mut files, SortField::Modified, false);
    let order: Vec<&str> = files.iter().map(|f| f.path.as_str()).collect();
    assert_eq!(order, ["y", "z", "x"]);
    order_entries(&mut files, SortField::Tree, true);
    let order: Vec<&str> = files.iter().map(|f| f.path.as_str()).collect();
    assert_eq!(order, ["z", "y", "x"]);
}

#[test]
fn themes_cycle_both_ways_and_keep_what_is_searched() {
    assert_eq!(theme_names().len(), 15);
    assert_eq!(next_theme(&None, 1), "Dracula");
    assert_eq!(next_theme(&Some("ansi".to_string()), 1), "Dracula");
    assert_eq!(next_theme(&Some("Dracula".to_string()), -1), "ansi");
    assert_eq!(next_theme(&Some("my own".to_string()), -1), "Dracula");
    let mut app = opened();
    let sig = signature(&app.list.files[0]);
    press(&mut app, KeyCode::Char('t'));
    assert_eq!(app.source.theme.as_deref(), Some("Dracula"));
    assert_eq!(app.note.status, "theme: Dracula");
    assert!(app.needs_build());
    assert_eq!(app.cold_files().len(), 3);
    assert_eq!(app.source.cache.raw_text("notes.md", sig), Some(N));
    press(&mut app, KeyCode::Char('T'));
    assert_eq!(app.source.theme.as_deref(), Some("ansi"));
}

#[test]
fn signatures_tell_edits_and_kinds_apart() {
    let one = file("a", ChangeKind::Modified, 1);
    assert_eq!(signature(&one), 1);
    assert_ne!(signature(&one), signature(&file("a", ChangeKind::Modified, 2)));
    assert_eq!(
        signature(&file("a", ChangeKind::Added, 1)),
        1 ^ 0x9E37_79B9_7F4A_7C15
    );
    assert_eq!(signature(&file("a", ChangeKind::Modified, -5)), 0);
}

// --- what changed on disk ----------------------------------------------------------------

#[test]
fn changes_on_disk_are_marked_until_viewed() {
    let mut app = opened();
    assert!(app.cues.recently_changed.is_empty());
    // The same files again: nothing is marked.
    app.on_fs_change(scan(changes()));
    assert!(app.cues.recently_changed.is_empty());
    assert!(app.cues.behind_dirty);
    let mut files = changes();
    files[1].mtime = 31;
    app.on_fs_change(scan(files));
    assert!(app.cues.recently_changed.contains("src/a.rs"));
    assert_eq!(app.cues.recently_changed.len(), 1);
    assert_eq!(app.cold_files().len(), 1);
    app.mark_viewed("src/a.rs");
    assert!(app.cues.recently_changed.is_empty());
    // A file that left the changeset keeps no mark.
    let mut gone = changes();
    gone[0].mtime = 50;
    app.on_fs_change(scan(gone));
    assert!(app.cues.recently_changed.contains("src/b.rs"));
    app.on_fs_change(scan(vec![]));
    assert!(app.cues.recently_changed.is_empty());
}

#[test]
fn follow_jumps_to_the_newest_change() {
    let mut app = opened();
    press(&mut app, KeyCode::Char('f'));
    assert_eq!(app.note.status, "follow: on");
    let mut files = changes();
    files[0].mtime = 40;
    files[1].mtime = 41;
    app.on_fs_change(scan(files));
    build(&mut app);
    assert_eq!(app.current_entry().unwrap().path, "src/a.rs");
    assert_eq!(app.view_window(), (4, 10));
    assert_eq!(app.pane.diff_scroll, 4);
    press(&mut app, KeyCode::Char('f'));
    assert_eq!(app.note.status, "follow: off");
    assert_eq!(app.view_window(), (0, 15));
    assert_eq!(app.pane.diff_scroll, 4);
}

#[test]
fn a_failed_scan_keeps_the_files() {
    let mut app = opened();
    app.refresh(Scan {
        has_head: true,
        branch: None,
        files: Err("`git status` failed: oh no".to_string()),
    });
    assert_eq!(app.note.status, "git error: `git status` failed: oh no");
    assert_eq!(shown_paths(&app).len(), 3);
}

#[test]
fn base_branch_mode_is_asked_for_and_falls_back() {
    let mut app = opened();
    assert_eq!((app.source.base.as_str(), app.source.base_label.as_str()), ("HEAD", "HEAD"));
    app.scroll_down(6);
    press(&mut app, KeyCode::Char('b'));
    assert_eq!(app.source.diff_mode, DiffMode::BaseBranch);
    assert!(app.queue.scan_pending && app.queue.save_pending);
    assert_eq!((app.list.selected, app.pane.diff_scroll), (0, 0));
    app.refresh(Scan {
        has_head: true,
        branch: Some(("origin/main".to_string(), "abc".to_string())),
        files: Ok(changes()),
    });
    assert!(!app.queue.scan_pending);
    assert_eq!((app.source.base.as_str(), app.source.base_label.as_str()), ("abc", "origin/main"));
    app.refresh(scan(changes()));
    assert_eq!(app.source.diff_mode, DiffMode::Working);
    assert_eq!(app.note.status, "no base branch found — showing working changes");
    let mut fresh = scan(vec![]);
    fresh.has_head = false;
    app.refresh(fresh);
    assert_eq!(app.source.base, "4b825dc642cb6eb9a060e54bf8d69288fbee4904");
}

// --- keys, messages, histories -------------------------------------------------------------

#[test]
fn quitting_and_help() {
    let mut app = opened();
    press(&mut app, KeyCode::Char('?'));
    assert!(app.control.show_help);
    press(&mut app, KeyCode::Char('s'));
    assert!(!app.control.show_help);
    assert_eq!(app.list.sort_field, SortField::Tree);
    press(&mut app, KeyCode::Char('?'));
    press(&mut app, KeyCode::Char('q'));
    assert!(app.control.should_quit && !app.control.show_help);
    let mut app = opened();
    press(&mut app, KeyCode::Char('/'));
    app.handle_key(KeyEvent {
        code: KeyCode::Char('c'),
        control: true,
    });
    assert!(app.control.should_quit);
    assert_eq!(app.find.search, "");
}

#[test]
fn messages_expire_after_four_seconds() {
    let mut app = opened();
    app.set_clock(1_000_000_000);
    app.set_status("hello".to_string());
    app.set_clock(4_999_999_999);
    assert!(!app.status_tick());
    app.set_clock(5_000_000_000);
    assert!(app.status_tick());
    assert_eq!(app.note.status, "");
    assert!(!app.status_tick());
    app.set_update_ready("new!".to_string());
    assert!(app.cues.update_ready);
    assert_eq!(app.note.status, "new!");
}

#[test]
fn the_settings_to_persist_are_those_in_use() {
    let mut app = opened();
    press(&mut app, KeyCode::Tab);
    assert!(app.screen.sidebar_collapsed);
    let config = app.config();
    assert!(config.sidebar_collapsed);
    assert_eq!(config.split_pct, 30);
    app.queue.save_pending = false;
    app.toggle_kind(ChangeKind::Added);
    assert!(!app.queue.save_pending);
}

fn commit(hash: &str, subject: &str, pre_branch: bool) -> HistoryEntry {
    HistoryEntry {
        hash: hash.to_string(),
        short_hash: hash[..2].to_string(),
        subject: subject.to_string(),
        path_at_commit: "src/a.rs".to_string(),
        pre_branch,
    }
}

#[test]
fn histories_that_can_not_be_read_say_so() {
    let mut app = opened();
    app.select_next();
    press(&mut app, KeyCode::Left);
    assert_eq!(app.queue.history_request.as_deref(), Some("src/a.rs"));
    app.open_history(Err("boom".to_string()));
    assert!(app.history.is_none());
    assert_eq!(app.note.status, "git error: boom");
    press(&mut app, KeyCode::Left);
    app.open_history(Ok(vec![]));
    assert_eq!(app.note.status, "no commit history for this file");
    assert!(app.queue.history_request.is_none());
}

#[test]
fn histories_keep_what_was_rendered_until_the_theme_changes() {
    let mut app = opened();
    app.select_next();
    press(&mut app, KeyCode::Left);
    app.open_history(Ok(vec![commit("bbbb", "two", false), commit("aaaa", "one", true)]));
    assert_eq!(
        app.history_wanted(),
        Some(("bbbb".to_string(), "src/a.rs".to_string()))
    );
    app.history_rendered(&production("src/a.rs"));
    assert_eq!(app.history_wanted(), None);
    press(&mut app, KeyCode::Left);
    app.history_rendered(&production("src/b.rs"));
    assert_eq!(app.history.as_ref().unwrap().text.lines.len(), 5);
    press(&mut app, KeyCode::Right);
    assert_eq!(app.history_wanted(), None);
    assert_eq!(app.history.as_ref().unwrap().text.lines.len(), 6);
    app.scroll_end();
    assert_eq!(app.history.as_ref().unwrap().scroll, 1);
    assert_eq!(app.pane.diff_scroll, 4);
    press(&mut app, KeyCode::Char('t'));
    build(&mut app);
    assert!(app.history_wanted().is_some());
    app.history_rendered(&Production {
        raw: Err("gone".to_string()),
        run: DeltaRun::Missing,
    });
    assert_eq!(
        texts(&app.history.as_ref().unwrap().text.lines),
        ["  error rendering history: gone"]
    );
    let empty = commit_lines(Ok(Text { lines: vec![] }), 30);
    assert_eq!(texts(&empty.lines), ["  (no textual diff)"]);
}

// --- the mouse -------------------------------------------------------------------------------

fn event(kind: MouseEventKind, column: u16, row: u16) -> MouseEvent {
    MouseEvent { kind, column, row }
}

fn down(app: &mut App, column: u16, row: u16) {
    let ev = event(MouseEventKind::Down(MouseButton::Left), column, row);
    assert!(app.can_handle_mouse(ev));
    assert!(app.handle_mouse(ev));
}

fn hover(app: &mut App, column: u16, row: u16) -> bool {
    let ev = event(MouseEventKind::Moved, column, row);
    assert!(app.can_handle_mouse(ev));
    app.handle_mouse(ev)
}

fn placed() -> (App, Panes) {
    let mut app = opened();
    let panes = app.place_panes(Rect {
        x: 0,
        y: 0,
        width: 100,
        height: 21,
    });
    build(&mut app);
    (app, panes)
}

#[test]
fn the_panes_tile_the_screen() {
    let (app, panes) = placed();
    let rect = |x, y, width, height| Rect { x, y, width, height };
    assert_eq!(panes.main, rect(0, 0, 100, 20));
    assert_eq!(panes.footer, rect(0, 20, 100, 1));
    assert_eq!(panes.left, rect(0, 0, 30, 20));
    assert_eq!(panes.divider, rect(30, 0, 1, 20));
    assert_eq!(panes.right, rect(31, 0, 69, 20));
    assert_eq!((app.pane.diff_width, app.pane.diff_viewport_height), (68, 19));
    assert_eq!(app.screen.area_left, panes.left);
}

#[test]
fn the_panes_tile_screens_of_every_size() {
    let mut app = opened();
    for pct in 15..=85u16 {
        for width in [8u16, 9, 17, 40, 81, 133, 200, 251] {
            for (x, y, height) in [(0u16, 0u16, 2u16), (3, 5, 24), (0, 1, 60)] {
                app.screen.split_pct = pct;
                app.screen.sidebar_collapsed = false;
                let area = Rect { x, y, width, height };
                let p = app.place_panes(area);
                assert_eq!((p.main.y, p.main.height), (y, height - 1));
                assert_eq!((p.footer.y, p.footer.height), (y + height - 1, 1));
                if width as u32 * pct as u32 + 200 <= 100 * width as u32 {
                    let first = (width as u32 * pct as u32 + 50) / 100;
                    assert_eq!((p.left.x, p.left.width as u32), (x, first), "{pct}% of {width}");
                    assert_eq!((p.divider.x as u32, p.divider.width), (x as u32 + first, 1));
                    assert_eq!(p.right.x, p.divider.x + 1);
                    assert_eq!(p.left.width + 1 + p.right.width, width);
                }
                app.screen.sidebar_collapsed = true;
                let p = app.place_panes(area);
                assert_eq!(p.right, p.main);
                assert_eq!(p.left, Rect::default());
            }
        }
    }
}

#[test]
fn small_screens_are_the_diffs_first() {
    let mut app = opened();
    let mut place = |width: u16, height: u16, pct: u16| {
        app.screen.split_pct = pct;
        let p = app.place_panes(Rect { x: 0, y: 0, width, height });
        let heights = (p.main.height, p.footer.height);
        (heights, (p.left.width, p.divider.width, p.right.width))
    };
    assert_eq!(place(80, 0, 30).0, (0, 0));
    assert_eq!(place(80, 1, 30).0, (1, 0));
    assert_eq!(place(80, 2, 30).0, (1, 1));
    assert_eq!(place(80, 3, 30).0, (2, 1));
    assert_eq!(place(0, 10, 30).1, (0, 0, 0));
    assert_eq!(place(1, 10, 30).1, (0, 0, 1));
    assert_eq!(place(2, 10, 30).1, (0, 1, 1));
    assert_eq!(place(3, 10, 30).1, (1, 1, 1));
    assert_eq!(place(4, 10, 85).1, (2, 1, 1));
    assert_eq!(place(13, 10, 85).1, (11, 1, 1));
    assert_eq!(place(14, 10, 85).1, (12, 1, 1));
    assert_eq!(place(20, 10, 85).1, (17, 1, 2));
}

#[test]
fn the_panes_share_every_small_screen() {
    let mut app = opened();
    for pct in 15..=85u32 {
        for width in 0..34u32 {
            for (x, y, height) in [(0u32, 0u32, 0u32), (0, 0, 1), (2, 3, 1), (7, 0, 2), (65530, 65533, 9)] {
                app.screen.split_pct = pct as u16;
                let area = Rect {
                    x: x as u16,
                    y: y as u16,
                    width: width as u16,
                    height: height as u16,
                };
                let rows = height.min(65535 - y);
                let columns = width.min(65535 - x);
                let lower = rows.saturating_sub(1).min(1);
                let middle = columns.saturating_sub(1).min(1);
                let first = ((columns * pct + 50) / 100).min(columns.saturating_sub(1) - middle);
                let p = app.place_panes(area);
                let across = |r: Rect| (r.x as u32, r.width as u32);
                let down = |r: Rect| (r.y as u32, r.height as u32);
                let note = format!("{pct}% of {area:?}");
                assert_eq!(down(p.main), (y, rows - lower), "{note}");
                assert_eq!(down(p.footer), (y + rows - lower, lower), "{note}");
                assert_eq!(across(p.main), (x, width), "{note}");
                assert_eq!(across(p.footer), (x, width), "{note}");
                assert_eq!(across(p.left), (x, first), "{note}");
                assert_eq!(across(p.divider), (x + first, middle), "{note}");
                assert_eq!(across(p.right), (x + first + middle, columns - first - middle), "{note}");
                assert_eq!(down(p.right), down(p.main), "{note}");
            }
        }
    }
}

#[test]
fn hovering_previews_the_click() {
    let (mut app, _) = placed();
    // Row 0 ends in "tree ▲", one column before the divider's grab zone.
    assert!(hover(&mut app, 23, 0));
    assert_eq!(app.hover_target(), Some(Hover::SortLabel));
    assert!(!hover(&mut app, 24, 0));
    assert!(hover(&mut app, 28, 0));
    assert_eq!(app.hover_target(), Some(Hover::SortArrow));
    down(&mut app, 28, 0);
    assert!(app.list.sort_desc);
    down(&mut app, 28, 0);
    hover(&mut app, 4, 1);
    assert_eq!(app.hover_target(), Some(Hover::KindChip(KIND_ORDER[1])));
    hover(&mut app, 1, 2);
    assert_eq!(app.hover_target(), Some(Hover::FileType("md".to_string())));
    down(&mut app, 1, 2);
    assert_eq!(shown_paths(&app), ["notes.md"]);
    down(&mut app, 1, 2);
    hover(&mut app, 5, 4);
    assert_eq!(app.hover_target(), Some(Hover::FileRow(1)));
    build(&mut app);
    down(&mut app, 5, 4);
    assert_eq!(app.list.selected, 1);
    hover(&mut app, 5, 9);
    assert_eq!(app.hover_target(), None);
    // The column next to the divider grabs it.
    down(&mut app, 29, 4);
    assert!(app.is_dragging());
}

#[test]
fn dragging_the_divider_resizes_within_bounds() {
    let (mut app, _) = placed();
    down(&mut app, 30, 7);
    app.handle_mouse(event(MouseEventKind::Drag(MouseButton::Left), 50, 7));
    assert_eq!(app.screen.split_pct, 50);
    app.handle_mouse(event(MouseEventKind::Drag(MouseButton::Left), 99, 7));
    assert_eq!(app.screen.split_pct, 85);
    app.handle_mouse(event(MouseEventKind::Drag(MouseButton::Left), 2, 7));
    assert_eq!(app.screen.split_pct, 15);
    assert!(!app.queue.save_pending);
    app.handle_mouse(event(MouseEventKind::Up(MouseButton::Left), 2, 7));
    assert!(!app.is_dragging() && app.queue.save_pending);
}

#[test]
fn selected_text_is_copied_on_release() {
    let (mut app, _) = placed();
    // Row 4 of the pane shows line 3, "+remember the value".
    down(&mut app, 32, 4);
    assert!(app.pointer.selecting);
    app.handle_mouse(event(MouseEventKind::Drag(MouseButton::Left), 40, 4));
    app.handle_mouse(event(MouseEventKind::Up(MouseButton::Left), 40, 4));
    assert_eq!(app.queue.pending_copy.as_deref(), Some("remember"));
    assert_eq!(app.note.status, "copied 8 chars");
    // Across lines, from the end to the beginning.
    app.pointer.selection = Some(Selection {
        anchor: (5, 3),
        cursor: (3, 14),
    });
    app.copy_selection();
    assert_eq!(app.queue.pending_copy.as_deref(), Some("value\n--- a/src/a.rs\n+++"));
    app.queue.pending_copy = None;
    app.pointer.selection = Some(Selection {
        anchor: (3, 14),
        cursor: (3, 14),
    });
    app.copy_selection();
    assert_eq!(app.queue.pending_copy, None);
}

#[test]
fn the_wheel_scrolls_the_pane_it_is_over() {
    let (mut app, _) = placed();
    app.pane.diff_viewport_height = 5;
    app.handle_mouse(event(MouseEventKind::ScrollDown, 50, 5));
    assert_eq!(app.pane.diff_scroll, 3);
    app.handle_mouse(event(MouseEventKind::ScrollUp, 50, 5));
    assert_eq!(app.pane.diff_scroll, 0);
    app.handle_mouse(event(MouseEventKind::ScrollDown, 5, 5));
    assert_eq!((app.list.selected, app.pane.diff_scroll), (1, 4));
    app.handle_mouse(event(MouseEventKind::ScrollUp, 5, 5));
    assert_eq!((app.list.selected, app.pane.diff_scroll), (0, 0));
    app.control.show_help = true;
    app.handle_mouse(event(MouseEventKind::Down(MouseButton::Right), 5, 5));
    assert!(!app.control.show_help);
}

// --- drawing -----------------------------------------------------------------------------------

#[test]
fn the_file_list_shows_counts_chips_and_cues() {
    let (mut app, panes) = placed();
    app.cues.recently_changed.insert("src/b.rs");
    app.cues.recently_changed.insert("notes.md");
    app.toggle_kind(ChangeKind::Added);
    app.toggle_kind(ChangeKind::Added);
    build(&mut app);
    assert!(app.can_total() && app.can_hover());
    let pane: ListPane = app.draw_file_list(panes.left).unwrap();
    assert_eq!(text(&pane.header), " CHANGES (3) +6 -3     tree ▲");
    assert_eq!(text(&pane.kind_chips), " [A][M][D][R][U]");
    assert_eq!(text(&pane.type_chips), " [.md] [.rs] ");
    assert_eq!(
        texts(&pane.rows),
        ["U notes.md +2 -1", "A src/a.rs +2 -1", "M src/b.rs +2 -1 ●"]
    );
    assert_eq!(pane.selected, Some(0));
    assert_eq!(pane.list_area, Rect { y: 3, height: 17, ..panes.left });
    // The file that is looked at is no longer marked.
    assert!(!app.cues.recently_changed.contains("notes.md"));
}

#[test]
fn the_counts_give_way_to_the_sort_order() {
    let (mut app, panes) = placed();
    let pane = app.draw_file_list(Rect { width: 22, ..panes.left }).unwrap();
    assert_eq!(text(&pane.header), " CHANGES (3)   tree ▲");
    let none = app.draw_file_list(Rect { height: 0, ..panes.left });
    assert!(none.is_none());
    app.set_clock(0);
    let narrow = app.draw_file_list(Rect { width: 16, ..panes.left }).unwrap();
    assert_eq!(text(&narrow.rows[0]), "U notes. +2 -1");
    assert!(app.marquee.active_path_overflow);
    assert!(app.marquee_step());
    assert!(!app.marquee_step());
    app.set_clock(220_000_000);
    assert!(app.marquee_step());
    assert_eq!(app.marquee.offset, 2);
}

#[test]
fn the_diff_pane_shows_the_window_and_marks_matches() {
    let (mut app, panes) = placed();
    press(&mut app, KeyCode::Char('/'));
    typed(&mut app, "value");
    build(&mut app);
    press(&mut app, KeyCode::Enter);
    app.cues.behind = Some(3);
    let area = Rect { height: 5, ..panes.right };
    app.pane.diff_viewport_height = 4;
    app.scroll_home();
    assert!(app.can_draw_diff(area));
    let pane = app.draw_diff(area).unwrap();
    assert_eq!(text(&pane.header), " U notes.md   HEAD ↓3 [0/10]");
    let DiffBody::Lines(rows, Some(rail)) = pane.body else {
        panic!("more than one screen of lines");
    };
    assert_eq!(texts(&rows)[3], "+remember the value");
    let lit = rows[3].spans.iter().find(|s| s.content == "value").unwrap();
    assert_eq!(lit.style.add_modifier, REVERSED | BOLD);
    assert_eq!((rail.length, rail.position), (6, 0));
    let marks: Vec<_> = rail.marks.iter().map(|m| (m.y, m.current)).collect();
    assert_eq!(marks, [(3, false), (4, false), (2, true)]);
    assert_eq!(text(&app.draw_footer()), "c kinds · b base · / search · Tab collapse · ? help · q quit · match 1/3");
}

#[test]
fn placeholders_stand_for_missing_diffs() {
    let body = |app: &App| match app.draw_diff(Rect { x: 0, y: 0, width: 40, height: 5 }).unwrap().body {
        DiffBody::Placeholder(message) => message,
        DiffBody::Lines(..) => "lines".to_string(),
    };
    let clean = App::new(Config::default(), scan(vec![]));
    assert_eq!(body(&clean), "✨ clean working tree — nothing changed");
    let mut unbuilt = App::new(Config::default(), scan(changes()));
    assert_eq!(body(&unbuilt), "rendering diffs…");
    unbuilt.toggle_file_type("none".to_string());
    assert_eq!(body(&unbuilt), "no files match the current filters");
    assert_eq!(body(&opened()), "lines");
}

#[test]
fn the_footer_says_what_is_unusual() {
    let mut app = opened();
    let hints = "c kinds · b base · / search · Tab collapse · ? help · q quit";
    assert_eq!(text(&app.draw_footer()), hints);
    app.toggle_kind(ChangeKind::Deleted);
    app.toggle_kind(ChangeKind::Added);
    app.control.follow = true;
    app.cues.update_ready = true;
    assert_eq!(
        text(&app.draw_footer()),
        format!("{hints} · follow · kinds: AD · ⟳ restart to apply")
    );
    app.set_status("hello".to_string());
    assert_eq!(text(&app.draw_footer()), "hello   ⟳ restart to apply");
    app.find.mode = Mode::KindFilter;
    assert_eq!(
        text(&app.draw_footer()),
        "kinds: [A][M][D][R][U]   (a/m/d/r/u toggle · Enter/Esc done)"
    );
    app.find.mode = Mode::Search;
    app.find.search = "x".to_string();
    assert_eq!(
        text(&app.draw_footer()),
        "search[±]: x▏ — 0 matches   (Tab scope · file: names · Enter accept · Esc clear)"
    );
}

#[test]
fn the_picture_holds_what_is_open() {
    let (mut app, panes) = placed();
    assert!(app.can_draw(panes));
    let picture = app.draw(panes);
    assert_eq!(picture.list.unwrap().rows.len(), 3);
    assert!(picture.diff.is_some() && picture.help.is_none());
    app.control.show_help = true;
    app.screen.sidebar_collapsed = true;
    let panes = app.place_panes(Rect { x: 0, y: 0, width: 100, height: 21 });
    let picture = app.draw(panes);
    assert!(picture.list.is_none());
    assert_eq!(picture.help.unwrap().area, Rect { x: 19, y: 0, width: 62, height: 20 });
    assert!(!app.can_draw(Panes { main: Rect { x: 65535, ..panes.main }, ..panes }));
}

#[test]
fn the_help_overlay_is_centered() {
    let lines = texts(&help_lines());
    assert_eq!(lines.len(), 21);
    assert_eq!(lines[0], "  ↑ / ↓  (j / k)        jump to previous / next file");
    assert_eq!(lines[20], "  press any key to close");
    let area = help_area(Rect { x: 0, y: 0, width: 100, height: 40 });
    assert_eq!(area, Rect { x: 19, y: 8, width: 62, height: 23 });
}

#[test]
fn names_are_shortened() {
    assert_eq!(truncate_middle("src/webview/tree.rs", 10), "src…ree.rs");
    assert_eq!(truncate_middle("abcdef", 3), "def");
    assert_eq!(truncate_middle("abcdef", 6), "abcdef");
    assert_eq!(truncate_middle("abcdef", 0), "");
    assert_eq!(marquee("abc", 5, 3), "abc");
    assert_eq!(marquee("abcdef", 4, 8), "abcd");
    assert_eq!(marquee("abcdef", 4, 10), "cdef");
    assert_eq!(marquee("abcdef", 4, 12), "ef  ");
    assert_eq!(marker_style(ChangeKind::Renamed), ('R', Ink::Cyan));
    // 'z' * 31 * 31 + 'i' * 31 + 'g' is a multiple of the palette's length.
    assert_eq!(chip_color("zig"), Ink::Blue);
    assert_eq!(chip_color("zih"), Ink::Yellow);
}

#[test]
fn styled_ranges_keep_their_text() {
    let line = raw_line("hello world");
    let lit = restyle_range(&line, 2, 7, Highlight::Hit);
    assert_eq!(text(&lit), "hello world");
    assert_eq!(lit.spans.len(), 3);
    assert_eq!(lit.spans[1].content, "llo w");
    assert_eq!(lit.spans[1].style, Style::default().bg(Ink::Yellow).fg(Ink::Black));
    assert_eq!(lit.spans[0].style, Style::default());
    assert_eq!(line_len(&lit), 11);
    assert_eq!(UNDERLINED, 8);
    assert_eq!(selection_span(((1, 2), (3, 4)), 0, 9), None);
    assert_eq!(selection_span(((1, 2), (3, 4)), 1, 9), Some((2, 9)));
    assert_eq!(selection_span(((1, 2), (3, 4)), 3, 2), Some((0, 2)));
}

// --- pacing --------------------------------------------------------------------------------------

#[test]
fn the_loop_draws_builds_and_waits() {
    let mut app = App::new(Config::default(), scan(changes()));
    let mut pacing = Pacing::new(0);
    assert_eq!(pacing.next(&app), Step::Draw);
    pacing.drawn();
    assert_eq!(pacing.next(&app), Step::Build);
    app.pointer.dragging_divider = true;
    assert_eq!(pacing.next(&app), Step::Wait(100));
    app.pointer.dragging_divider = false;
    build(&mut app);
    pacing.redraw(true);
    assert_eq!(pacing.next(&app), Step::Draw);
    pacing.drawn();
    app.pointer.selecting = true;
    app.pointer.sel_autoscroll = 1;
    assert_eq!(pacing.next(&app), Step::Wait(30));
}

#[test]
fn the_behind_count_is_asked_for_one_at_a_time() {
    let mut app = opened();
    let mut pacing = Pacing::new(0);
    pacing.drawn();
    let minute = 60_000_000_000;
    assert!(pacing.ask_behind(&mut app, 5));
    assert!(!app.cues.behind_dirty);
    app.cues.behind_dirty = true;
    assert!(!pacing.ask_behind(&mut app, 6));
    pacing.behind_answered(&mut app, Some(2));
    assert_eq!(app.cues.behind, Some(2));
    assert!(pacing.dirty);
    pacing.drawn();
    assert!(pacing.ask_behind(&mut app, 7));
    pacing.behind_answered(&mut app, Some(2));
    assert!(!pacing.dirty);
    assert!(!pacing.ask_behind(&mut app, 7 + minute));
    assert!(pacing.ask_behind(&mut app, 8 + minute));
}

#[test]
fn a_round_ends_with_what_is_due() {
    let mut app = opened();
    let mut pacing = Pacing::new(0);
    pacing.drawn();
    assert!(!pacing.end_round(&mut app));
    assert!(!pacing.dirty);
    app.marquee.active_path_overflow = true;
    assert!(!pacing.end_round(&mut app));
    assert!(pacing.dirty);
    pacing.drawn();
    app.set_status("x".to_string());
    app.set_clock(4_000_000_000);
    app.control.should_quit = true;
    assert!(pacing.end_round(&mut app));
    assert!(pacing.dirty);
    assert_eq!(app.note.status, "");
}

#[test]
fn the_types_offered_are_those_of_the_files_that_pass() {
    let mut app = opened();
    typed(&mut app, "/file:src");
    assert_eq!(app.list.file_types, ["rs"]);
    app.toggle_file_type("rs".to_string());
    assert_eq!(app.list.file_types, ["rs"]);
    let mut other = opened();
    other.toggle_file_type("md".to_string());
    assert_eq!(other.list.file_types, opened().list.file_types);
}

#[test]
fn a_section_past_the_offsets_is_shown_as_far_down_as_they_reach() {
    let made = |rows: usize| {
        vec![
            Production {
                raw: Ok("x\n".repeat(rows).into_bytes()),
                run: DeltaRun::Missing,
            },
            Production {
                raw: Ok("y\n".repeat(40).into_bytes()),
                run: DeltaRun::Missing,
            },
        ]
    };
    let files = |mtime: i128| {
        scan(vec![
            file("src/a.rs", ChangeKind::Modified, mtime),
            file("src/b.rs", ChangeKind::Modified, 20),
        ])
    };
    let mut app = App::new(Config::default(), files(30));
    app.pane.diff_width = 30;
    app.pane.diff_viewport_height = 5;
    app.ensure_combined(&made(65500));
    assert_eq!(app.pane.offsets, [0, 65500]);
    app.scroll_end();
    assert_eq!(app.pane.diff_scroll, 65535);
    app.scroll_up(10);
    assert_eq!(app.pane.diff_scroll, 65525);

    // The same place of the second file now lies past every offset.
    app.on_fs_change(files(31));
    app.ensure_combined(&made(66000));
    assert_eq!(app.pane.offsets, [0, 66000]);
    assert_eq!(app.pane.diff_scroll, 65535);
}

#[test]
fn tabs_for_a_run_are_used_and_not_persisted() {
    let mut config = Config::load("tab_width=2");
    config.take_flags(None, Some(8));
    let mut app = App::new(config, scan(changes()));
    assert_eq!(app.source.tab_width, 8);
    assert_eq!(app.config().tab_width, 2);
    press(&mut app, KeyCode::Char('s'));
    assert!(app.queue.save_pending);
    app.on_fs_change(scan(changes()));
    assert_eq!(app.source.tab_width, 8);
    assert!(app.config().save().contains("tab_width=2\n"));
    let plain = App::new(Config::load("tab_width=3"), scan(changes()));
    assert_eq!((plain.source.tab_width, plain.config().tab_width), (3, 3));
}

#[test]
fn the_base_of_a_scan_is_known_before_it_is_taken_over() {
    let found = |branch: Option<(&str, &str)>, has_head| Scan {
        has_head,
        branch: branch.map(|(name, base)| (name.to_string(), base.to_string())),
        files: Ok(changes()),
    };
    for mode in ["working", "base"] {
        for (branch, has_head, base) in [
            (Some(("origin/main", "abc")), true, if mode == "base" { "abc" } else { "HEAD" }),
            (None, true, "HEAD"),
            (None, false, EMPTY_TREE),
        ] {
            let config = Config::load(&format!("diff_mode={mode}"));
            let mut app = App::new(config, found(Some(("m", "old")), true));
            assert_eq!(app.base_after(&found(branch, has_head)), base);
            app.refresh(found(branch, has_head));
            assert_eq!(app.source.base, base);
        }
    }
}
