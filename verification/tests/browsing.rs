//! Browsing the changes: scrolling, focus, histories, the mouse.

use diffski::app::App;
use diffski::commits::{file_history, HistoryEntry};
use diffski::config::Config;
use diffski::delta::{DeltaRun, Output, Production};
use diffski::geometry::{
    chip_at_col, history_max_scroll, row_to_filtered_index, sort_indicator_part, Rect, SortIndicatorPart,
};
use diffski::git::{ChangeKind, FileEntry};
use diffski::input::{KeyCode, KeyEvent};
use diffski::listing::Scan;
use diffski::mouse::{MouseButton, MouseEvent, MouseEventKind};
use diffski::rich::{raw_line, Text};
use diffski::sort::{file_extension, sort_entries, SortField};
use diffski::state::{AppMatch, Selection};
use diffski::table::NameSet;

fn entry(path: &str, added: Option<u32>, removed: Option<u32>) -> FileEntry {
    FileEntry {
        path: path.to_string(),
        kind: ChangeKind::Modified,
        mtime: 0,
        added,
        removed,
    }
}

fn scan(files: Vec<FileEntry>) -> Scan {
    Scan {
        has_head: true,
        branch: None,
        files: Ok(files),
    }
}

/// Three files occupying combined-diff lines 0-9, 10-24, 25-29, with a
/// viewport of 8 lines. Fields are set directly.
fn focus_app() -> App {
    let mut app = App::new(Config::default(), scan(vec![]));
    app.pane.combined = Text {
        lines: (0..30).map(|i| raw_line(&format!("line {i}"))).collect(),
    };
    app.pane.offsets = vec![0, 10, 25];
    app.list.files = vec![
        entry("a.rs", Some(1), Some(0)),
        entry("b.rs", Some(1), Some(0)),
        entry("c.rs", Some(1), Some(0)),
    ];
    app.list.filtered = vec![0, 1, 2];
    app.pane.diff_viewport_height = 8;
    app
}

#[test]
fn view_window_is_the_full_diff_when_follow_is_off_and_the_file_section_when_on() {
    let mut app = focus_app();
    assert_eq!(app.view_window(), (0, 30));
    app.control.follow = true;
    app.list.selected = 0;
    assert_eq!(app.view_window(), (0, 10));
    app.list.selected = 1;
    assert_eq!(app.view_window(), (10, 25));
    // Last file's window ends at the diff's end, not at a phantom offset.
    app.list.selected = 2;
    assert_eq!(app.view_window(), (25, 30));
}

#[test]
fn focus_scrolling_clamps_to_the_selected_files_section() {
    let mut app = focus_app();
    app.control.follow = true;
    app.list.selected = 1;
    app.scroll_home();
    assert_eq!(app.pane.diff_scroll, 10);
    // Window is 15 lines, viewport 8: the last scroll that keeps the
    // pane inside the file is 10 + (15 - 8) = 17.
    app.scroll_end();
    assert_eq!(app.pane.diff_scroll, 17);
    app.scroll_down(100); // clamped, never bleeds into c.rs
    assert_eq!(app.pane.diff_scroll, 17);
    app.scroll_up(100); // clamped at the file's first line
    assert_eq!(app.pane.diff_scroll, 10);
    // A page never crosses the file edge either.
    app.scroll_down(app.page());
    assert_eq!(app.pane.diff_scroll, 17);
}

#[test]
fn focus_window_shorter_than_the_viewport_pins_to_the_file_start() {
    let mut app = focus_app();
    app.control.follow = true;
    app.list.selected = 2; // 5 lines < 8-line viewport
    app.scroll_end();
    assert_eq!(app.pane.diff_scroll, 25);
    app.scroll_home();
    assert_eq!(app.pane.diff_scroll, 25);
}

#[test]
fn snapping_into_focus_jumps_to_the_file_start_only_when_outside_its_section() {
    let mut app = focus_app();
    app.list.selected = 1;
    // Outside the section (viewing a.rs): snap to b.rs's start.
    app.pane.diff_scroll = 3;
    app.control.follow = true;
    app.snap_into_focus();
    assert_eq!(app.pane.diff_scroll, 10);
    // Already inside: keep the position (just clamped).
    app.pane.diff_scroll = 12;
    app.snap_into_focus();
    assert_eq!(app.pane.diff_scroll, 12);
}

#[test]
fn update_selected_from_scroll_is_inert_in_focus_mode() {
    let mut app = focus_app();
    app.control.follow = true;
    app.list.selected = 1;
    // A stale scroll must not re-derive the selection: the window is
    // derived FROM the selection, so the reverse mapping is circular.
    app.pane.diff_scroll = 0;
    app.update_selected_from_scroll();
    assert_eq!(app.list.selected, 1);
    // Follow off: same scroll re-derives selection as before.
    app.control.follow = false;
    app.update_selected_from_scroll();
    assert_eq!(app.list.selected, 0);
}

#[test]
fn centering_a_match_in_another_file_reaims_the_focus_window() {
    let mut app = focus_app();
    app.control.follow = true;
    app.list.selected = 0;
    app.find.matches = vec![AppMatch {
        row: 27,
        cols: (0, 1),
        file_pos: 2,
        aligned: true,
    }];
    app.find.current_match = 0;
    app.next_match(0); // dir 0: recenter on the current match
    assert_eq!(app.list.selected, 2, "focus follows the match's file");
    // Scroll landed inside c.rs's window (25..30), clamped to its start
    // since the 5-line window is shorter than the viewport.
    assert_eq!(app.pane.diff_scroll, 25);
}

#[test]
fn file_extension_handles_common_cases() {
    assert_eq!(file_extension("src/app.rs"), Some("rs".to_string()));
    assert_eq!(file_extension("README.MD"), Some("md".to_string())); // lowercased
    assert_eq!(file_extension("app.test.ts"), Some("ts".to_string())); // last segment
    assert_eq!(file_extension(".gitignore"), None); // dotfile, no further suffix
    assert_eq!(file_extension("Makefile"), None); // no extension at all
    assert_eq!(file_extension("src/no_ext"), None);
}

#[test]
fn sort_field_config_keys_round_trip() {
    for field in [SortField::Tree, SortField::Modified, SortField::Size] {
        assert_eq!(SortField::from_key(field.as_key()), Some(field));
    }
    assert_eq!(SortField::from_key("size"), Some(SortField::Size));
    assert_eq!(SortField::from_key("bogus"), None);
}

#[test]
fn size_sort_is_ascending_by_total_lines_with_path_tiebreak() {
    let mut files = vec![
        entry("big.rs", Some(90), Some(30)),
        entry("b_mid.rs", Some(5), Some(5)),
        entry("a_mid.rs", Some(10), Some(0)),
        entry("small.rs", Some(1), Some(0)),
    ];
    sort_entries(&mut files, SortField::Size);
    let order: Vec<&str> = files.iter().map(|f| f.path.as_str()).collect();
    // 1 < 10 == 10 (tie → path order) < 120
    assert_eq!(order, ["small.rs", "a_mid.rs", "b_mid.rs", "big.rs"]);
}

#[test]
fn size_sort_treats_missing_stats_as_zero() {
    let mut files = vec![
        entry("changed.rs", Some(3), Some(1)),
        entry("binary.bin", None, None),
    ];
    sort_entries(&mut files, SortField::Size);
    let order: Vec<&str> = files.iter().map(|f| f.path.as_str()).collect();
    assert_eq!(order, ["binary.bin", "changed.rs"]);
}

#[test]
fn chip_at_col_fixed_width_no_gap() {
    let widths = [3u16; 5];
    assert_eq!(chip_at_col(0, &widths, 0), None); // margin
    assert_eq!(chip_at_col(1, &widths, 0), Some(0));
    assert_eq!(chip_at_col(3, &widths, 0), Some(0));
    assert_eq!(chip_at_col(4, &widths, 0), Some(1));
    assert_eq!(chip_at_col(15, &widths, 0), Some(4));
    assert_eq!(chip_at_col(16, &widths, 0), None); // past the last chip
}

#[test]
fn chip_at_col_variable_width_with_gap() {
    let widths = [5u16, 6u16]; // "[.ts]" then "[.tsx]"
    assert_eq!(chip_at_col(0, &widths, 1), None); // margin
    assert_eq!(chip_at_col(1, &widths, 1), Some(0));
    assert_eq!(chip_at_col(5, &widths, 1), Some(0)); // last col of chip 0
    assert_eq!(chip_at_col(6, &widths, 1), None); // inside the gap
    assert_eq!(chip_at_col(7, &widths, 1), Some(1)); // first col of chip 1
    assert_eq!(chip_at_col(12, &widths, 1), Some(1)); // last col of chip 1
    assert_eq!(chip_at_col(13, &widths, 1), None); // past the last chip
}

#[test]
fn chip_at_col_no_chips() {
    assert_eq!(chip_at_col(1, &[], 0), None);
}

#[test]
fn row_to_filtered_index_below_top_is_none() {
    assert_eq!(row_to_filtered_index(2, 3, 0, 10), None);
}

#[test]
fn row_to_filtered_index_applies_scroll_offset() {
    // top=3, offset=5: row 3 is the 0th visible row, which is index 5.
    assert_eq!(row_to_filtered_index(3, 3, 5, 10), Some(5));
    assert_eq!(row_to_filtered_index(5, 3, 5, 10), Some(7));
}

#[test]
fn row_to_filtered_index_past_the_last_entry_is_none() {
    // top=3, offset=0, filtered_len=10: row 12 maps to index 9 (last valid).
    assert_eq!(row_to_filtered_index(12, 3, 0, 10), Some(9));
    assert_eq!(row_to_filtered_index(13, 3, 0, 10), None);
}

#[test]
fn sort_indicator_part_splits_label_gap_and_arrow() {
    // Row spans [10, 20); label_w=4 -> total width 6, flush region [14, 20).
    assert_eq!(sort_indicator_part(13, 10, 10, 4), None); // just left of the region
    assert_eq!(
        sort_indicator_part(14, 10, 10, 4),
        Some(SortIndicatorPart::Label)
    ); // first label column
    assert_eq!(
        sort_indicator_part(17, 10, 10, 4),
        Some(SortIndicatorPart::Label)
    ); // last label column
    assert_eq!(sort_indicator_part(18, 10, 10, 4), None); // the gap space
    assert_eq!(
        sort_indicator_part(19, 10, 10, 4),
        Some(SortIndicatorPart::Arrow)
    );
    assert_eq!(sort_indicator_part(20, 10, 10, 4), None); // past the row entirely
}

#[test]
fn sort_indicator_part_zero_label_width_is_just_the_arrow() {
    // label_w=0 -> total width 2 (gap + arrow only), flush region [18, 20).
    assert_eq!(sort_indicator_part(17, 10, 10, 0), None);
    assert_eq!(sort_indicator_part(18, 10, 10, 0), None); // the gap space
    assert_eq!(
        sort_indicator_part(19, 10, 10, 0),
        Some(SortIndicatorPart::Arrow)
    );
}

// --- histories ---------------------------------------------------------------

/// What `git log` prints for a file with two commits.
const LOG: &str = "\u{1}bbbb\u{1f}bb\u{1f}grow a\n\na.txt\n\n\u{1}aaaa\u{1f}aa\u{1f}add a\n\na.txt\n";

/// What `git diff` prints for the newer of them.
const GROW: &str = "diff --git a/a.txt b/a.txt\nindex 5626abf..814f4a4 100644\n--- a/a.txt\n+++ b/a.txt\n@@ -1 +1,2 @@\n one\n+two\n";

/// What `git diff` prints for the older of them.
const ADD: &str = "diff --git a/a.txt b/a.txt\nnew file mode 100644\nindex 0000000..5626abf\n--- /dev/null\n+++ b/a.txt\n@@ -0,0 +1 @@\n+one\n";

/// The working changeset holds exactly a.txt, which has two commits.
fn history_app() -> App {
    let mut app = App::new(Config::default(), scan(vec![]));
    app.refresh(scan(vec![entry("a.txt", Some(1), Some(0))]));
    assert_eq!(
        app.list.filtered.len(),
        1,
        "changeset is exactly the edited file"
    );
    app
}

fn ran(stdout: &str) -> Output {
    Output {
        success: true,
        stdout: stdout.as_bytes().to_vec(),
        stderr: Vec::new(),
    }
}

fn commits_of_a() -> Vec<HistoryEntry> {
    file_history(&ran(LOG), "a.txt", &NameSet::new()).unwrap()
}

/// Answers what the application asks for, as the program around it does.
fn serve(app: &mut App) {
    if app.queue.history_request.is_some() {
        app.open_history(Ok(commits_of_a()));
    }
    if let Some((hash, path)) = app.history_wanted() {
        assert_eq!(path, "a.txt");
        let diff = if hash == "bbbb" { GROW } else { ADD };
        app.history_rendered(&Production {
            raw: Ok(diff.as_bytes().to_vec()),
            run: DeltaRun::Missing,
        });
    }
}

fn press(app: &mut App, code: KeyCode) {
    app.handle_key(KeyEvent::plain(code));
    serve(app);
}

#[test]
fn left_enters_history_steps_older_and_clamps_at_the_oldest_commit() {
    let mut app = history_app();
    press(&mut app, KeyCode::Left);
    let h = app.history.as_ref().expect("history entered");
    assert_eq!((h.pos, h.entries.len()), (0, 2));
    assert_eq!(h.entries[0].subject, "grow a"); // newest first
    assert!(!h.text.lines.is_empty(), "entry rendered on entry");

    press(&mut app, KeyCode::Left);
    assert_eq!(app.history.as_ref().unwrap().pos, 1);
    press(&mut app, KeyCode::Left); // already at the oldest: no-op
    assert_eq!(app.history.as_ref().unwrap().pos, 1);
}

#[test]
fn right_steps_newer_and_returns_to_live_from_the_newest_commit() {
    let mut app = history_app();
    press(&mut app, KeyCode::Left);
    press(&mut app, KeyCode::Left);
    press(&mut app, KeyCode::Right);
    assert_eq!(app.history.as_ref().unwrap().pos, 0);
    press(&mut app, KeyCode::Right); // newest → back to live
    assert!(app.history.is_none());
    press(&mut app, KeyCode::Right); // already live: no-op, not a crash
    assert!(app.history.is_none());
}

#[test]
fn esc_exits_history_first_and_only_quits_from_live() {
    let mut app = history_app();
    press(&mut app, KeyCode::Left);
    press(&mut app, KeyCode::Esc);
    assert!(app.history.is_none());
    assert!(!app.control.should_quit, "Esc in history must not quit");
    press(&mut app, KeyCode::Esc);
    assert!(app.control.should_quit);
}

#[test]
fn untracked_files_report_no_history_instead_of_entering() {
    let mut app = App::new(Config::default(), scan(vec![]));
    let mut fresh = entry("fresh.txt", Some(1), Some(0));
    fresh.kind = ChangeKind::Untracked;
    app.refresh(scan(vec![fresh]));
    assert_eq!(app.list.filtered.len(), 1);

    press(&mut app, KeyCode::Left);
    assert!(app.history.is_none());
    assert_eq!(app.note.status, "no commit history for this file");
}

#[test]
fn changing_the_selection_exits_history() {
    let mut app = history_app();
    // Add a second changed file so j/k can move the selection.
    let mut other = entry("z.txt", Some(1), Some(0));
    other.kind = ChangeKind::Untracked;
    app.refresh(scan(vec![entry("a.txt", Some(1), Some(0)), other]));
    assert_eq!(app.list.filtered.len(), 2);
    // Select the tracked file explicitly — sort order isn't guaranteed to
    // put it first, and history can only be entered on a committed file.
    let a_idx = app
        .list
        .filtered
        .iter()
        .position(|&i| app.list.files[i].path == "a.txt")
        .unwrap();
    app.list.selected = a_idx;
    press(&mut app, KeyCode::Left);
    assert!(app.history.is_some());
    // Step toward the other file, whichever side it's on.
    press(
        &mut app,
        if a_idx == 0 {
            KeyCode::Down
        } else {
            KeyCode::Up
        },
    );
    assert!(app.history.is_none(), "j/k selection change resets to live");
}

fn mouse(kind: MouseEventKind, col: u16, row: u16) -> MouseEvent {
    MouseEvent {
        kind,
        column: col,
        row,
    }
}

#[test]
fn drag_selection_autoscroll_advances_the_history_scroll_not_the_live_diff() {
    let mut app = history_app();
    press(&mut app, KeyCode::Left);
    assert!(app.history.is_some(), "history entered before dragging");
    // Shrink the viewport well below the rendered commit diff's line count
    // so a single autoscroll tick is guaranteed to move `scroll`, without
    // needing an oversized fixture commit.
    app.pane.diff_viewport_height = 1;
    app.screen.area_right = Rect {
        x: 0,
        y: 0,
        width: 40,
        height: 5,
    };

    app.handle_mouse(mouse(MouseEventKind::Down(MouseButton::Left), 5, 2));
    assert!(app.pointer.selecting, "drag started inside the pane");

    // The last row of the content is area_right.y + height - 1 = 4; row 6 is past
    // it, so this drag both sets sel_autoscroll and fires the first tick itself.
    app.handle_mouse(mouse(MouseEventKind::Drag(MouseButton::Left), 5, 6));
    let after_drag = app.history.as_ref().unwrap().scroll;
    assert!(
        after_drag > 0,
        "autoscroll must move the history view's own scroll, not diff_scroll"
    );
    assert_eq!(
        app.pane.diff_scroll, 0,
        "the live diff's scroll must stay untouched while history is active"
    );

    // A second, explicit tick (standing in for the event loop's timer-driven
    // repeat) must also land on history, not silently fall through to live.
    app.selection_autoscroll_tick();
    let h = app.history.as_ref().unwrap();
    assert!(
        h.scroll > after_drag,
        "a further autoscroll tick keeps advancing the history scroll"
    );
    assert_eq!(app.pane.diff_scroll, 0);

    // The selection cursor must clamp against the history text, not the
    // (much shorter, unrelated) live combined diff.
    let cursor_line = app.pointer.selection.unwrap().cursor.0;
    assert!(cursor_line < h.text.lines.len());
}

#[test]
fn mouse_driven_sort_and_filter_reshapes_exit_history() {
    let mut app = history_app();

    // Sort-field cycling reshapes the file list (and combined diff order),
    // so it must drop out of history exactly like the `s` keyboard arm.
    press(&mut app, KeyCode::Left);
    assert!(app.history.is_some());
    app.cycle_sort_field();
    assert!(
        app.history.is_none(),
        "cycle_sort_field must exit history itself, not rely on the caller"
    );

    // Sort-direction toggling is the same story as `r`.
    press(&mut app, KeyCode::Left);
    assert!(app.history.is_some());
    app.toggle_sort_dir();
    assert!(app.history.is_none());

    // Kind filtering changes which files are even visible.
    press(&mut app, KeyCode::Left);
    assert!(app.history.is_some());
    app.toggle_kind(ChangeKind::Modified);
    assert!(app.history.is_none());

    // File-type filtering (click-only, no keyboard equivalent) reshapes
    // the list the same way — use the fixture's own "txt" extension.
    app.toggle_kind(ChangeKind::Modified); // undo the filter above first
    press(&mut app, KeyCode::Left);
    assert!(app.history.is_some());
    app.toggle_file_type("txt".to_string());
    assert!(app.history.is_none());
}

#[test]
fn entering_history_clears_any_live_text_selection() {
    let mut app = history_app();
    app.pointer.selection = Some(Selection {
        anchor: (0, 0),
        cursor: (0, 3),
    });
    press(&mut app, KeyCode::Left);
    assert!(app.history.is_some(), "history entered");
    assert!(
        app.pointer.selection.is_none(),
        "a leftover live selection must not paint over the historical diff"
    );
}

// --- the edges of the scroll range ---------------------------------------------------

/// One file whose section is `n` lines long, with a viewport of 20 lines.
fn long_app(n: usize) -> App {
    let mut app = App::new(Config::default(), scan(vec![]));
    app.pane.combined = Text {
        lines: (0..n).map(|_| raw_line("x")).collect(),
    };
    app.pane.offsets = vec![0];
    app.list.files = vec![entry("a.rs", Some(1), Some(0))];
    app.list.filtered = vec![0];
    app.pane.diff_viewport_height = 20;
    app
}

#[test]
fn long_diffs_scroll_as_far_as_the_offsets_reach() {
    assert_eq!(history_max_scroll(65540, 20), 65520);
    assert_eq!(history_max_scroll(65536 + 20, 20), 65535);
    assert_eq!(history_max_scroll(100_000, 20), 65535);
    assert_eq!(history_max_scroll(10, 20), 0);

    for follow in [false, true] {
        let mut app = long_app(65540);
        app.control.follow = follow;
        app.scroll_end();
        assert_eq!(app.pane.diff_scroll, 65520);
        app.scroll_down(100);
        assert_eq!(app.pane.diff_scroll, 65520);
        app.scroll_home();
        assert_eq!(app.pane.diff_scroll, 0);
        app.scroll_down(30_000);
        assert_eq!(app.pane.diff_scroll, 30_000);
    }
    let mut app = long_app(100_000);
    app.scroll_end();
    assert_eq!(app.pane.diff_scroll, 65535);
    press(&mut app, KeyCode::PageDown);
    assert_eq!(app.pane.diff_scroll, 65535);
}

#[test]
fn long_histories_scroll_to_their_last_line() {
    let mut app = history_app();
    press(&mut app, KeyCode::Left);
    app.pane.diff_viewport_height = 20;
    app.history.as_mut().unwrap().text = Text {
        lines: (0..65540).map(|_| raw_line("x")).collect(),
    };
    press(&mut app, KeyCode::End);
    assert_eq!(app.history.as_ref().unwrap().scroll, 65520);
    press(&mut app, KeyCode::PageDown);
    assert_eq!(app.history.as_ref().unwrap().scroll, 65520);
    press(&mut app, KeyCode::Home);
    assert_eq!(app.history.as_ref().unwrap().scroll, 0);
}

#[test]
fn dragging_onto_the_last_row_of_the_content_scrolls_nothing() {
    let mut app = focus_app();
    app.screen.area_right = Rect {
        x: 0,
        y: 2,
        width: 40,
        height: 9,
    };
    app.handle_mouse(mouse(MouseEventKind::Down(MouseButton::Left), 5, 4));
    assert!(app.pointer.selecting);
    // The content lies on rows 3 to 10.
    for (row, line) in [(10, 7), (3, 0)] {
        app.handle_mouse(mouse(MouseEventKind::Drag(MouseButton::Left), 6, row));
        assert_eq!(app.pointer.sel_autoscroll, 0);
        assert_eq!(app.pane.diff_scroll, 0);
        assert_eq!(app.pointer.selection.unwrap().cursor, (line, 6));
        assert!(!app.selection_autoscroll_tick());
    }
    app.handle_mouse(mouse(MouseEventKind::Drag(MouseButton::Left), 6, 11));
    assert_eq!(app.pointer.sel_autoscroll, 1);
    assert_eq!(app.pane.diff_scroll, 3);
    app.handle_mouse(mouse(MouseEventKind::Drag(MouseButton::Left), 6, 2));
    assert_eq!(app.pointer.sel_autoscroll, -1);
    assert_eq!(app.pane.diff_scroll, 0);
}
