//! What is drawn.

use diffski::geometry::rail_y;
use diffski::labels::{
    chip_color, history_header_widths, maybe_underline, split_diff_header_width, truncate_end,
    window_position,
};
use diffski::rich::{Ink, Style, UNDERLINED};

#[test]
fn history_header_widths_gives_path_priority_then_hash_then_subject() {
    // Wide: everything fits. total=80, path=10, hash=7, suffix=14.
    let (path, hash, subject) = history_header_widths(80, 10, 7, 14, false);
    assert_eq!(path, 10);
    assert!(hash);
    // 80 - 3 (marker) - 14 (suffix) - 10 (path) - 10 (" · " + hash) - 1 = 42
    assert_eq!(subject, 42);
}

#[test]
fn history_header_widths_drops_the_hash_before_the_subject_when_tight() {
    // Just enough for the path and a sliver of subject — hash must go.
    let (path, hash, subject) = history_header_widths(40, 20, 7, 14, false);
    assert_eq!(path, 20);
    assert!(!hash, "hash is dropped first under width pressure");
    assert_eq!(subject, 2); // 40 - 3 - 14 - 20 - 1
}

#[test]
fn history_header_widths_truncates_the_path_last_and_never_underflows() {
    let (path, hash, subject) = history_header_widths(20, 60, 7, 14, true);
    // fixed = 3 + 14 + 12 (pill) = 29 > 20 → nothing left; must not panic.
    assert_eq!((path, hash, subject), (0, false, 0));
}

#[test]
fn truncate_end_appends_an_ellipsis_only_when_cutting() {
    assert_eq!(truncate_end("short", 10), "short");
    assert_eq!(truncate_end("exactly-10", 10), "exactly-10");
    assert_eq!(truncate_end("much too long", 8), "much to…");
    assert_eq!(truncate_end("anything", 0), "");
}

#[test]
fn rail_y_maps_ends_and_stays_monotonic() {
    assert_eq!(rail_y(0, 100, 10), 0);
    assert_eq!(rail_y(99, 100, 10), 9);
    let mut last = 0;
    for row in 0..100 {
        let y = rail_y(row, 100, 10);
        assert!(y >= last && y <= 9);
        last = y;
    }
}

#[test]
fn rail_y_degenerate_inputs() {
    assert_eq!(rail_y(0, 1, 10), 0);
    assert_eq!(rail_y(5, 1, 10), 0); // row clamped to total
    assert_eq!(rail_y(50, 100, 1), 0); // one-cell rail
    assert_eq!(rail_y(7, 0, 10), 0); // empty content
}

#[test]
fn split_diff_header_width_gives_base_label_full_room_when_wide() {
    // Plenty of space: base label shown in full, path gets the rest.
    let (path_avail, base_avail) = split_diff_header_width(100, 4); // "main"
    assert_eq!(base_avail, 4); // untruncated
    assert_eq!(path_avail, 100 - (3 + 4)); // total - (gap + base label)
}

#[test]
fn split_diff_header_width_truncates_base_label_before_shrinking_path_below_floor() {
    // Long base label, moderate width: path holds its floor (12), base
    // label truncates to fill the rest.
    let (path_avail, base_avail) = split_diff_header_width(30, 20);
    assert_eq!(path_avail, 12);
    assert_eq!(base_avail, 15); // 30 - (12 + 3)
}

#[test]
fn split_diff_header_width_degenerates_gracefully_when_extremely_narrow() {
    // Not even room for the gap + a shrunk base label: base label is
    // fully hidden (avail 0), path takes whatever's left up to its floor.
    let (path_avail, base_avail) = split_diff_header_width(10, 20);
    assert_eq!(path_avail, 10); // floor (12) clamped to total (10)
    assert_eq!(base_avail, 0); // 10 - 15 saturates to 0
}

#[test]
fn window_position_counts_within_the_window_and_matches_the_old_format_for_full_range() {
    // Follow off: the window is the whole diff.
    assert_eq!(window_position(12, (0, 96)), " [12/96]");
    // Focus: line 17 of a file spanning 10..25 renders as 7 of 15.
    assert_eq!(window_position(17, (10, 25)), " [7/15]");
    // A stale scroll above the window floors at 0 rather than wrapping.
    assert_eq!(window_position(3, (10, 25)), " [0/15]");
}

#[test]
fn maybe_underline_adds_the_modifier_only_when_hovered() {
    let base = Style::default().fg(Ink::Green);
    assert_eq!(maybe_underline(base, false), base);
    assert_eq!(
        maybe_underline(base, true),
        base.add_modifier(UNDERLINED)
    );
}

#[test]
fn chip_color_curated_extensions_are_fixed() {
    assert_eq!(chip_color("ts"), Ink::Blue);
    assert_eq!(chip_color("tsx"), Ink::Blue);
    assert_eq!(chip_color("rs"), Ink::Red);
    assert_eq!(chip_color("md"), Ink::Gray);
}

#[test]
fn chip_color_uncovered_extension_is_deterministic_and_in_palette() {
    let palette = [
        Ink::Blue,
        Ink::Yellow,
        Ink::Green,
        Ink::Red,
        Ink::Cyan,
        Ink::Magenta,
    ];
    let c1 = chip_color("zig");
    let c2 = chip_color("zig");
    assert_eq!(c1, c2); // same input -> same output
    assert!(palette.contains(&c1));
}
