//! Searching inside the changes.

use diffski::search::{
    body_lines, count_matches, find_matches, locate_matches, split_query, strip_ansi, BodyLine, LineKind,
    Located, Scope,
};

const DIFF: &str = "\
diff --git a/f.rs b/f.rs
index 0000000..1111111 100644
--- a/f.rs
+++ b/f.rs
@@ -1,3 +1,3 @@ fn top()
 context value
-old value
+new value
\\ No newline at end of file
";

#[test]
fn strip_ansi_removes_sgr_sequences() {
    assert_eq!(strip_ansi("\u{1b}[32m+foo\u{1b}[0m"), "+foo");
    assert_eq!(strip_ansi("\u{1b}[1;38;2;10;20;30mX\u{1b}[m"), "X");
    assert_eq!(strip_ansi("plain"), "plain");
}

#[test]
fn body_lines_classifies_and_skips_headers() {
    let body = body_lines(DIFF);
    assert_eq!(
        body,
        vec![
            BodyLine {
                text: "context value".into(),
                kind: LineKind::Context
            },
            BodyLine {
                text: "old value".into(),
                kind: LineKind::Del
            },
            BodyLine {
                text: "new value".into(),
                kind: LineKind::Add
            },
        ]
    );
}

#[test]
fn body_lines_handles_deleted_line_starting_with_dashes() {
    // Inside a hunk, "--x" is a deletion of "-x", not a file header.
    let diff = "--- a/f\n+++ b/f\n@@ -1 +1 @@\n--x\n+y\n";
    let body = body_lines(diff);
    assert_eq!(
        body[0],
        BodyLine {
            text: "-x".into(),
            kind: LineKind::Del
        }
    );
    assert_eq!(
        body[1],
        BodyLine {
            text: "y".into(),
            kind: LineKind::Add
        }
    );
}

#[test]
fn smartcase_matching() {
    // all-lowercase needle: case-insensitive
    assert_eq!(
        find_matches("Old VALUE and value", "value"),
        vec![(4, 9), (14, 19)]
    );
    // uppercase in needle: exact
    assert_eq!(find_matches("Old VALUE and value", "VALUE"), vec![(4, 9)]);
    assert!(find_matches("abc", "").is_empty());
    assert!(find_matches("ab", "abc").is_empty());
}

#[test]
fn find_matches_returns_char_offsets() {
    // "héllo " is 6 chars; byte offsets would differ.
    assert_eq!(find_matches("héllo world", "world"), vec![(6, 11)]);
}

#[test]
fn count_matches_respects_scope() {
    assert_eq!(count_matches(DIFF, "value", Scope::Both), 2); // del + add, not context
    assert_eq!(count_matches(DIFF, "value", Scope::Add), 1);
    assert_eq!(count_matches(DIFF, "value", Scope::Del), 1);
    assert_eq!(count_matches(DIFF, "context", Scope::Both), 0);
}

#[test]
fn split_query_routes_file_prefix() {
    assert_eq!(
        split_query("needle"),
        (Some("needle".into()), String::new())
    );
    assert_eq!(
        split_query("file:*.rs, !test"),
        (None, "*.rs, !test".into())
    );
    assert_eq!(split_query("FILE:app"), (None, "app".into()));
    assert_eq!(split_query(""), (None, String::new()));
    assert_eq!(split_query("  "), (None, String::new()));
    assert_eq!(split_query("file:"), (None, String::new()));
}

// Delta-like rendered output: header box, hunk decoration, then body
// lines with a "N: " line-number gutter.
fn rendered() -> Vec<String> {
    vec![
        "f.rs".to_string(),
        "────".to_string(),
        "1: context value".to_string(),
        "2: old value".to_string(),
        "2: new value".to_string(),
    ]
}

#[test]
fn locate_finds_rows_and_gutter_offset_columns() {
    let m = locate_matches(DIFF, &rendered(), "value", Scope::Both, 4);
    assert_eq!(m.len(), 2);
    // "3: " gutter = 3 chars; "value" at chars 4..9 of "old value".
    assert_eq!(
        m[0],
        Located {
            line: 3,
            cols: (7, 12),
            kind: LineKind::Del,
            aligned: true
        }
    );
    assert_eq!(
        m[1],
        Located {
            line: 4,
            cols: (7, 12),
            kind: LineKind::Add,
            aligned: true
        }
    );
}

#[test]
fn locate_respects_scope() {
    let m = locate_matches(DIFF, &rendered(), "value", Scope::Add, 4);
    assert_eq!(m.len(), 1);
    assert_eq!(m[0].line, 4);
}

#[test]
fn context_lines_consume_rendered_lines_so_duplicates_align_correctly() {
    // Context "foo" precedes an added "foo": the added line must anchor
    // to the SECOND rendered "foo", proving context lines advance the
    // alignment cursor even though they never match.
    let raw = "--- a/f\n+++ b/f\n@@ -1,2 +1,2 @@\n foo\n+foo\n";
    let rendered = vec!["1: foo".to_string(), "2: foo".to_string()];
    let m = locate_matches(raw, &rendered, "foo", Scope::Add, 4);
    assert_eq!(m.len(), 1);
    assert_eq!(m[0].line, 1);
}

#[test]
fn locate_expands_tabs_like_delta() {
    let raw = "--- a/f\n+++ b/f\n@@ -1 +1 @@\n+\tfoo\n";
    let rendered = vec!["1:     foo".to_string()]; // tab -> 4 spaces
    let m = locate_matches(raw, &rendered, "foo", Scope::Both, 4);
    assert_eq!(
        m[0],
        Located {
            line: 0,
            cols: (7, 10),
            kind: LineKind::Add,
            aligned: true
        }
    );
}

#[test]
fn unalignable_lines_degrade_gracefully() {
    // Rendered output missing the deleted line entirely: the del match is
    // reported unaligned; the add match still aligns.
    let rendered = vec!["1: context value".to_string(), "2: new value".to_string()];
    let m = locate_matches(DIFF, &rendered, "value", Scope::Both, 4);
    assert_eq!(m.len(), 2);
    assert!(!m[0].aligned);
    assert_eq!(
        m[1],
        Located {
            line: 1,
            cols: (7, 12),
            kind: LineKind::Add,
            aligned: true
        }
    );
}

#[test]
fn locate_gutter_offset_is_char_based() {
    let raw = "--- a/f\n+++ b/f\n@@ -1 +1 @@\n+value\n";
    // Multibyte gutter: "→ " is 2 chars but 4 bytes.
    let rendered = vec!["→ value".to_string()];
    let m = locate_matches(raw, &rendered, "value", Scope::Both, 4);
    assert_eq!(m[0].cols, (2, 7));
}

#[test]
fn context_lines_count_nothing() {
    let thin = DIFF.replace(" context value\n", "");
    for needle in ["value", "old", "new", "context"] {
        for scope in [Scope::Both, Scope::Add, Scope::Del] {
            assert_eq!(
                count_matches(&thin, needle, scope),
                count_matches(DIFF, needle, scope)
            );
        }
    }
    assert_eq!(count_matches(&thin, "value", Scope::Both), 2);
    assert_eq!(count_matches(DIFF, "context", Scope::Both), 0);
}

#[test]
fn file_sections_stay_apart() {
    let second = DIFF.replace("f.rs", "g.rs");
    let both = format!("{DIFF}{second}");
    let mut parts = body_lines(DIFF);
    parts.extend(body_lines(&second));
    assert_eq!(body_lines(&both), parts);
    assert_eq!(parts.len(), 6);
    assert!(!parts.iter().any(|b| b.text.contains("g.rs")));
}
