//! Reading git's output, and the cache of rendered diffs.

use diffski::clipboard::base64_encode;
use diffski::commits::{
    branch_commits, commit_diff, commit_diff_args, file_history, parse_file_history,
};
use diffski::delta::{DiffCache, Output};
use diffski::git::EMPTY_TREE;
use diffski::table::NameSet;

fn ran(stdout: &str) -> Output {
    Output {
        success: true,
        stdout: stdout.as_bytes().to_vec(),
        stderr: Vec::new(),
    }
}

#[test]
fn raw_text_round_trip_and_invalidation() {
    let mut cache = DiffCache::new();
    assert_eq!(cache.raw_text("a.rs", 1), None);
    cache.insert_raw("a.rs", 1, "+added".to_string());
    assert_eq!(cache.raw_text("a.rs", 1), Some("+added"));
    assert_eq!(cache.raw_text("a.rs", 2), None); // signature mismatch
    cache.clear(); // theme change: raw text survives
    assert_eq!(cache.raw_text("a.rs", 1), Some("+added"));
    cache.invalidate_path("a.rs"); // file change: raw text dropped
    assert_eq!(cache.raw_text("a.rs", 1), None);
}

#[test]
fn parse_file_history_handles_multiple_records_and_rename_paths() {
    // Two commits; the older one has a different (pre-rename) path and a
    // subject that itself contains the field separator — it must be kept
    // intact.
    let out = "\u{1}aaa\u{1f}a1\u{1f}newest\n\nnew.rs\n\n\u{1}bbb\u{1f}b1\u{1f}has \u{1f} inside\n\nold.rs\n";
    let parsed = parse_file_history(out);
    assert_eq!(
        parsed,
        vec![
            (
                "aaa".to_string(),
                "a1".to_string(),
                "newest".to_string(),
                "new.rs".to_string()
            ),
            (
                "bbb".to_string(),
                "b1".to_string(),
                "has \u{1f} inside".to_string(),
                "old.rs".to_string()
            ),
        ]
    );
}

#[test]
fn parse_file_history_skips_malformed_records_and_empty_output() {
    assert!(parse_file_history("").is_empty());
    // A record with no path line (e.g. history simplification artifacts)
    // is dropped rather than panicking.
    assert!(parse_file_history("\u{1}aaa\u{1f}a1\u{1f}subject\n\n").is_empty());
    // A head line missing the separators is dropped.
    assert!(parse_file_history("\u{1}garbage\n\npath.rs\n").is_empty());
}

/// What `git log --follow` prints for b.txt after "add a", "grow a" and
/// "rename a to b".
const RENAMED: &str = "\u{1}c3\u{1f}c3\u{1f}rename a to b\n\nb.txt\n\n\u{1}c2\u{1f}c2\u{1f}grow a\n\na.txt\n\n\u{1}c1\u{1f}c1\u{1f}add a\n\na.txt\n";

#[test]
fn file_history_follows_renames_and_orders_newest_first() {
    let hist = file_history(&ran(RENAMED), "b.txt", &NameSet::new()).unwrap();
    let subjects: Vec<&str> = hist.iter().map(|h| h.subject.as_str()).collect();
    assert_eq!(subjects, ["rename a to b", "grow a", "add a"]);
    // Pre-rename commits must report the file's old name, so their diffs
    // can be produced with the pathspec git actually knows them by.
    let paths: Vec<&str> = hist.iter().map(|h| h.path_at_commit.as_str()).collect();
    assert_eq!(paths, ["b.txt", "a.txt", "a.txt"]);
    // Empty branch set = pill suppressed everywhere.
    assert!(hist.iter().all(|h| !h.pre_branch));
}

#[test]
fn commit_diff_renders_root_commit_as_fully_added() {
    let log = "\u{1}c1\u{1f}c1\u{1f}add a\n\na.txt\n";
    let hist = file_history(&ran(log), "a.txt", &NameSet::new()).unwrap();
    let args = commit_diff_args(&hist[0].hash, &hist[0].path_at_commit, false);
    assert!(args.contains(&EMPTY_TREE.to_string()));
    let out = ran("@@ -0,0 +1 @@\n+hello\n");
    let raw = commit_diff(out, &hist[0].hash, &hist[0].path_at_commit).unwrap();
    let text = String::from_utf8_lossy(&raw);
    assert!(
        text.contains("hello"),
        "root-commit diff via EMPTY_TREE shows the file's lines: {text}"
    );
}

#[test]
fn commit_diff_across_a_rename_uses_the_old_path() {
    let hist = file_history(&ran(RENAMED), "b.txt", &NameSet::new()).unwrap();
    // "grow a" happened while the file was still a.txt.
    let args = commit_diff_args(&hist[1].hash, &hist[1].path_at_commit, true);
    assert_eq!(args.last().unwrap(), "a.txt");
    let out = ran("@@ -1 +1,2 @@\n one\n+two\n");
    let raw = commit_diff(out, &hist[1].hash, &hist[1].path_at_commit).unwrap();
    let text = String::from_utf8_lossy(&raw);
    assert!(
        text.contains("two"),
        "pre-rename commit diff is non-empty: {text}"
    );
}

#[test]
fn branch_commits_flags_only_branch_work_and_is_empty_on_the_base_branch() {
    // Sitting on main itself: merge base == HEAD → empty set → pill off.
    assert!(branch_commits(&Some(ran(""))).is_empty());
    assert!(branch_commits(&None).is_empty());

    let branch = branch_commits(&Some(ran("f1\n")));
    assert_eq!(branch.len(), 1);

    let log = "\u{1}f1\u{1f}f1\u{1f}on feature\n\na.txt\n\n\u{1}m1\u{1f}m1\u{1f}on main\n\na.txt\n";
    let hist = file_history(&ran(log), "a.txt", &branch).unwrap();
    assert_eq!(hist.len(), 2);
    assert!(!hist[0].pre_branch); // "on feature" is the branch's own work
    assert!(hist[1].pre_branch); // "on main" predates the branch
}

#[test]
fn base64_rfc4648_vectors() {
    for (input, expected) in [
        ("", ""),
        ("f", "Zg=="),
        ("fo", "Zm8="),
        ("foo", "Zm9v"),
        ("foob", "Zm9vYg=="),
        ("fooba", "Zm9vYmE="),
        ("foobar", "Zm9vYmFy"),
    ] {
        assert_eq!(base64_encode(input.as_bytes()), expected, "input={input:?}");
    }
}

#[test]
fn logs_put_together_give_the_records_of_each() {
    let a = "\u{1}aaa\u{1f}a1\u{1f}first\n\na.rs\n";
    let b = "\u{1}bbb\u{1f}b1\u{1f}second\n\nb.rs\n\u{1}ccc\u{1f}c1\u{1f}third\n\nc.rs\n";
    let mut each = parse_file_history(a);
    each.extend(parse_file_history(b));
    assert_eq!(parse_file_history(&format!("{a}{b}")), each);
    assert_eq!(each.len(), 3);
    assert!(each.iter().all(|r| !r.3.is_empty()));

    for malformed in ["\u{1}bad\n\nx.rs\n", "\u{1}x\u{1f}y\n\nx.rs\n", "\u{1}x\u{1f}y\u{1f}z\n\n"] {
        assert!(parse_file_history(malformed).is_empty());
        assert_eq!(parse_file_history(&format!("{a}{malformed}{b}")), each);
        assert_eq!(parse_file_history(&format!("{malformed}{a}{b}{malformed}")), each);
    }
}

#[test]
fn padding_stands_at_the_end_and_fills_the_last_group() {
    for n in 0..12 {
        let bytes: Vec<u8> = (0..n).map(|i| (i * 37) as u8).collect();
        let text = base64_encode(&bytes);
        let kept = text.trim_end_matches('=');
        assert_eq!(text.len() - kept.len(), (3 - n % 3) % 3);
        assert!(!kept.contains('='));
        assert_eq!(text.len(), (n + 2) / 3 * 4);
    }
}
