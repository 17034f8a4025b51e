//! What git's and delta's answers come to.

use diffski::clipboard::copy_to_clipboard;
use diffski::commits::{
    base_branch, behind_count, candidates, commit_diff, commit_diff_args, diff_base, file_history,
    merge_base, raw_diff, raw_diff_args, remote_head, repo_root,
};
use diffski::config::{Config, DiffMode};
use diffski::delta::{
    bytes_to_show, delta_args, list_syntax_themes, render, settle, DeltaRun, DiffCache, Output, Production,
};
use diffski::git::{
    branch_changes, can_read_status, can_read_untracked, changed_files, classify, fill_stats,
    numstat, untracked_files, ChangeKind, FileEntry, EMPTY_TREE,
};
use diffski::rich::{Ink, Text};
use diffski::sort::SortField;
use diffski::table::NameSet;
use diffski::update::{check_due, outcome, REPO_URL};
use diffski::watch::{change_signature, is_change, pause_after, status_paths};

fn ran(stdout: &str) -> Output {
    Output {
        success: true,
        stdout: stdout.as_bytes().to_vec(),
        stderr: Vec::new(),
    }
}

fn failed(stderr: &str) -> Output {
    Output {
        success: false,
        stdout: Vec::new(),
        stderr: stderr.as_bytes().to_vec(),
    }
}

fn shown(text: &Text) -> Vec<String> {
    text.lines
        .iter()
        .map(|l| l.spans.iter().map(|s| s.content.clone()).collect())
        .collect()
}

fn paths(files: &[FileEntry]) -> Vec<(&str, ChangeKind)> {
    files.iter().map(|f| (f.path.as_str(), f.kind)).collect()
}

// --- listings ------------------------------------------------------------------

#[test]
fn status_codes_are_classified() {
    assert_eq!(classify('?', '?'), ChangeKind::Untracked);
    assert_eq!(classify('D', ' '), ChangeKind::Deleted);
    assert_eq!(classify('R', 'D'), ChangeKind::Deleted);
    assert_eq!(classify(' ', 'R'), ChangeKind::Renamed);
    assert_eq!(classify('C', ' '), ChangeKind::Renamed);
    assert_eq!(classify('A', 'M'), ChangeKind::Added);
    assert_eq!(classify('M', ' '), ChangeKind::Modified);
    assert_eq!(classify(' ', 'A'), ChangeKind::Modified);
}

#[test]
fn status_lists_one_file_per_record_and_skips_origins() {
    let out = ran(" M src/a.rs\0R  new.rs\0old.rs\0?? größe.txt\0xx\0D  gone.rs\0");
    assert!(can_read_status(&out));
    let files = changed_files(&out).unwrap();
    assert_eq!(
        paths(&files),
        [
            ("src/a.rs", ChangeKind::Modified),
            ("new.rs", ChangeKind::Renamed),
            ("größe.txt", ChangeKind::Untracked),
            ("gone.rs", ChangeKind::Deleted),
        ]
    );
    assert_eq!(files[0].mtime, 0);
    assert_eq!((files[0].added, files[0].removed), (None, None));
}

#[test]
fn status_that_failed_says_why() {
    let err = changed_files(&failed("  fatal: no repo \n")).unwrap_err();
    assert_eq!(err, "`git status` failed: fatal: no repo");
}

#[test]
fn status_with_a_broken_record_is_not_readable() {
    // The path would start inside a character.
    assert!(!can_read_status(&ran("M é\0")));
    assert!(!can_read_untracked(&ran("Mé x\0")));
    assert!(can_read_untracked(&ran("M  x\0")));
}

#[test]
fn bytes_that_are_no_text_are_replaced() {
    let mut out = ran("");
    out.stdout = b"?? a\xffb\0".to_vec();
    let files = changed_files(&out).unwrap();
    assert_eq!(files[0].path, "a\u{fffd}b");
}

#[test]
fn branch_changes_hold_tracked_and_untracked_files() {
    let diff = ran("M\0a.rs\0A\0b.rs\0R100\0old.rs\0new.rs\0D\0c.rs\0T\0d.rs\0");
    let status = ran(" M a.rs\0R  new.rs\0?? not-this\0?? fresh.txt\0");
    let files = branch_changes(&diff, &status).unwrap();
    assert_eq!(
        paths(&files),
        [
            ("a.rs", ChangeKind::Modified),
            ("b.rs", ChangeKind::Added),
            ("new.rs", ChangeKind::Renamed),
            ("c.rs", ChangeKind::Deleted),
            ("d.rs", ChangeKind::Modified),
            ("fresh.txt", ChangeKind::Untracked),
        ]
    );
    assert_eq!(paths(&untracked_files(&status)), [("fresh.txt", ChangeKind::Untracked)]);
}

#[test]
fn branch_changes_stop_at_a_record_that_was_cut_short() {
    let files = branch_changes(&ran("M\0a.rs\0R100\0old.rs\0"), &ran("")).unwrap();
    assert_eq!(paths(&files), [("a.rs", ChangeKind::Modified)]);
    let err = branch_changes(&failed("bad base\n"), &ran("")).unwrap_err();
    assert_eq!(err, "`git diff --name-status` failed: bad base");
}

#[test]
fn line_counts_come_from_numstat_and_from_contents() {
    let out = Some(ran("3\t1\ta.rs\n-\t-\tpic.png\n10\t0\told.rs => new.rs\n"));
    let stats = numstat(&out);
    assert_eq!(stats.get(&"a.rs".to_string()), Some(&(3, 1)));
    assert_eq!(stats.get(&"new.rs".to_string()), Some(&(10, 0)));
    assert_eq!(stats.get(&"pic.png".to_string()), None);
    assert_eq!(numstat(&None).get(&"a.rs".to_string()), None);

    let mut files = changed_files(&ran(" M a.rs\0 M pic.png\0?? new.txt\0?? gone\0")).unwrap();
    let contents = vec![None, None, Some("one\ntwo".to_string()), None];
    fill_stats(&mut files, &out, &contents);
    let counts: Vec<_> = files.iter().map(|f| (f.added, f.removed)).collect();
    assert_eq!(
        counts,
        [
            (Some(3), Some(1)),
            (None, None),
            (Some(2), Some(0)),
            (None, Some(0)),
        ]
    );
}

// --- branches and commits --------------------------------------------------------

#[test]
fn repository_roots() {
    assert_eq!(repo_root(&ran("/home/me/repo\n"), "."), Ok("/home/me/repo".to_string()));
    assert_eq!(
        repo_root(&failed(""), "/tmp"),
        Err("not a git repository: /tmp".to_string())
    );
    assert_eq!(
        repo_root(&ran(" \n"), "/tmp"),
        Err("could not resolve git repository root for /tmp".to_string())
    );
}

#[test]
fn the_base_branch_is_the_remotes_or_the_first_that_exists() {
    assert_eq!(diff_base(true), "HEAD");
    assert_eq!(diff_base(false), EMPTY_TREE);
    assert_eq!(candidates(), ["origin/main", "origin/master", "main", "master"]);
    let head = ran("refs/remotes/origin/trunk\n");
    assert_eq!(remote_head(&head), Some("origin/trunk".to_string()));
    assert_eq!(base_branch(&Some(head), &vec![true; 4]), Some("origin/trunk".to_string()));
    let none = Some(failed(""));
    assert_eq!(
        base_branch(&none, &vec![false, false, true, true]),
        Some("main".to_string())
    );
    assert_eq!(base_branch(&none, &vec![false; 4]), None);
    assert_eq!(base_branch(&None, &vec![true; 4]), None);
    assert_eq!(merge_base(&Some(ran("abc\n"))), Some("abc".to_string()));
    assert_eq!(merge_base(&Some(ran("\n"))), None);
    assert_eq!(merge_base(&Some(failed("x"))), None);
    assert_eq!(merge_base(&None), None);
    assert_eq!(behind_count(&Some(ran("12\n"))), Some(12));
    assert_eq!(behind_count(&Some(ran("many\n"))), None);
    assert_eq!(behind_count(&Some(failed("x"))), None);
    assert_eq!(behind_count(&None), None);
}

fn file(path: &str, kind: ChangeKind) -> FileEntry {
    FileEntry {
        path: path.to_string(),
        kind,
        mtime: 0,
        added: None,
        removed: None,
    }
}

#[test]
fn diffs_are_asked_for_against_the_base() {
    assert_eq!(
        raw_diff_args(&file("a.rs", ChangeKind::Modified), "HEAD"),
        ["diff", "--color=always", "HEAD", "--", "a.rs"]
    );
    assert_eq!(
        raw_diff_args(&file("new.rs", ChangeKind::Untracked), "HEAD"),
        ["diff", "--no-index", "--color=always", "--", "/dev/null"]
    );
    assert_eq!(
        commit_diff_args("c2", "a.rs", true),
        ["diff", "--color=always", "c2^", "c2", "--", "a.rs"]
    );
    assert_eq!(
        commit_diff_args("c1", "a.rs", false),
        ["diff", "--color=always", EMPTY_TREE, "c1", "--", "a.rs"]
    );
}

#[test]
fn diffs_fail_only_without_output() {
    // Differing files exit non-zero by design.
    let mut out = failed("warning");
    out.stdout = b"+x".to_vec();
    assert_eq!(raw_diff(out, "a.rs"), Ok(b"+x".to_vec()));
    assert_eq!(raw_diff(failed(""), "a.rs"), Ok(Vec::new()));
    assert_eq!(
        raw_diff(failed("boom\n"), "a.rs"),
        Err("git diff failed for a.rs: boom".to_string())
    );
    assert_eq!(
        commit_diff(failed("boom\n"), "c1", "a.rs"),
        Err("git diff failed for a.rs at c1: boom".to_string())
    );
    assert_eq!(
        file_history(&failed("bad\n"), "a.rs", &NameSet::new()),
        Err("`git log --follow` failed for a.rs: bad".to_string())
    );
}

// --- rendering ---------------------------------------------------------------------

#[test]
fn colored_output_is_parsed() {
    let text = render(b"plain\n\x1b[31m-old\x1b[0m\n", &DeltaRun::Missing).unwrap();
    assert_eq!(shown(&text), ["plain", "-old"]);
    let red = text.lines[1].spans.iter().find(|s| s.content == "-old").unwrap();
    assert_eq!(red.style.fg, Some(Ink::Parsed(ratatui::style::Color::Red)));
    let plain = text.lines[0].spans.iter().find(|s| s.content == "plain").unwrap();
    assert_eq!(plain.style.fg, None);
}

#[test]
fn deltas_output_is_shown_and_its_failures_are_told() {
    let out = DeltaRun::Ran(ran("fine\n"));
    assert_eq!(bytes_to_show(b"raw", &out), Ok(&b"fine\n"[..]));
    assert_eq!(bytes_to_show(b"raw", &DeltaRun::Missing), Ok(&b"raw"[..]));
    assert_eq!(shown(&render(b"raw", &out).unwrap()), ["fine"]);
    // A failure with output is shown all the same.
    let mut partial = failed("oops");
    partial.stdout = b"part".to_vec();
    assert_eq!(shown(&render(b"raw", &DeltaRun::Ran(partial)).unwrap()), ["part"]);
    assert_eq!(
        render(b"raw", &DeltaRun::Ran(failed(" bad theme\n"))).unwrap_err(),
        "delta failed: bad theme"
    );
    assert_eq!(
        render(b"raw", &DeltaRun::NotSpawned).unwrap_err(),
        "failed to spawn `delta`"
    );
    assert_eq!(
        render(b"raw", &DeltaRun::NotRead).unwrap_err(),
        "failed to read delta output"
    );
    assert_eq!(
        settle(None, &DeltaRun::Missing).unwrap_err(),
        "failed to parse git's ANSI output"
    );
    assert_eq!(settle(None, &out).unwrap_err(), "failed to parse delta's ANSI output");
}

#[test]
fn delta_is_asked_for_a_sane_width() {
    assert_eq!(
        delta_args(7, &None, 4),
        ["--paging", "never", "--true-color", "always", "--width", "20", "--tabs", "4"]
    );
    assert_eq!(
        delta_args(100, &Some("Nord".to_string()), 2),
        [
            "--paging",
            "never",
            "--true-color",
            "always",
            "--width",
            "100",
            "--tabs",
            "2",
            "--syntax-theme",
            "Nord"
        ]
    );
}

#[test]
fn listing_themes_needs_delta() {
    assert_eq!(list_syntax_themes(true, Some(true)), Ok(()));
    assert_eq!(
        list_syntax_themes(true, Some(false)),
        Err("`delta --list-syntax-themes` failed".to_string())
    );
    assert_eq!(
        list_syntax_themes(true, None),
        Err("failed to run `delta --list-syntax-themes`".to_string())
    );
    let missing = list_syntax_themes(false, None).unwrap_err();
    assert!(missing.starts_with("`delta` was not found on PATH.\nInstall it with"));
}

#[test]
fn renders_are_cached_by_path_signature_and_width() {
    let mut cache = DiffCache::new();
    let made = Production {
        raw: Ok(b"\x1b[32m+x\x1b[0m\n".to_vec()),
        run: DeltaRun::Missing,
    };
    let other = Production {
        raw: Ok(b"+other\n".to_vec()),
        run: DeltaRun::Missing,
    };
    assert_eq!(shown(&cache.get_or_render("a", 1, 80, &made).unwrap()), ["+x"]);
    assert_eq!(cache.raw_text("a", 1), Some("+x\n"));
    assert!(cache.contains("a", 1, 80));
    assert!(!cache.contains("a", 1, 81));
    assert!(!cache.contains("a", 2, 80));
    // A hit does not look at what was produced.
    assert_eq!(shown(&cache.get_or_render("a", 1, 80, &other).unwrap()), ["+x"]);
    cache.clear();
    assert!(!cache.contains("a", 1, 80));
    let broken = Production {
        raw: Err("no diff".to_string()),
        run: DeltaRun::Missing,
    };
    assert_eq!(cache.get_or_render("a", 1, 80, &broken).unwrap_err(), "no diff");
    assert!(!cache.contains("a", 1, 80));
    cache.insert("b", 1, 80, Text { lines: Vec::new() });
    cache.invalidate_path("a");
    assert!(cache.contains("b", 1, 80));
}

// --- settings ------------------------------------------------------------------------

#[test]
fn settings_are_written_and_read_back() {
    let mut config = Config::default();
    assert_eq!(
        config.save(),
        "sort_field=tree\nsort_desc=false\ntheme=\ndiff_mode=working\nsplit_pct=30\nfollow=false\nauto_update=true\ntab_width=4\nsidebar_collapsed=false\n"
    );
    config.sort_field = SortField::Size;
    config.sort_desc = true;
    config.theme = Some("Nord".to_string());
    config.diff_mode = DiffMode::BaseBranch;
    config.split_pct = 42;
    config.follow = true;
    config.auto_update = false;
    config.tab_width = 8;
    config.sidebar_collapsed = true;
    let back = Config::load(&config.save());
    assert_eq!(back.sort_field, SortField::Size);
    assert!(back.sort_desc);
    assert_eq!(back.theme, Some("Nord".to_string()));
    assert_eq!(back.diff_mode, DiffMode::BaseBranch);
    assert_eq!(back.split_pct, 42);
    assert!(back.follow);
    assert!(!back.auto_update);
    assert_eq!(back.tab_width, 8);
    assert!(back.sidebar_collapsed);
}

#[test]
fn unreadable_settings_keep_their_defaults() {
    let config = Config::load("junk\nsort_field=bogus\n split_pct = 99 \ntheme=  \ntab_width=x\nauto_update=maybe\r\n");
    assert_eq!(config.sort_field, SortField::Tree);
    assert_eq!(config.split_pct, 85);
    assert_eq!(config.theme, None);
    assert_eq!(config.tab_width, 4);
    assert!(config.auto_update);
    assert_eq!(Config::load("split_pct=3").split_pct, 15);
    assert_eq!(DiffMode::from_key("base"), Some(DiffMode::BaseBranch));
    assert_eq!(DiffMode::from_key("neither"), None);
}

#[test]
fn flags_override_settings() {
    let mut config = Config::load("theme=Nord\ntab_width=2");
    config.take_flags(None, None);
    assert_eq!((config.theme.as_deref(), config.tab_width), (Some("Nord"), 2));
    config.take_flags(Some("ansi".to_string()), Some(40));
    assert_eq!((config.theme.as_deref(), config.tab_width), (Some("ansi"), 16));
}

#[test]
fn tabs_on_the_command_line_are_for_a_run() {
    let mut config = Config::load("theme=Nord\ntab_width=2");
    config.take_flags(Some("ansi".to_string()), Some(8));
    config.take_flags(None, Some(6));
    assert_eq!(config.tab_width, 6);
    assert_eq!(config.kept_tabs(), 2);
    let next = Config::load(&config.save());
    assert_eq!((next.theme.as_deref(), next.tab_width), (Some("ansi"), 2));
    assert_eq!(next.saved_tab_width, None);
    assert_eq!(next.save(), config.save());

    let mut unsaved = Config::default();
    unsaved.take_flags(None, Some(40));
    assert_eq!((unsaved.tab_width, unsaved.kept_tabs()), (16, 4));
    assert_eq!(unsaved.save(), Config::default().save());
}

#[test]
fn copies_are_escape_sequences() {
    assert_eq!(copy_to_clipboard("foo"), "\x1b]52;c;Zm9v\x07");
}

// --- updates and polling ---------------------------------------------------------------

#[test]
fn updates_are_checked_once_a_day() {
    let day = 24 * 60 * 60;
    assert_eq!(check_due(&None, 1_000_000), Some("1000000".to_string()));
    let recorded = check_due(&Some("junk".to_string()), 1_000_000);
    assert_eq!(recorded, Some("1000000".to_string()));
    assert_eq!(check_due(&recorded, 1_000_000 + day - 1), None);
    assert_eq!(
        check_due(&Some(" 1000000\n".to_string()), 1_000_000 + day),
        Some("1086400".to_string())
    );
    // A clock that was set back.
    assert_eq!(check_due(&recorded, 5), None);
    assert_eq!(REPO_URL, "https://github.com/koshea/diffski");
}

#[test]
fn an_update_is_announced_when_the_binary_was_replaced() {
    let mut out = ran("");
    out.stderr = b"   Replacing /home/me/.cargo/bin/diffski\n".to_vec();
    assert_eq!(
        outcome(&out),
        Some("✨ diffski updated — restart to apply".to_string())
    );
    out.success = false;
    assert_eq!(outcome(&out), None);
    let mut same = ran("");
    same.stderr = b"already installed".to_vec();
    assert_eq!(outcome(&same), None);
}

#[test]
fn the_signature_folds_in_modification_times() {
    let out = ran(" M a.rs\0R  b.rs\0old\0?? c\0");
    assert_eq!(status_paths(&out), ["a.rs", "b.rs", "c"]);
    let before = change_signature(&out, &vec![Some(12), None, Some(3)]);
    assert_eq!(before, " M a.rs\0R  b.rs\0old\0?? c\0|a.rs:12|c:3");
    let after = change_signature(&out, &vec![Some(13), None, Some(3)]);
    assert!(is_change(&Some(before.clone()), &after));
    assert!(!is_change(&Some(before.clone()), &before));
    assert!(!is_change(&None, &after));
    let late = change_signature(&out, &vec![Some(1_700_000_000_123_456_789), None, None]);
    assert!(late.ends_with("|a.rs:1700000000123456789"));
}

#[test]
fn polling_backs_off_when_it_is_slow() {
    assert_eq!(pause_after(1_000_000), 600_000_000);
    assert_eq!(pause_after(200_000_000), 600_000_000);
    assert_eq!(pause_after(500_000_000), 1_500_000_000);
}

#[test]
fn renames_count_for_the_new_path() {
    let out = Some(ran(
        "5\t1\tsrc/{old.rs => new.rs}\n2\t3\tsrc/{a => b}/x.rs\n7\t0\ta/{b => }/c\n4\t4\tp/{ => q}/r\n1\t1\tm => n\n6\t2\todd}\n",
    ));
    let stats = numstat(&out);
    assert_eq!(stats.get(&"src/new.rs".to_string()), Some(&(5, 1)));
    assert_eq!(stats.get(&"src/b/x.rs".to_string()), Some(&(2, 3)));
    assert_eq!(stats.get(&"a/c".to_string()), Some(&(7, 0)));
    assert_eq!(stats.get(&"p/q/r".to_string()), Some(&(4, 4)));
    assert_eq!(stats.get(&"n".to_string()), Some(&(1, 1)));
    assert_eq!(stats.get(&"odd}".to_string()), Some(&(6, 2)));
    assert_eq!(stats.get(&"new.rs".to_string()), None);

    let mut files = changed_files(&ran("R  src/new.rs\0src/old.rs\0")).unwrap();
    fill_stats(&mut files, &out, &vec![None]);
    assert_eq!((files[0].added, files[0].removed), (Some(5), Some(1)));
}
