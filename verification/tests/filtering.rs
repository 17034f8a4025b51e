//! Filename filters.

use diffski::filter::Query;

fn matches(query: &str, path: &str) -> bool {
    Query::parse(query).matches(path)
}

#[test]
fn empty_query_matches_everything() {
    assert!(matches("", "src/app.rs"));
    assert!(matches("  ,  ", "src/app.rs"));
}

#[test]
fn plain_terms_are_case_insensitive_substrings_on_the_full_path() {
    assert!(matches("app", "src/app.rs"));
    assert!(matches("APP", "src/app.rs"));
    assert!(matches("src/a", "src/app.rs"));
    assert!(!matches("xyz", "src/app.rs"));
}

#[test]
fn comma_separated_terms_or_together() {
    assert!(matches("app, git", "src/git.rs"));
    assert!(matches("app, git", "src/app.rs"));
    assert!(!matches("app, git", "src/ui.rs"));
}

#[test]
fn bang_excludes() {
    assert!(!matches("!test", "src/test_util.rs"));
    assert!(matches("!test", "src/app.rs"));
}

#[test]
fn includes_and_excludes_compose() {
    // *.rs files except anything with "test" in the name.
    assert!(matches("*.rs, !test", "src/app.rs"));
    assert!(!matches("*.rs, !test", "src/test_util.rs"));
    assert!(!matches("*.rs, !test", "docs/notes.md"));
}

#[test]
fn excluding_globs_works() {
    assert!(!matches("!*.md", "README.md"));
    assert!(matches("!*.md", "src/app.rs"));
}

#[test]
fn lone_bang_is_a_noop() {
    assert!(matches("!", "src/app.rs"));
    assert!(matches("app, !", "src/app.rs"));
}

#[test]
fn glob_without_slash_matches_filename_only() {
    assert!(matches("*.rs", "src/app.rs"));
    assert!(matches("app.*", "src/app.rs"));
    // The filename is "app.rs" — a filename glob never sees "src".
    assert!(!matches("src*", "src/app.rs"));
}

#[test]
fn glob_with_slash_matches_full_path() {
    assert!(matches("src/*.rs", "src/app.rs"));
    // `*` must not cross a directory separator...
    assert!(!matches("src/*.rs", "src/webview/tree.rs"));
    // ...but `**` does.
    assert!(matches("src/**.rs", "src/webview/tree.rs"));
    assert!(matches("src/**/tree.rs", "src/webview/tree.rs"));
}

#[test]
fn question_mark_matches_exactly_one_char() {
    assert!(matches("a?p.rs", "src/app.rs"));
    assert!(matches("app.r?", "src/app.rs"));
    assert!(!matches("app.r?", "src/app.r"));
}

#[test]
fn globs_are_case_insensitive() {
    assert!(matches("*.RS", "src/app.rs"));
    assert!(matches("APP*", "src/App.rs"));
}

// --- how queries combine ---------------------------------------------------------------

const PATHS: [&str; 6] = [
    "src/app.rs",
    "src/test_util.rs",
    "README.md",
    "docs/Guide.MD",
    "tests/app.rs",
    "Makefile",
];

#[test]
fn an_exclusion_takes_away_what_its_term_matches() {
    for a in ["", "src", "*.rs, md", "!make"] {
        for t in ["test", " *.md ", "src/**"] {
            for path in PATHS {
                assert_eq!(
                    matches(&format!("{a},!{t}"), path),
                    matches(a, path) && !matches(t, path),
                    "{a},!{t} on {path}"
                );
            }
        }
    }
    assert!(!matches(",!test", "tests/app.rs"));
    assert!(matches(",!test", "Makefile"));
}

#[test]
fn includes_are_alternatives() {
    for (a, b) in [("app", "md"), ("*.rs, ", " make"), ("src/*", "test,guide")] {
        for path in PATHS {
            assert_eq!(
                matches(&format!("{a},{b}"), path),
                matches(a, path) || matches(b, path),
                "{a},{b} on {path}"
            );
        }
    }
    assert!(matches("app,md", "README.md"));
    assert!(!matches("app,md", "Makefile"));
}

#[test]
fn ascii_case_makes_no_difference() {
    for query in ["app", "*.md, !readme*", "SRC/**", "?akefile"] {
        for path in PATHS {
            let plain = matches(query, path);
            assert_eq!(matches(&query.to_uppercase(), path), plain);
            assert_eq!(matches(query, &path.to_uppercase()), plain);
            assert_eq!(matches(&query.to_uppercase(), &path.to_uppercase()), plain);
        }
    }
    assert!(matches("*.MD", "docs/Guide.md"));
    assert!(matches("GUIDE", "docs/Guide.MD"));
}
