//! What git's outputs come to, character by character.

use vstd::prelude::*;
use vstd::utf8::encode_utf8;
use crate::commits;
use crate::commits::Commit;
use crate::delta::Output;
use crate::git;
use crate::git::{ChangeKind, Entry, EMPTY_TREE};
use crate::text_laws;
use crate::txt;

verus! {

// --- kinds of change -----------------------------------------------------------------

/// What the two letters of a status record say: `??` is an untracked file; otherwise a
/// `D` in either place a deleted one, an `R` or `C` in either place a renamed one, an `A`
/// in the first place an added one; everything else is modified.
pub proof fn law_letters_tell_the_kind(x: char, y: char)
    ensures
        ({
            let kind = git::classified(x, y);
            let untracked = x == '?' && y == '?';
            let deleted = x == 'D' || y == 'D';
            let renamed = x == 'R' || x == 'C' || y == 'R' || y == 'C';
            &&& kind == ChangeKind::Untracked <==> untracked
            &&& kind == ChangeKind::Deleted <==> deleted
            &&& kind == ChangeKind::Renamed <==> renamed && !deleted
            &&& kind == ChangeKind::Added <==> x == 'A' && !deleted && !renamed
            &&& kind == ChangeKind::Modified <==> !untracked && !deleted && !renamed && x != 'A'
        }),
        // A new file is added, whether or not it was edited after `git add`.
        y != 'D' && y != 'R' && y != 'C' ==> git::classified('A', y) == ChangeKind::Added,
        git::classified(' ', 'M') == ChangeKind::Modified,
{
}

/// Each kind of change has its own letter.
pub proof fn law_markers()
    ensures
        git::marker_of(ChangeKind::Modified) == 'M',
        git::marker_of(ChangeKind::Added) == 'A',
        git::marker_of(ChangeKind::Deleted) == 'D',
        git::marker_of(ChangeKind::Renamed) == 'R',
        git::marker_of(ChangeKind::Untracked) == 'U',
{
}

/// What a letter of `--name-status` says.
pub proof fn law_name_status_letters(c: char)
    ensures
        git::name_status_kind(c) == ChangeKind::Added <==> c == 'A',
        git::name_status_kind(c) == ChangeKind::Deleted <==> c == 'D',
        git::name_status_kind(c) == ChangeKind::Renamed <==> c == 'R' || c == 'C',
        git::name_status_kind(c) == ChangeKind::Modified <==> c != 'A' && c != 'D' && c != 'R' && c
            != 'C',
{
}

// --- listings ------------------------------------------------------------------------

proof fn lemma_status_shift(p: Seq<Seq<char>>, q: Seq<Seq<char>>, i: int)
    requires
        0 <= i,
    ensures
        git::status_files(p + q, p.len() + i) == git::status_files(q, i),
        git::status_readable(p + q, p.len() + i) == git::status_readable(q, i),
    decreases q.len() + 1 - i,
{
    if i < q.len() {
        assert((p + q)[p.len() + i] == q[i]);
        lemma_status_shift(p, q, i + 1);
        if encode_utf8(q[i]).len() >= 3 && git::has_origin(q[i]) {
            lemma_status_shift(p, q, i + 2);
        }
    }
}

proof fn lemma_untracked_shift(p: Seq<Seq<char>>, q: Seq<Seq<char>>, i: int)
    requires
        0 <= i,
    ensures
        git::untracked_from(p + q, p.len() + i) == git::untracked_from(q, i),
        git::untracked_readable(p + q, p.len() + i) == git::untracked_readable(q, i),
    decreases q.len() + 1 - i,
{
    if i < q.len() {
        assert((p + q)[p.len() + i] == q[i]);
        lemma_untracked_shift(p, q, i + 1);
        lemma_untracked_shift(p, q, i + 2);
    }
}

proof fn lemma_names_shift(p: Seq<Seq<char>>, q: Seq<Seq<char>>, i: int)
    requires
        0 <= i,
    ensures
        git::name_status_files(p + q, p.len() + i) == git::name_status_files(q, i),
    decreases q.len() - i,
{
    if i < q.len() {
        assert((p + q)[p.len() + i] == q[i]);
        let n = git::record_len(q, i);
        if i + n <= q.len() {
            assert((p + q)[p.len() + i + n - 1] == q[i + n - 1]);
            lemma_names_shift(p, q, i + n);
        }
    }
}

/// The files that the text of a `git status -z` lists.
pub open spec fn status_text(text: Seq<char>) -> Seq<Entry> {
    git::status_files(txt::fields(text, '\0'), 0)
}

/// The files that the text of a `git diff --name-status -z` lists.
pub open spec fn names_text(text: Seq<char>) -> Seq<Entry> {
    git::name_status_files(txt::fields(text, '\0'), 0)
}

/// The untracked files that the text of a `git status -z` lists.
pub open spec fn untracked_text(text: Seq<char>) -> Seq<Entry> {
    git::untracked_from(txt::fields(text, '\0'), 0)
}

/// A status record: two letters, a blank and a path.
pub open spec fn status_record(x: char, y: char, path: Seq<char>) -> Seq<char> {
    seq![x, y, ' '] + path
}

/// Whether a text holds no separator of records.
pub open spec fn unbroken(s: Seq<char>) -> bool {
    forall|i: int| 0 <= i < s.len() ==> #[trigger] s[i] != '\0'
}

proof fn lemma_status_record(x: char, y: char, path: Seq<char>)
    requires
        (x as u32) < 128,
        (y as u32) < 128,
        x != '\0',
        y != '\0',
        unbroken(path),
    ensures
        ({
            let record = status_record(x, y, path);
            &&& unbroken(record)
            &&& encode_utf8(record).len() >= 3
            &&& git::byte_char(record, 0) == x && git::byte_char(record, 1) == y
            &&& git::from_byte(record, 3) == path
        }),
{
    git::law_status_records(x, y, path);
    let record = status_record(x, y, path);
    assert(record =~= seq![x] + (seq![y] + (seq![' '] + path)));
    assert forall|i: int| 0 <= i < record.len() implies #[trigger] record[i] != '\0' by {
        if i >= 3 {
            assert(record[i] == path[i - 3]);
        }
    }
}

/// The third byte of a status record is the blank.
pub proof fn lemma_third_byte(x: char, y: char, path: Seq<char>)
    requires
        (x as u32) < 128,
        (y as u32) < 128,
    ensures
        encode_utf8(status_record(x, y, path)).len() > 2,
        encode_utf8(status_record(x, y, path))[2] == 0x20,
{
    let c = seq![' '] + path;
    let b = seq![y] + c;
    git::lemma_ascii_in_front(' ', path);
    git::lemma_ascii_in_front(y, c);
    git::lemma_ascii_in_front(x, b);
    assert(status_record(x, y, path) =~= seq![x] + b);
}

/// What a status listing says, record by record: each names one file with the kind that
/// its letters tell; behind a rename's or a copy's record stands the old path, which is
/// no file of the list.
pub proof fn law_status_record_by_record(
    x: char,
    y: char,
    path: Seq<char>,
    old: Seq<char>,
    rest: Seq<char>,
)
    requires
        (x as u32) < 128,
        (y as u32) < 128,
        x != '\0',
        y != '\0',
        unbroken(path),
        unbroken(old),
        old.len() > 0,
    ensures
        ({
            let moved = x == 'R' || x == 'C' || y == 'R' || y == 'C';
            let record = status_record(x, y, path).push('\0');
            let here = seq![
                Entry {
                    path,
                    kind: git::classified(x, y),
                    mtime: 0,
                    added: None,
                    removed: None,
                },
            ];
            &&& !moved ==> status_text(record + rest) == here + status_text(rest)
            &&& moved ==> status_text(record + (old.push('\0') + rest)) == here + status_text(rest)
        }),
        status_text(Seq::empty()) == Seq::<Entry>::empty(),
{
    let record = status_record(x, y, path);
    lemma_status_record(x, y, path);
    text_laws::law_fields(record, '\0', rest);
    text_laws::law_fields(record, '\0', old.push('\0') + rest);
    text_laws::law_fields(old, '\0', rest);
    let q = txt::fields(rest, '\0');
    let one = seq![record];
    let two = seq![record, old];
    assert(one + (seq![old] + q) =~= two + q);
    lemma_status_shift(one, q, 0);
    lemma_status_shift(two, q, 0);
    assert((one + q)[0] == record);
    assert((two + q)[0] == record);
}

/// The same of a branch's diff: a letter, then the path, and for a rename or a copy the old
/// path in front of the new one; a record that was cut short is no file.
pub proof fn law_names_record_by_record(
    code: Seq<char>,
    path: Seq<char>,
    old: Seq<char>,
    rest: Seq<char>,
)
    requires
        unbroken(code),
        unbroken(path),
        unbroken(old),
        code.len() > 0 && path.len() > 0 && old.len() > 0,
    ensures
        ({
            let moved = code[0] == 'R' || code[0] == 'C';
            let kind = if code[0] == 'A' {
                ChangeKind::Added
            } else if code[0] == 'D' {
                ChangeKind::Deleted
            } else if moved {
                ChangeKind::Renamed
            } else {
                ChangeKind::Modified
            };
            let here = seq![Entry { path, kind, mtime: 0, added: None, removed: None }];
            let (c, p, o) = (code.push('\0'), path.push('\0'), old.push('\0'));
            &&& !moved ==> names_text(c + (p + rest)) == here + names_text(rest)
            &&& moved ==> names_text(c + (o + (p + rest))) == here + names_text(rest)
            &&& names_text(code) == Seq::<Entry>::empty()
            &&& moved ==> names_text(c + old) == Seq::<Entry>::empty()
        }),
        names_text(Seq::empty()) == Seq::<Entry>::empty(),
{
    let (c, p, o) = (code.push('\0'), path.push('\0'), old.push('\0'));
    text_laws::law_fields(code, '\0', p + rest);
    text_laws::law_fields(code, '\0', o + (p + rest));
    text_laws::law_fields(code, '\0', old);
    text_laws::law_fields(path, '\0', rest);
    text_laws::law_fields(old, '\0', p + rest);
    let q = txt::fields(rest, '\0');
    let two = seq![code, path];
    let three = seq![code, old, path];
    assert(seq![code] + (seq![path] + q) =~= two + q);
    assert(seq![code] + (seq![old] + (seq![path] + q)) =~= three + q);
    lemma_names_shift(two, q, 0);
    lemma_names_shift(three, q, 0);
    assert((two + q)[0] == code && (two + q)[1] == path);
    assert((three + q)[0] == code && (three + q)[2] == path);
    assert(seq![code] + seq![old] =~= seq![code, old]);
}

/// The untracked files of a status listing: those whose records start with `??`; every
/// other record is passed over, a rename's together with its old path.
pub proof fn law_untracked_record_by_record(
    x: char,
    y: char,
    path: Seq<char>,
    old: Seq<char>,
    rest: Seq<char>,
)
    requires
        (x as u32) < 128,
        (y as u32) < 128,
        x != '\0',
        y != '\0',
        unbroken(path),
        unbroken(old),
        old.len() > 0,
    ensures
        ({
            let record = status_record(x, y, path).push('\0');
            let here = seq![
                Entry {
                    path,
                    kind: ChangeKind::Untracked,
                    mtime: 0,
                    added: None,
                    removed: None,
                },
            ];
            let untracked = x == '?' && y == '?';
            let moved = x == 'R' || x == 'C';
            &&& untracked ==> untracked_text(record + rest) == here + untracked_text(rest)
            &&& !untracked && !moved ==> untracked_text(record + rest) == untracked_text(rest)
            &&& moved ==> untracked_text(record + (old.push('\0') + rest)) == untracked_text(rest)
        }),
        untracked_text(Seq::empty()) == Seq::<Entry>::empty(),
{
    let record = status_record(x, y, path);
    lemma_status_record(x, y, path);
    text_laws::law_fields(record, '\0', rest);
    text_laws::law_fields(record, '\0', old.push('\0') + rest);
    text_laws::law_fields(old, '\0', rest);
    let q = txt::fields(rest, '\0');
    let one = seq![record];
    let two = seq![record, old];
    assert(one + (seq![old] + q) =~= two + q);
    lemma_untracked_shift(one, q, 0);
    lemma_untracked_shift(two, q, 0);
    assert((one + q)[0] == record);
    assert((two + q)[0] == record);
}

/// What the listings are read from: a command that failed gives its own words, trimmed;
/// a branch's changes are those of its diff, then the untracked files.
pub proof fn law_listings(diff: Output, status: Output)
    ensures
        status.success ==> git::status_list(status) == Ok::<Seq<Entry>, Seq<char>>(
            status_text(txt::decoded(status.stdout@)),
        ),
        !status.success ==> git::status_list(status) == Err::<Seq<Entry>, Seq<char>>(
            "`git status` failed: "@ + txt::trimmed(txt::decoded(status.stderr@)),
        ),
        diff.success ==> git::branch_list(diff, status) == Ok::<Seq<Entry>, Seq<char>>(
            names_text(txt::decoded(diff.stdout@)) + untracked_text(txt::decoded(status.stdout@)),
        ),
        !diff.success ==> git::branch_list(diff, status) == Err::<Seq<Entry>, Seq<char>>(
            "`git diff --name-status` failed: "@ + txt::trimmed(txt::decoded(diff.stderr@)),
        ),
{
}

/// Bytes that are UTF-8 are read as the text they encode.
pub proof fn law_outputs_are_utf8(text: Seq<char>)
    ensures
        txt::decoded(encode_utf8(text)) == text,
{
    vstd::utf8::encode_utf8_valid_utf8(text);
    vstd::utf8::encode_utf8_decode_utf8(text);
}

// --- line counts ---------------------------------------------------------------------

/// A `--numstat` line: the lines added, a tab, those removed, a tab, and the path.
pub proof fn law_numstat_lines(added: nat, removed: nat, path: Seq<char>)
    requires
        added <= u32::MAX,
        removed <= u32::MAX,
    ensures
        git::numstat_line(
            txt::decimal(added).push('\t') + (txt::decimal(removed).push('\t') + path),
        ) == Some((git::numstat_path(path), (added as u32, removed as u32))),
        git::numstat_line(seq!['-', '\t', '-', '\t'] + path) is None,
{
    txt::lemma_decimal_digits(added);
    txt::lemma_decimal_digits(removed);
    txt::law_decimal_round_trip(added, u32::MAX as nat);
    txt::law_decimal_round_trip(removed, u32::MAX as nat);
    let (a, d) = (txt::decimal(added), txt::decimal(removed));
    assert forall|i: int| 0 <= i < a.len() implies #[trigger] a[i] != '\t' by {
        assert(txt::is_digit(a[i]));
    }
    assert forall|i: int| 0 <= i < d.len() implies #[trigger] d[i] != '\t' by {
        assert(txt::is_digit(d[i]));
    }
    text_laws::law_cutting(a, '\t', d.push('\t') + path);
    text_laws::law_cutting(d, '\t', path);
    let dash = seq!['-'];
    let binary = seq!['-', '\t', '-', '\t'] + path;
    let behind = dash.push('\t') + path;
    assert(binary =~= dash.push('\t') + behind);
    text_laws::law_cutting(dash, '\t', behind);
    text_laws::law_cutting(dash, '\t', path);
    assert(!txt::all_digits(dash)) by {
        assert(!txt::is_digit(dash[0]));
    }
}

proof fn lemma_stats_start(a: Seq<Seq<char>>, b: Seq<Seq<char>>, n: int)
    requires
        n <= a.len(),
        n <= b.len(),
        forall|i: int| 0 <= i < n ==> #[trigger] a[i] == b[i],
    ensures
        git::stats_upto(a, n) == git::stats_upto(b, n),
    decreases n,
{
    if n > 0 {
        lemma_stats_start(a, b, n - 1);
        assert(a[n - 1] == b[n - 1]);
    }
}

/// The counts of a `--numstat`: each line's stand under its path, a later line's in place
/// of an earlier one's; a binary file's line, and a command that failed, give none.
pub proof fn law_numstat_line_by_line(
    before: Output,
    after: Output,
    added: nat,
    removed: nat,
    path: Seq<char>,
)
    requires
        before.success,
        after.success,
        added <= u32::MAX,
        removed <= u32::MAX,
        git::output_text(before).len() == 0 || git::output_text(before).last() == '\n',
        path.len() > 0 && path.last() != '\r',
        forall|i: int| 0 <= i < path.len() ==> #[trigger] path[i] != '\n',
    ensures
        ({
            let line = txt::decimal(added).push('\t') + (txt::decimal(removed).push('\t') + path);
            git::output_text(after) == git::output_text(before) + line.push('\n') ==> git::stats_of(
                Some(after),
            ) == git::stats_of(Some(before)).insert(
                git::numstat_path(path),
                (added as u32, removed as u32),
            )
        }),
        git::output_text(before).len() == 0 ==> git::stats_of(Some(before))
            == Map::<Seq<char>, (u32, u32)>::empty(),
        git::stats_of(None) == Map::<Seq<char>, (u32, u32)>::empty(),
{
    law_numstat_lines(added, removed, path);
    txt::lemma_decimal_digits(added);
    txt::lemma_decimal_digits(removed);
    let (a, d) = (txt::decimal(added), txt::decimal(removed));
    let line = a.push('\t') + (d.push('\t') + path);
    let text = git::output_text(before);
    assert forall|i: int| 0 <= i < line.len() implies #[trigger] line[i] != '\n' by {
        if i < a.len() {
            assert(txt::is_digit(a[i]));
        } else if a.len() < i && i < a.len() + 1 + d.len() {
            assert(line[i] == d[i - a.len() - 1]);
            assert(txt::is_digit(d[i - a.len() - 1]));
        } else if i > a.len() + 1 + d.len() {
            assert(line[i] == path[i - a.len() - d.len() - 2]);
        }
    }
    assert(line.last() == path.last());
    text_laws::law_lines(text, line);
    if git::output_text(after) == text + line.push('\n') {
        let (p, q) = (txt::lines(text), txt::lines(git::output_text(after)));
        assert forall|i: int| 0 <= i < p.len() implies #[trigger] q[i] == p[i] by {}
        lemma_stats_start(q, p, p.len() as int);
        assert(q[p.len() as int] == line);
    }
    if text.len() == 0 {
        assert(text =~= Seq::<char>::empty());
    }
}

/// A path that no rename is written into is counted under itself; a rename that takes a
/// directory out leaves one slash.
pub proof fn law_numstat_paths(path: Seq<char>, prefix: Seq<char>, old: Seq<char>, suffix: Seq<char>)
    ensures
        !txt::holds(path, " => "@) ==> git::numstat_path(path) == path,
        git::reads_one_way(prefix, old, Seq::empty(), suffix) && prefix.len() > 0 && suffix.len()
            > 0 ==> git::numstat_path(
            prefix + seq!['{'] + old + " => "@ + (Seq::empty() + seq!['}'] + suffix),
        ) == prefix + suffix.skip(1),
{
    if !txt::holds(path, " => "@) {
        lemma_nothing_found(path, " => "@, path.len() - " => "@.len());
    }
    if git::reads_one_way(prefix, old, Seq::empty(), suffix) {
        git::law_renames_count_for_the_new_path(prefix, old, Seq::empty(), suffix);
    }
}

/// A brace inside a name is part of the name: where none opens at the start of a part of
/// the old path, or none closes at the end of one of the new path, all of what stands
/// behind the arrow is the new path.
pub proof fn law_braces_within_names(old: Seq<char>, new: Seq<char>)
    requires
        !txt::holds(seq![' '] + new, " => "@),
        (forall|i: int|
            0 <= i < old.len() && #[trigger] old[i] == '{' ==> i > 0 && old[i - 1] != '/') || (
        forall|i: int|
            0 <= i < new.len() && #[trigger] new[i] == '}' ==> i + 1 < new.len() && new[i + 1]
                != '/'),
    ensures
        git::numstat_path(old + " => "@ + new) == new,
{
    git::lemma_arrow(old, new);
    if forall|i: int|
        0 <= i < old.len() && #[trigger] old[i] == '{' ==> i > 0 && old[i - 1] != '/' {
        lemma_none_opens(old, old.len() as int);
    } else {
        lemma_none_closes(new, 0);
    }
}

proof fn lemma_none_opens(s: Seq<char>, n: int)
    requires
        0 <= n <= s.len(),
        forall|i: int| 0 <= i < s.len() && #[trigger] s[i] == '{' ==> i > 0 && s[i - 1] != '/',
    ensures
        git::last_opening(s, n) is None,
    decreases n,
{
    if n > 0 {
        lemma_none_opens(s, n - 1);
    }
}

proof fn lemma_none_closes(s: Seq<char>, i: int)
    requires
        0 <= i,
        forall|k: int|
            0 <= k < s.len() && #[trigger] s[k] == '}' ==> k + 1 < s.len() && s[k + 1] != '/',
    ensures
        git::first_closing(s, i) is None,
    decreases s.len() - i,
{
    if i < s.len() {
        lemma_none_closes(s, i + 1);
    }
}

proof fn lemma_nothing_found(s: Seq<char>, pat: Seq<char>, i: int)
    requires
        !txt::holds(s, pat),
    ensures
        txt::rfind_from(s, pat, i) is None,
    decreases i + 1,
{
    if i >= 0 {
        assert(!txt::occurs_at(s, pat, i));
        lemma_nothing_found(s, pat, i - 1);
    }
}

/// The line counts of a file: an untracked one adds all of its lines and removes none;
/// any other has the counts that git gave for its path, and keeps those it had if git
/// gave none. Nothing else of it changes.
pub proof fn law_line_counts(
    e: Entry,
    stats: Map<Seq<char>, (u32, u32)>,
    contents: Option<Seq<char>>,
)
    ensures
        ({
            let r = git::counted(e, stats, contents);
            &&& r.path == e.path && r.kind == e.kind && r.mtime == e.mtime
            &&& e.kind == ChangeKind::Untracked ==> {
                &&& r.removed == Some(0u32)
                &&& contents is None ==> r.added is None
                &&& contents is Some && txt::lines(contents->0).len() <= u32::MAX
                    ==> r.added is Some && r.added->0 == txt::lines(contents->0).len()
            }
            &&& e.kind != ChangeKind::Untracked && stats.contains_key(e.path) ==> r.added == Some(
                stats[e.path].0,
            ) && r.removed == Some(stats[e.path].1)
            &&& e.kind != ChangeKind::Untracked && !stats.contains_key(e.path) ==> r == e
        }),
{
}

// --- commits -------------------------------------------------------------------------

proof fn lemma_named(lines: Seq<Seq<char>>, n: int, h: Seq<char>)
    requires
        0 <= n <= lines.len(),
    ensures
        commits::named_upto(lines, n).contains(h) <==> h.len() > 0 && exists|i: int|
            0 <= i < n && txt::trimmed(#[trigger] lines[i]) == h,
    decreases n,
{
    if n > 0 {
        lemma_named(lines, n - 1, h);
        if exists|i: int| 0 <= i < n && txt::trimmed(#[trigger] lines[i]) == h {
            let i = choose|i: int| 0 <= i < n && txt::trimmed(#[trigger] lines[i]) == h;
            if i < n - 1 {
                assert(txt::trimmed(lines[i]) == h);
            }
        }
        assert(txt::trimmed(lines[n - 1]) == h || txt::trimmed(lines[n - 1]) != h);
    }
}

/// A branch's commits are exactly what the lines of a `git rev-list` name, each line
/// without the blanks around it; a blank line names none, nor does a command that failed.
pub proof fn law_branch_commits(out: Output, h: Seq<char>)
    ensures
        out.success ==> (commits::branch_hashes(Some(out)).contains(h) <==> h.len() > 0
            && exists|i: int|
            0 <= i < txt::lines(txt::decoded(out.stdout@)).len() && txt::trimmed(
                #[trigger] txt::lines(txt::decoded(out.stdout@))[i],
            ) == h),
        !out.success ==> !commits::branch_hashes(Some(out)).contains(h),
        !commits::branch_hashes(None).contains(h),
{
    let lines = txt::lines(txt::decoded(out.stdout@));
    lemma_named(lines, lines.len() as int, h);
}

/// Whether a text holds no control character that a log is divided by.
pub open spec fn one_field(s: Seq<char>) -> bool {
    forall|i: int|
        0 <= i < s.len() ==> #[trigger] s[i] != '\u{1}' && s[i] != '\u{1f}' && s[i] != '\n' && s[i]
            != '\r'
}

/// Whether a text stays within its line and its record.
pub open spec fn one_line(s: Seq<char>) -> bool {
    forall|i: int|
        0 <= i < s.len() ==> #[trigger] s[i] != '\u{1}' && s[i] != '\n' && s[i] != '\r'
}

/// A commit as a log writes it: a mark, the hash, the short hash and the subject with
/// separators between them, an empty line, and the path.
pub open spec fn log_entry(
    hash: Seq<char>,
    short: Seq<char>,
    subject: Seq<char>,
    path: Seq<char>,
) -> Seq<char> {
    seq!['\u{1}'] + (hash.push('\u{1f}') + (short.push('\u{1f}') + subject)).push('\n').push('\n')
        + path.push('\n')
}

/// A log is read commit by commit, in its order, each with the fields it was written
/// with; a subject may hold further separators.
pub proof fn law_log_entry_by_entry(
    before: Seq<char>,
    hash: Seq<char>,
    short: Seq<char>,
    subject: Seq<char>,
    path: Seq<char>,
)
    requires
        one_field(hash),
        one_field(short),
        one_line(subject),
        one_field(path),
        path.len() > 0,
    ensures
        commits::log_records(before + log_entry(hash, short, subject, path)) == commits::log_records(
            before,
        ).push((hash, short, subject, path)),
{
    let entry = log_entry(hash, short, subject, path);
    let head = hash.push('\u{1f}') + (short.push('\u{1f}') + subject);
    let text = head.push('\n').push('\n') + path.push('\n');
    assert(entry =~= seq!['\u{1}'] + text);
    assert(entry[0] == '\u{1}');
    commits::law_logs_put_together(before, entry);
    assert forall|i: int| 0 <= i < head.len() implies #[trigger] head[i] != '\n' && head[i] != '\r'
        && head[i] != '\u{1}' by {
        if i < hash.len() {
            assert(head[i] == hash[i]);
        } else if i > hash.len() && i < hash.len() + 1 + short.len() {
            assert(head[i] == short[i - hash.len() - 1]);
        } else if i > hash.len() + 1 + short.len() {
            assert(head[i] == subject[i - hash.len() - short.len() - 2]);
        }
    }
    assert forall|i: int| 0 <= i < text.len() implies #[trigger] text[i] != '\u{1}' by {
        if i < head.len() {
            assert(text[i] == head[i]);
        } else if i >= head.len() + 2 && i < head.len() + 2 + path.len() {
            assert(text[i] == path[i - head.len() - 2]);
        }
    }
    let nothing = Seq::<char>::empty();
    // The lines of the record.
    let first = head.push('\n');
    let second = first + nothing.push('\n');
    assert(second =~= head.push('\n').push('\n'));
    text_laws::law_lines(nothing, head);
    assert(nothing + head.push('\n') =~= first);
    text_laws::law_lines(first, nothing);
    assert forall|i: int| 0 <= i < path.len() implies #[trigger] path[i] != '\n' by {
        assert(path[i] != '\u{1}');
    }
    assert(path.last() != '\r') by {
        assert(path[path.len() - 1] != '\u{1}');
    }
    text_laws::law_lines(second, path);
    assert(second.last() == '\n');
    assert(text == second + path.push('\n'));
    let lines = txt::lines(text);
    assert(lines =~= seq![head, nothing, path]) by {
        assert(txt::lines(first) =~= seq![head]);
        assert(txt::lines(second) =~= seq![head, nothing]);
    }
    // The fields of its head.
    assert forall|i: int| 0 <= i < hash.len() implies #[trigger] hash[i] != '\u{1f}' by {
        assert(hash[i] != '\n');
    }
    assert forall|i: int| 0 <= i < short.len() implies #[trigger] short[i] != '\u{1f}' by {
        assert(short[i] != '\n');
    }
    text_laws::law_cutting(hash, '\u{1f}', short.push('\u{1f}') + subject);
    text_laws::law_cutting(short, '\u{1f}', subject);
    reveal_with_fuel(commits::first_filled, 3);
    assert(commits::record(text) == Some((hash, short, subject, path)));
    assert(entry.skip(1) =~= text);
    txt::lemma_split_one(text, '\u{1}');
    let parts = txt::split(entry, '\u{1}');
    assert(parts =~= seq![nothing, text]);
    reveal_with_fuel(commits::records_upto, 3);
    assert(commits::log_records(entry) =~= seq![(hash, short, subject, path)]);
    assert(commits::log_records(before) + commits::log_records(entry) =~= commits::log_records(
        before,
    ).push((hash, short, subject, path)));
}

/// A file's history: the commits of the log with what the log says of them, each flagged
/// exactly if some commits of the branch are known and it is none of them. A command that
/// failed is reported with its own words.
pub proof fn law_histories(out: Output, path: Seq<char>, branch: Set<Seq<char>>, i: int)
    requires
        0 <= i < commits::log_records(txt::decoded(out.stdout@)).len(),
    ensures
        out.success ==> ({
            let records = commits::log_records(txt::decoded(out.stdout@));
            let r = records[i];
            &&& commits::history_of(out, path, branch) matches Ok(list) && list.len()
                == records.len() && list[i] == (Commit {
                hash: r.0,
                short_hash: r.1,
                subject: r.2,
                path_at_commit: r.3,
                pre_branch: !branch.contains(r.0) && exists|h: Seq<char>| branch.contains(h),
            })
        }),
        !out.success ==> commits::history_of(out, path, branch) == Err::<Seq<Commit>, Seq<char>>(
            "`git log --follow` failed for "@ + path + ": "@ + txt::trimmed(
                txt::decoded(out.stderr@),
            ),
        ),
{
    if out.success {
        commits::law_history_follows_the_log(out, path, branch, i);
        let none = Set::<Seq<char>>::empty();
        if branch != none {
            assert(exists|h: Seq<char>| branch.contains(h)) by {
                if forall|h: Seq<char>| !branch.contains(h) {
                    assert(branch =~= none);
                }
            }
        }
    }
}

/// What the questions to git are answered with.
pub proof fn law_answers(out: Output, path: Seq<char>, name: Seq<char>)
    ensures
        ({
            let said = txt::trimmed(txt::decoded(out.stdout@));
            &&& out.success && said.len() > 0 ==> commits::root_of(out, path) == Ok::<
                Seq<char>,
                Seq<char>,
            >(said)
            &&& commits::root_of(out, path) is Err <==> !out.success || said.len() == 0
            &&& commits::merge_base_of(Some(out)) == if out.success && said.len() > 0 {
                Some(said)
            } else {
                None
            }
            &&& commits::count_of(Some(out)) == if out.success {
                txt::parsed(said, u64::MAX as nat)
            } else {
                None
            }
            &&& out.success && said == "refs/remotes/"@ + name ==> commits::remote_default(out)
                == Some(name)
            &&& !out.success || !txt::has_prefix(said, "refs/remotes/"@)
                ==> commits::remote_default(out) is None
        }),
        commits::merge_base_of(None) is None,
        commits::count_of(None) is None,
{
    let said = txt::trimmed(txt::decoded(out.stdout@));
    let prefix = "refs/remotes/"@;
    if said == prefix + name {
        assert(said.take(prefix.len() as int) =~= prefix);
        assert(said.skip(prefix.len() as int) =~= name);
    }
}

/// Without a default named by the remote, the base branch is the first that exists of
/// `origin/main`, `origin/master`, `main` and `master`.
pub proof fn law_base_branch_candidates(verified: Seq<bool>)
    requires
        verified.len() == 4,
    ensures
        ({
            let found = commits::first_existing(verified, 0);
            &&& verified[0] ==> found == Some("origin/main"@)
            &&& !verified[0] && verified[1] ==> found == Some("origin/master"@)
            &&& !verified[0] && !verified[1] && verified[2] ==> found == Some("main"@)
            &&& !verified[0] && !verified[1] && !verified[2] && verified[3] ==> found == Some(
                "master"@,
            )
            &&& !verified[0] && !verified[1] && !verified[2] && !verified[3] ==> found is None
        }),
        commits::base_candidates() == seq!["origin/main"@, "origin/master"@, "main"@, "master"@],
{
    reveal_with_fuel(commits::first_existing, 5);
}

/// The base branch is what the remote's `HEAD` names; where it names none, the first
/// candidate that exists; where git cannot be asked, there is none.
pub proof fn law_the_base_branch(head: Output, verified: Seq<bool>, name: Seq<char>)
    requires
        verified.len() == 4,
    ensures
        commits::base_of(None, verified) is None,
        head.success && txt::trimmed(txt::decoded(head.stdout@)) == "refs/remotes/"@ + name
            ==> commits::base_of(Some(head), verified) == Some(name),
        !head.success && verified[0] ==> commits::base_of(Some(head), verified) == Some(
            "origin/main"@,
        ),
        !head.success && !verified[0] && !verified[1] && !verified[2] && !verified[3]
            ==> commits::base_of(Some(head), verified) is None,
        !head.success ==> commits::base_of(Some(head), verified) == commits::first_existing(
            verified,
            0,
        ),
{
    law_answers(head, Seq::empty(), name);
    law_base_branch_candidates(verified);
}

/// How a file's diff is asked for: against the base, coloured; an untracked file's against
/// nothing. A commit's is taken against its parent, or against nothing if it has none.
pub proof fn law_diffs_asked_for(
    kind: ChangeKind,
    path: Seq<char>,
    base: Seq<char>,
    commit: Seq<char>,
)
    ensures
        kind != ChangeKind::Untracked ==> commits::diff_arguments(kind, path, base) == seq![
            "diff"@,
            "--color=always"@,
            base,
            "--"@,
            path,
        ],
        commits::diff_arguments(ChangeKind::Untracked, path, base) == seq![
            "diff"@,
            "--no-index"@,
            "--color=always"@,
            "--"@,
            "/dev/null"@,
        ],
        commits::commit_base(commit, true) == commit + seq!['^'],
        commits::commit_base(commit, false) == EMPTY_TREE@,
        commits::commit_arguments(commit, path, true) == seq![
            "diff"@,
            "--color=always"@,
            commit + seq!['^'],
            commit,
            "--"@,
            path,
        ],
        commits::commit_arguments(commit, path, false) == seq![
            "diff"@,
            "--color=always"@,
            EMPTY_TREE@,
            commit,
            "--"@,
            path,
        ],
        commits::working_base(true) == "HEAD"@,
        commits::working_base(false) == EMPTY_TREE@,
{
    assert(commit.push('^') =~= commit + seq!['^']);
}

/// What a diff comes to: what git printed, even if nothing; only when it printed nothing
/// but a complaint is that the error.
pub proof fn law_diff_results(out: Output, complaint: Seq<char>)
    ensures
        out.stdout@.len() > 0 || out.stderr@.len() == 0 ==> commits::diff_result(out, complaint)
            == Ok::<Seq<u8>, Seq<char>>(out.stdout@),
        out.stdout@.len() == 0 && out.stderr@.len() > 0 ==> commits::diff_result(out, complaint)
            == Err::<Seq<u8>, Seq<char>>(complaint + txt::trimmed(txt::decoded(out.stderr@))),
{
}

/// A token that is too short for a record is passed over.
pub proof fn law_short_tokens_are_no_records(tok: Seq<char>, rest: Seq<char>)
    requires
        unbroken(tok),
        tok.len() > 0,
        encode_utf8(tok).len() < 3,
    ensures
        status_text(tok.push('\0') + rest) == status_text(rest),
{
    text_laws::law_fields(tok, '\0', rest);
    let q = txt::fields(rest, '\0');
    lemma_status_shift(seq![tok], q, 0);
    assert((seq![tok] + q)[0] == tok);
}

/// The path of a log's record is the first line behind its head that holds anything,
/// whatever follows.
pub proof fn law_the_path_of_a_record(text: Seq<char>) -> (i: int)
    requires
        commits::record(text) is Some,
    ensures
        1 <= i < txt::lines(text).len(),
        txt::lines(text)[i].len() > 0,
        (commits::record(text)->Some_0).3 == txt::lines(text)[i],
        forall|k: int| 1 <= k < i ==> (#[trigger] txt::lines(text)[k]).len() == 0,
{
    lemma_filled(txt::lines(text), 1)
}

proof fn lemma_filled(lines: Seq<Seq<char>>, from: int) -> (i: int)
    requires
        0 <= from,
        commits::first_filled(lines, from) is Some,
    ensures
        from <= i < lines.len(),
        lines[i].len() > 0,
        commits::first_filled(lines, from) == Some(lines[i]),
        forall|k: int| from <= k < i ==> (#[trigger] lines[k]).len() == 0,
    decreases lines.len() - from,
{
    if lines[from].len() > 0 {
        from
    } else {
        lemma_filled(lines, from + 1)
    }
}

/// The empty tree has the hash that git gives it.
pub proof fn law_the_empty_tree()
    ensures
        EMPTY_TREE@ == "4b825dc642cb6eb9a060e54bf8d69288fbee4904"@,
{
}

} // verus!
