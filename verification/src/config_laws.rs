//! Persisted settings are read back.

use vstd::prelude::*;
use crate::config;
use crate::config::{DiffMode, Settings};
use crate::sort;
use crate::sort::SortField;
use crate::sort_laws;
use crate::txt;

verus! {

// --- splitting what was joined -------------------------------------------------

/// A text is cut at its first separator.
proof fn lemma_cut(a: Seq<char>, b: Seq<char>, sep: char)
    requires
        !a.contains(sep),
    ensures
        txt::cut(a.push(sep) + b, sep) == Some((a, b)),
{
    let s = a.push(sep) + b;
    let n = a.len() as int;
    txt::lemma_find_from(s, seq![sep], 0);
    assert(s.subrange(n, n + 1) =~= seq![sep]);
    assert(txt::occurs_at(s, seq![sep], n));
    let k = txt::find_from(s, seq![sep], 0)->0;
    assert(txt::occurs_at(s, seq![sep], k));
    assert(s.subrange(k, k + 1)[0] == sep);
    if k < n {
        assert(a.contains(a[k]));
    }
    assert(k == n);
    assert(s.take(n) =~= a);
    assert(s.skip(n + 1) =~= b);
}

// --- texts that survive --------------------------------------------------------

/// Whether a text can stand as a value: one line, without surrounding whitespace.
pub open spec fn fits_a_line(s: Seq<char>) -> bool {
    &&& !s.contains('\n')
    &&& s.len() > 0 ==> !txt::is_space(s[0]) && !txt::is_space(s.last())
}

/// Whether a text is made of letters, digits and underscores.
pub open spec fn is_plain_word(s: Seq<char>) -> bool {
    forall|i: int| 0 <= i < s.len() ==> #[trigger] plain_char(s[i])
}

/// A letter, digit or underscore.
pub open spec fn plain_char(c: char) -> bool {
    'a' <= c <= 'z' || '0' <= c <= '9' || c == '_'
}

proof fn lemma_plain_word(s: Seq<char>)
    requires
        is_plain_word(s),
    ensures
        fits_a_line(s),
        !s.contains('='),
{
    if s.len() > 0 {
        assert(plain_char(s[0]));
        assert(plain_char(s[s.len() - 1]));
    }
    assert forall|i: int| 0 <= i < s.len() implies s[i] != '\n' && s[i] != '=' by {
        assert(plain_char(s[i]));
    }
}

proof fn lemma_trimmed(s: Seq<char>)
    requires
        fits_a_line(s),
    ensures
        txt::trimmed(s) == s,
{
}

proof fn lemma_decimal_plain(n: nat)
    ensures
        is_plain_word(txt::decimal(n)),
{
    txt::lemma_decimal_digits(n);
    let s = txt::decimal(n);
    assert forall|i: int| 0 <= i < s.len() implies #[trigger] plain_char(s[i]) by {
        assert(txt::is_digit(s[i]));
    }
}

proof fn lemma_word_sort_field()
    ensures
        "sort_field"@ == seq!['s', 'o', 'r', 't', '_', 'f', 'i', 'e', 'l', 'd'],
        is_plain_word("sort_field"@),
{
    reveal_strlit("sort_field");
    assert("sort_field"@ =~= seq!['s', 'o', 'r', 't', '_', 'f', 'i', 'e', 'l', 'd']);
}

proof fn lemma_word_sort_desc()
    ensures
        "sort_desc"@ == seq!['s', 'o', 'r', 't', '_', 'd', 'e', 's', 'c'],
        is_plain_word("sort_desc"@),
{
    reveal_strlit("sort_desc");
    assert("sort_desc"@ =~= seq!['s', 'o', 'r', 't', '_', 'd', 'e', 's', 'c']);
}

proof fn lemma_word_theme()
    ensures
        "theme"@ == seq!['t', 'h', 'e', 'm', 'e'],
        is_plain_word("theme"@),
{
    reveal_strlit("theme");
    assert("theme"@ =~= seq!['t', 'h', 'e', 'm', 'e']);
}

proof fn lemma_word_diff_mode()
    ensures
        "diff_mode"@ == seq!['d', 'i', 'f', 'f', '_', 'm', 'o', 'd', 'e'],
        is_plain_word("diff_mode"@),
{
    reveal_strlit("diff_mode");
    assert("diff_mode"@ =~= seq!['d', 'i', 'f', 'f', '_', 'm', 'o', 'd', 'e']);
}

proof fn lemma_word_split_pct()
    ensures
        "split_pct"@ == seq!['s', 'p', 'l', 'i', 't', '_', 'p', 'c', 't'],
        is_plain_word("split_pct"@),
{
    reveal_strlit("split_pct");
    assert("split_pct"@ =~= seq!['s', 'p', 'l', 'i', 't', '_', 'p', 'c', 't']);
}

proof fn lemma_word_follow()
    ensures
        "follow"@ == seq!['f', 'o', 'l', 'l', 'o', 'w'],
        is_plain_word("follow"@),
{
    reveal_strlit("follow");
    assert("follow"@ =~= seq!['f', 'o', 'l', 'l', 'o', 'w']);
}

proof fn lemma_word_auto_update()
    ensures
        "auto_update"@ == seq!['a', 'u', 't', 'o', '_', 'u', 'p', 'd', 'a', 't', 'e'],
        is_plain_word("auto_update"@),
{
    reveal_strlit("auto_update");
    assert("auto_update"@ =~= seq!['a', 'u', 't', 'o', '_', 'u', 'p', 'd', 'a', 't', 'e']);
}

proof fn lemma_word_tab_width()
    ensures
        "tab_width"@ == seq!['t', 'a', 'b', '_', 'w', 'i', 'd', 't', 'h'],
        is_plain_word("tab_width"@),
{
    reveal_strlit("tab_width");
    assert("tab_width"@ =~= seq!['t', 'a', 'b', '_', 'w', 'i', 'd', 't', 'h']);
}

proof fn lemma_word_sidebar_collapsed()
    ensures
        "sidebar_collapsed"@ == seq!['s', 'i', 'd', 'e', 'b', 'a', 'r', '_', 'c', 'o', 'l', 'l', 'a', 'p', 's', 'e', 'd'],
        is_plain_word("sidebar_collapsed"@),
{
    reveal_strlit("sidebar_collapsed");
    assert("sidebar_collapsed"@ =~= seq!['s', 'i', 'd', 'e', 'b', 'a', 'r', '_', 'c', 'o', 'l', 'l', 'a', 'p', 's', 'e', 'd']);
}

proof fn lemma_word_tree()
    ensures
        "tree"@ == seq!['t', 'r', 'e', 'e'],
        is_plain_word("tree"@),
{
    reveal_strlit("tree");
    assert("tree"@ =~= seq!['t', 'r', 'e', 'e']);
}

proof fn lemma_word_modified()
    ensures
        "modified"@ == seq!['m', 'o', 'd', 'i', 'f', 'i', 'e', 'd'],
        is_plain_word("modified"@),
{
    reveal_strlit("modified");
    assert("modified"@ =~= seq!['m', 'o', 'd', 'i', 'f', 'i', 'e', 'd']);
}

proof fn lemma_word_size()
    ensures
        "size"@ == seq!['s', 'i', 'z', 'e'],
        is_plain_word("size"@),
{
    reveal_strlit("size");
    assert("size"@ =~= seq!['s', 'i', 'z', 'e']);
}

proof fn lemma_word_true()
    ensures
        "true"@ == seq!['t', 'r', 'u', 'e'],
        is_plain_word("true"@),
{
    reveal_strlit("true");
    assert("true"@ =~= seq!['t', 'r', 'u', 'e']);
}

proof fn lemma_word_false()
    ensures
        "false"@ == seq!['f', 'a', 'l', 's', 'e'],
        is_plain_word("false"@),
{
    reveal_strlit("false");
    assert("false"@ =~= seq!['f', 'a', 'l', 's', 'e']);
}

proof fn lemma_word_working()
    ensures
        "working"@ == seq!['w', 'o', 'r', 'k', 'i', 'n', 'g'],
        is_plain_word("working"@),
{
    reveal_strlit("working");
    assert("working"@ =~= seq!['w', 'o', 'r', 'k', 'i', 'n', 'g']);
}

proof fn lemma_word_base()
    ensures
        "base"@ == seq!['b', 'a', 's', 'e'],
        is_plain_word("base"@),
{
    reveal_strlit("base");
    assert("base"@ =~= seq!['b', 'a', 's', 'e']);
}

/// A number in decimal has no surrounding whitespace.
pub proof fn lemma_number_trims(n: nat)
    ensures
        txt::trimmed(txt::decimal(n)) == txt::decimal(n),
{
    lemma_decimal_plain(n);
    lemma_plain_word(txt::decimal(n));
    lemma_trimmed(txt::decimal(n));
}

/// The keys are plain words, and no two of them are the same.
proof fn lemma_keys()
    ensures
        is_plain_word("sort_field"@),
        is_plain_word("sort_desc"@),
        is_plain_word("theme"@),
        is_plain_word("diff_mode"@),
        is_plain_word("split_pct"@),
        is_plain_word("follow"@),
        is_plain_word("auto_update"@),
        is_plain_word("tab_width"@),
        is_plain_word("sidebar_collapsed"@),
        "sort_desc"@ != "sort_field"@,
        "theme"@ != "sort_field"@,
        "theme"@ != "sort_desc"@,
        "diff_mode"@ != "sort_field"@,
        "diff_mode"@ != "sort_desc"@,
        "diff_mode"@ != "theme"@,
        "split_pct"@ != "sort_field"@,
        "split_pct"@ != "sort_desc"@,
        "split_pct"@ != "theme"@,
        "split_pct"@ != "diff_mode"@,
        "follow"@ != "sort_field"@,
        "follow"@ != "sort_desc"@,
        "follow"@ != "theme"@,
        "follow"@ != "diff_mode"@,
        "follow"@ != "split_pct"@,
        "auto_update"@ != "sort_field"@,
        "auto_update"@ != "sort_desc"@,
        "auto_update"@ != "theme"@,
        "auto_update"@ != "diff_mode"@,
        "auto_update"@ != "split_pct"@,
        "auto_update"@ != "follow"@,
        "tab_width"@ != "sort_field"@,
        "tab_width"@ != "sort_desc"@,
        "tab_width"@ != "theme"@,
        "tab_width"@ != "diff_mode"@,
        "tab_width"@ != "split_pct"@,
        "tab_width"@ != "follow"@,
        "tab_width"@ != "auto_update"@,
        "sidebar_collapsed"@ != "sort_field"@,
        "sidebar_collapsed"@ != "sort_desc"@,
        "sidebar_collapsed"@ != "theme"@,
        "sidebar_collapsed"@ != "diff_mode"@,
        "sidebar_collapsed"@ != "split_pct"@,
        "sidebar_collapsed"@ != "follow"@,
        "sidebar_collapsed"@ != "auto_update"@,
        "sidebar_collapsed"@ != "tab_width"@,
{
    lemma_word_sort_field();
    lemma_word_sort_desc();
    lemma_word_theme();
    lemma_word_diff_mode();
    lemma_word_split_pct();
    lemma_word_follow();
    lemma_word_auto_update();
    lemma_word_tab_width();
    lemma_word_sidebar_collapsed();
    assert("sort_desc"@.len() != "sort_field"@.len());
    assert("theme"@.len() != "sort_field"@.len());
    assert("theme"@.len() != "sort_desc"@.len());
    assert("diff_mode"@.len() != "sort_field"@.len());
    assert("diff_mode"@[0] != "sort_desc"@[0]);
    assert("diff_mode"@.len() != "theme"@.len());
    assert("split_pct"@.len() != "sort_field"@.len());
    assert("split_pct"@[1] != "sort_desc"@[1]);
    assert("split_pct"@.len() != "theme"@.len());
    assert("split_pct"@[0] != "diff_mode"@[0]);
    assert("follow"@.len() != "sort_field"@.len());
    assert("follow"@.len() != "sort_desc"@.len());
    assert("follow"@.len() != "theme"@.len());
    assert("follow"@.len() != "diff_mode"@.len());
    assert("follow"@.len() != "split_pct"@.len());
    assert("auto_update"@.len() != "sort_field"@.len());
    assert("auto_update"@.len() != "sort_desc"@.len());
    assert("auto_update"@.len() != "theme"@.len());
    assert("auto_update"@.len() != "diff_mode"@.len());
    assert("auto_update"@.len() != "split_pct"@.len());
    assert("auto_update"@.len() != "follow"@.len());
    assert("tab_width"@.len() != "sort_field"@.len());
    assert("tab_width"@[0] != "sort_desc"@[0]);
    assert("tab_width"@.len() != "theme"@.len());
    assert("tab_width"@[0] != "diff_mode"@[0]);
    assert("tab_width"@[0] != "split_pct"@[0]);
    assert("tab_width"@.len() != "follow"@.len());
    assert("tab_width"@.len() != "auto_update"@.len());
    assert("sidebar_collapsed"@.len() != "sort_field"@.len());
    assert("sidebar_collapsed"@.len() != "sort_desc"@.len());
    assert("sidebar_collapsed"@.len() != "theme"@.len());
    assert("sidebar_collapsed"@.len() != "diff_mode"@.len());
    assert("sidebar_collapsed"@.len() != "split_pct"@.len());
    assert("sidebar_collapsed"@.len() != "follow"@.len());
    assert("sidebar_collapsed"@.len() != "auto_update"@.len());
    assert("sidebar_collapsed"@.len() != "tab_width"@.len());
}

/// The values that are not numbers or themes are plain words, and tell apart what
/// they stand for.
proof fn lemma_values(field: SortField, mode: DiffMode, b: bool)
    ensures
        is_plain_word(sort::field_name(field)),
        is_plain_word(config::mode_name(mode)),
        is_plain_word(config::bool_text(b)),
        config::named_mode(config::mode_name(mode)) == Some(mode),
        (config::bool_text(b) == "true"@) == b,
        (config::bool_text(b) != "false"@) == b,
{
    lemma_word_tree();
    lemma_word_modified();
    lemma_word_size();
    lemma_word_true();
    lemma_word_false();
    lemma_word_working();
    lemma_word_base();
    assert("true"@.len() != "false"@.len());
    assert("working"@.len() != "base"@.len());
}

// --- the round trip ------------------------------------------------------------

/// Whether the settings can be persisted as they are: the split is within its range,
/// and a theme is one line of text without surrounding whitespace.
pub open spec fn persistable(c: Settings) -> bool {
    &&& 15 <= c.split_pct <= 85
    &&& c.theme matches Some(t) ==> t.len() > 0 && fits_a_line(t)
}

/// Whether a written setting stays on its line and is read back as it is.
spec fn sound(s: (Seq<char>, Seq<char>)) -> bool {
    is_plain_word(s.0) && fits_a_line(s.1)
}

proof fn lemma_setting_line(s: (Seq<char>, Seq<char>))
    requires
        sound(s),
    ensures
        !config::setting_line(s).contains('\n'),
        txt::without_cr(config::setting_line(s)) == config::setting_line(s),
        txt::cut(config::setting_line(s), '=') == Some((s.0, s.1)),
        txt::trimmed(s.0) == s.0,
        txt::trimmed(s.1) == s.1,
{
    lemma_plain_word(s.0);
    lemma_cut(s.0, s.1, '=');
    lemma_trimmed(s.0);
    lemma_trimmed(s.1);
    let line = config::setting_line(s);
    assert forall|i: int| 0 <= i < line.len() implies line[i] != '\n' by {
        if i < s.0.len() {
            assert(s.0.contains(s.0[i]));
        } else if i > s.0.len() {
            assert(s.1.contains(s.1[i - s.0.len() - 1]));
        }
    }
    if s.1.len() > 0 {
        assert(line.last() == s.1.last());
    } else {
        assert(line.last() == '=');
    }
}

/// The lines of the first `n` settings.
spec fn lines_upto(list: Seq<(Seq<char>, Seq<char>)>, n: int) -> Seq<Seq<char>>
    decreases n,
{
    if n <= 0 {
        Seq::empty()
    } else {
        lines_upto(list, n - 1).push(config::setting_line(list[n - 1]))
    }
}

proof fn lemma_lines_upto(list: Seq<(Seq<char>, Seq<char>)>, n: int)
    requires
        0 <= n <= list.len(),
    ensures
        lines_upto(list, n).len() == n,
        forall|i: int| 0 <= i < n ==> #[trigger] lines_upto(list, n)[i] == config::setting_line(list[i]),
    decreases n,
{
    if n > 0 {
        lemma_lines_upto(list, n - 1);
    }
}

/// What was written splits into the lines that were written.
proof fn lemma_written(list: Seq<(Seq<char>, Seq<char>)>, n: int)
    requires
        1 <= n <= list.len(),
        forall|i: int| 0 <= i < list.len() ==> sound(#[trigger] list[i]),
    ensures
        config::written_upto(list, n).len() > 0,
        config::written_upto(list, n).last() == '\n',
        txt::split(config::written_upto(list, n).drop_last(), '\n') == lines_upto(list, n),
    decreases n,
{
    let w = config::written_upto(list, n);
    let before = config::written_upto(list, n - 1);
    let line = config::setting_line(list[n - 1]);
    lemma_setting_line(list[n - 1]);
    txt::lemma_split_one(line, '\n');
    let all = lines_upto(list, n);
    if n == 1 {
        assert(lines_upto(list, 0) =~= Seq::<Seq<char>>::empty());
        assert(before =~= Seq::<char>::empty());
        assert(w.drop_last() =~= line);
        assert(all =~= seq![line]);
    } else {
        lemma_written(list, n - 1);
        assert(w.drop_last() =~= before + line);
        assert(before.drop_last().push('\n') =~= before);
        txt::lemma_split_join(before.drop_last(), line, '\n');
        assert(all =~= txt::split(before.drop_last(), '\n') + seq![line]);
    }
}

proof fn lemma_lines(list: Seq<(Seq<char>, Seq<char>)>)
    requires
        list.len() > 0,
        forall|i: int| 0 <= i < list.len() ==> sound(#[trigger] list[i]),
    ensures
        txt::lines(config::written_upto(list, list.len() as int)) == lines_upto(
            list,
            list.len() as int,
        ),
{
    let n = list.len() as int;
    let w = config::written_upto(list, n);
    lemma_written(list, n);
    let body = w.drop_last();
    let nothing = Seq::<char>::empty();
    assert(body.push('\n') + nothing =~= w);
    txt::lemma_split_join(body, nothing, '\n');
    txt::lemma_split_one(nothing, '\n');
    let all = lines_upto(list, n);
    lemma_lines_upto(list, n);
    assert(txt::split(w, '\n') == all + seq![nothing]);
    assert((all + seq![nothing]).drop_last() =~= all);
    assert forall|i: int| 0 <= i < all.len() implies txt::without_cr(#[trigger] all[i])
        == all[i] by {
        lemma_setting_line(list[i]);
    }
    assert(all.map_values(|p: Seq<char>| txt::without_cr(p)) =~= all);
}

/// Reading back one written setting.
proof fn lemma_read_line(c: Settings, s: (Seq<char>, Seq<char>))
    requires
        sound(s),
    ensures
        config::with_line(c, config::setting_line(s)) == config::with_setting(c, s.0, s.1),
{
    lemma_setting_line(s);
}

/// The settings that the next run starts with: a tab width for one run gives way to the
/// one to persist.
pub open spec fn next_run(c: Settings) -> Settings {
    Settings { tab_width: config::kept_tab_width(c), saved_tab_width: None, ..c }
}

/// Reading the settings that were written gives them back, with the tab width that was to
/// be persisted.
pub proof fn law_settings_round_trip(c: Settings)
    requires
        persistable(c),
    ensures
        config::read_settings(config::config_text(c)) == next_run(c),
        c.saved_tab_width is None ==> config::read_settings(config::config_text(c)) == c,
{
    let list = config::written_settings(c);
    lemma_keys();
    lemma_values(c.sort_field, c.diff_mode, c.sort_desc);
    lemma_values(c.sort_field, c.diff_mode, c.follow);
    lemma_values(c.sort_field, c.diff_mode, c.auto_update);
    lemma_values(c.sort_field, c.diff_mode, c.sidebar_collapsed);
    sort_laws::law_field_keys_round_trip(c.sort_field);
    lemma_decimal_plain(c.split_pct as nat);
    lemma_decimal_plain(config::kept_tab_width(c) as nat);
    txt::law_decimal_round_trip(c.split_pct as nat, u16::MAX as nat);
    txt::law_decimal_round_trip(config::kept_tab_width(c) as nat, u16::MAX as nat);
    assert forall|i: int| 0 <= i < list.len() implies sound(#[trigger] list[i]) by {
        if list[i].1.len() > 0 && i != 2 {
            lemma_plain_word(list[i].1);
        }
    }
    lemma_lines(list);
    let lines = lines_upto(list, 9);
    lemma_lines_upto(list, 9);
    assert(txt::lines(config::config_text(c)) == lines);
    assert(lines.len() == 9);
    reveal_with_fuel(config::read_upto, 10);
    let c0 = config::read_upto(lines, 0);
    lemma_read_line(c0, list[0]);
    assert(lines[0] == config::setting_line(list[0]));
    let c1 = config::read_upto(lines, 1);
    lemma_read_line(c1, list[1]);
    assert(lines[1] == config::setting_line(list[1]));
    let c2 = config::read_upto(lines, 2);
    lemma_read_line(c2, list[2]);
    assert(lines[2] == config::setting_line(list[2]));
    let c3 = config::read_upto(lines, 3);
    lemma_read_line(c3, list[3]);
    assert(lines[3] == config::setting_line(list[3]));
    let c4 = config::read_upto(lines, 4);
    lemma_read_line(c4, list[4]);
    assert(lines[4] == config::setting_line(list[4]));
    let c5 = config::read_upto(lines, 5);
    lemma_read_line(c5, list[5]);
    assert(lines[5] == config::setting_line(list[5]));
    let c6 = config::read_upto(lines, 6);
    lemma_read_line(c6, list[6]);
    assert(lines[6] == config::setting_line(list[6]));
    let c7 = config::read_upto(lines, 7);
    lemma_read_line(c7, list[7]);
    assert(lines[7] == config::setting_line(list[7]));
    let c8 = config::read_upto(lines, 8);
    lemma_read_line(c8, list[8]);
    assert(lines[8] == config::setting_line(list[8]));
    assert(config::read_upto(lines, 9) =~= next_run(c));
}

/// The pieces between the separators hold none.
proof fn lemma_pieces(s: Seq<char>, sep: char, i: int)
    requires
        0 <= i < txt::split(s, sep).len(),
    ensures
        !txt::split(s, sep)[i].contains(sep),
    decreases s.len(),
{
    if s.len() > 0 {
        let rest = txt::split(s.skip(1), sep);
        txt::lemma_split_nonempty(s.skip(1), sep);
        if s[0] == sep {
            if i > 0 {
                lemma_pieces(s.skip(1), sep, i - 1);
            }
        } else {
            lemma_pieces(s.skip(1), sep, i);
            if i == 0 {
                let piece = seq![s[0]] + rest[0];
                assert forall|k: int| 0 <= k < piece.len() implies piece[k] != sep by {
                    if k > 0 {
                        assert(rest[0].contains(rest[0][k - 1]));
                    }
                }
            }
        }
    }
}

proof fn lemma_line(text: Seq<char>, i: int)
    requires
        0 <= i < txt::lines(text).len(),
    ensures
        !txt::lines(text)[i].contains('\n'),
{
    let parts = txt::split(text, '\n');
    lemma_pieces(text, '\n', i);
    let line = txt::lines(text)[i];
    if i < parts.len() - 1 {
        assert(line == txt::without_cr(parts[i]));
    }
    assert forall|k: int| 0 <= k < line.len() implies line[k] != '\n' by {
        assert(parts[i].contains(parts[i][k]));
    }
}

proof fn lemma_trimmed_start_within(s: Seq<char>)
    requires
        !s.contains('\n'),
    ensures
        !txt::trimmed_start(s).contains('\n'),
        txt::trimmed_start(s).len() > 0 ==> !txt::is_space(txt::trimmed_start(s)[0]),
    decreases s.len(),
{
    if s.len() > 0 && txt::is_space(s[0]) {
        assert forall|k: int| 0 <= k < s.skip(1).len() implies s.skip(1)[k] != '\n' by {
            assert(s.contains(s[k + 1]));
        }
        lemma_trimmed_start_within(s.skip(1));
    }
}

proof fn lemma_trimmed_end_within(s: Seq<char>)
    requires
        !s.contains('\n'),
        s.len() > 0 ==> !txt::is_space(s[0]),
    ensures
        fits_a_line(txt::trimmed_end(s)),
    decreases s.len(),
{
    if s.len() > 0 && txt::is_space(s.last()) {
        assert forall|k: int| 0 <= k < s.drop_last().len() implies s.drop_last()[k] != '\n' by {
            assert(s.contains(s[k]));
        }
        lemma_trimmed_end_within(s.drop_last());
    }
}

proof fn lemma_read_within(text: Seq<char>, n: int)
    requires
        0 <= n <= txt::lines(text).len(),
    ensures
        persistable(config::read_upto(txt::lines(text), n)),
        config::read_upto(txt::lines(text), n).saved_tab_width is None,
    decreases n,
{
    if n > 0 {
        lemma_read_within(text, n - 1);
        let line = txt::lines(text)[n - 1];
        lemma_line(text, n - 1);
        if let Some((key, value)) = txt::cut(line, '=') {
            txt::lemma_find_from(line, seq!['='], 0);
            let k = txt::find_from(line, seq!['='], 0)->0;
            assert(txt::occurs_at(line, seq!['='], k));
            assert forall|j: int| 0 <= j < value.len() implies value[j] != '\n' by {
                assert(line.contains(line[k + 1 + j]));
            }
            lemma_trimmed_start_within(value);
            lemma_trimmed_end_within(txt::trimmed_start(value));
        }
    }
}

/// Whatever is read can be persisted: the split is within its range, and a theme
/// is one line of text. So what is read, written and read again stays the same.
pub proof fn law_what_is_read_persists(text: Seq<char>)
    ensures
        persistable(config::read_settings(text)),
        config::read_settings(config::config_text(config::read_settings(text)))
            == config::read_settings(text),
{
    lemma_read_within(text, txt::lines(text).len() as int);
    law_settings_round_trip(config::read_settings(text));
}

/// A number of spaces per tab on the command line is for a run: what is persisted is as
/// without it, however often it is given.
pub proof fn law_tabs_are_for_a_run(
    c: Settings,
    theme: Option<Seq<char>>,
    tabs: Option<u16>,
    again: Option<u16>,
)
    ensures
        config::config_text(config::with_flags(c, theme, tabs)) == config::config_text(
            config::with_flags(c, theme, None),
        ),
        config::kept_tab_width(config::with_flags(c, theme, tabs)) == config::kept_tab_width(c),
        config::with_flags(config::with_flags(c, theme, tabs), None, again)
            == config::with_flags(
            c,
            theme,
            if again is Some {
                again
            } else {
                tabs
            },
        ),
{
}

// --- what each setting says ----------------------------------------------------------------

/// What a first run starts with.
pub proof fn law_defaults()
    ensures
        ({
            let c = config::read_settings(Seq::empty());
            &&& c.sort_field == SortField::Tree && !c.sort_desc
            &&& c.theme is None
            &&& c.diff_mode == DiffMode::Working
            &&& c.split_pct == 30
            &&& !c.follow && c.auto_update
            &&& c.tab_width == 4 && c.saved_tab_width is None
            &&& !c.sidebar_collapsed
        }),
{
    let nothing = Seq::<char>::empty();
    txt::lemma_split_one(nothing, '\n');
    assert(txt::lines(nothing) =~= Seq::<Seq<char>>::empty());
}

proof fn lemma_read_start(a: Seq<Seq<char>>, b: Seq<Seq<char>>, n: int)
    requires
        n <= a.len(),
        n <= b.len(),
        forall|i: int| 0 <= i < n ==> #[trigger] a[i] == b[i],
    ensures
        config::read_upto(a, n) == config::read_upto(b, n),
    decreases n,
{
    if n > 0 {
        lemma_read_start(a, b, n - 1);
        assert(a[n - 1] == b[n - 1]);
    }
}

/// Settings are read line by line, later lines over earlier ones; a line is a key, `=` and
/// a value, blanks around them do not count, and any other line says nothing.
pub proof fn law_settings_are_read_line_by_line(
    before: Seq<char>,
    key: Seq<char>,
    value: Seq<char>,
    other: Seq<char>,
)
    requires
        before.len() == 0 || before.last() == '\n',
        forall|i: int| 0 <= i < key.len() ==> #[trigger] key[i] != '\n' && key[i] != '=',
        forall|i: int| 0 <= i < value.len() ==> #[trigger] value[i] != '\n',
        value.len() > 0 ==> value.last() != '\r',
        forall|i: int| 0 <= i < other.len() ==> #[trigger] other[i] != '\n' && other[i] != '=',
        other.len() > 0 ==> other.last() != '\r',
    ensures
        config::read_settings(before + (key.push('=') + value).push('\n')) == config::with_setting(
            config::read_settings(before),
            txt::trimmed(key),
            txt::trimmed(value),
        ),
        config::read_settings(before + other.push('\n')) == config::read_settings(before),
{
    let line = key.push('=') + value;
    assert forall|i: int| 0 <= i < line.len() implies #[trigger] line[i] != '\n' by {
        if i < key.len() {
            assert(line[i] == key[i]);
        } else if i > key.len() {
            assert(line[i] == value[i - key.len() - 1]);
        }
    }
    if value.len() > 0 {
        assert(line.last() == value.last());
    } else {
        assert(line.last() == '=');
    }
    assert forall|i: int| 0 <= i < key.len() implies #[trigger] key[i] != '=' by {
        assert(key[i] != '\n');
    }
    assert forall|i: int| 0 <= i < other.len() implies #[trigger] other[i] != '=' by {
        assert(other[i] != '\n');
    }
    assert forall|i: int| 0 <= i < other.len() implies #[trigger] other[i] != '\n' by {
        assert(other[i] != '=');
    }
    crate::text_laws::law_lines(before, line);
    crate::text_laws::law_lines(before, other);
    crate::text_laws::law_cutting(key, '=', value);
    crate::text_laws::law_cutting(other, '=', value);
    let p = txt::lines(before);
    let n = p.len() as int;
    let q = p.push(line);
    assert forall|i: int| 0 <= i < n implies #[trigger] q[i] == p[i] by {}
    lemma_read_start(q, p, n);
    assert(q[n] == line);
    let r = p.push(other);
    assert forall|i: int| 0 <= i < n implies #[trigger] r[i] == p[i] by {}
    lemma_read_start(r, p, n);
    assert(r[n] == other);
}

/// What each key sets: itself and nothing else; a value that makes no sense for it changes
/// nothing, and neither does an unknown key.
pub proof fn law_what_keys_set(c: Settings, value: Seq<char>, n: nat, unknown: Seq<char>)
    requires
        n <= u16::MAX,
    ensures
        config::with_setting(c, "sort_desc"@, value) == (Settings {
            sort_desc: value == "true"@,
            ..c
        }),
        config::with_setting(c, "follow"@, value) == (Settings { follow: value == "true"@, ..c }),
        config::with_setting(c, "auto_update"@, value) == (Settings {
            auto_update: value != "false"@,
            ..c
        }),
        config::with_setting(c, "sidebar_collapsed"@, value) == (Settings {
            sidebar_collapsed: value == "true"@,
            ..c
        }),
        value.len() > 0 ==> config::with_setting(c, "theme"@, value) == (Settings {
            theme: Some(value),
            ..c
        }),
        config::with_setting(c, "theme"@, Seq::empty()) == (Settings { theme: None, ..c }),
        config::with_setting(c, "tab_width"@, txt::decimal(n)) == (Settings {
            tab_width: n as u16,
            ..c
        }),
        15 <= n <= 85 ==> config::with_setting(c, "split_pct"@, txt::decimal(n)) == (Settings {
            split_pct: n as u16,
            ..c
        }),
        n < 15 ==> config::with_setting(c, "split_pct"@, txt::decimal(n)).split_pct == 15,
        n > 85 ==> config::with_setting(c, "split_pct"@, txt::decimal(n)).split_pct == 85,
        txt::parsed(value, u16::MAX as nat) is None ==> config::with_setting(c, "tab_width"@, value)
            == c && config::with_setting(c, "split_pct"@, value) == c,
        config::with_setting(c, "sort_field"@, "tree"@) == (Settings {
            sort_field: SortField::Tree,
            ..c
        }),
        config::with_setting(c, "sort_field"@, "modified"@) == (Settings {
            sort_field: SortField::Modified,
            ..c
        }),
        config::with_setting(c, "sort_field"@, "size"@) == (Settings {
            sort_field: SortField::Size,
            ..c
        }),
        config::with_setting(c, "diff_mode"@, "working"@) == (Settings {
            diff_mode: DiffMode::Working,
            ..c
        }),
        config::with_setting(c, "diff_mode"@, "base"@) == (Settings {
            diff_mode: DiffMode::BaseBranch,
            ..c
        }),
        unknown != "sort_field"@ && unknown != "sort_desc"@ && unknown != "theme"@ && unknown
            != "diff_mode"@ && unknown != "split_pct"@ && unknown != "follow"@ && unknown
            != "auto_update"@ && unknown != "tab_width"@ && unknown != "sidebar_collapsed"@
            ==> config::with_setting(c, unknown, value) == c,
{
    lemma_keys();
    txt::law_decimal_round_trip(n, u16::MAX as nat);
    sort_laws::law_field_keys_round_trip(SortField::Tree);
    sort_laws::law_field_keys_round_trip(SortField::Modified);
    sort_laws::law_field_keys_round_trip(SortField::Size);
    lemma_values(SortField::Tree, DiffMode::Working, true);
    lemma_values(SortField::Tree, DiffMode::BaseBranch, true);
}

/// The diff modes are each other's other.
pub proof fn law_modes()
    ensures
        config::other_mode(DiffMode::Working) == DiffMode::BaseBranch,
        config::other_mode(DiffMode::BaseBranch) == DiffMode::Working,
        config::mode_name(DiffMode::Working) == "working"@,
        config::mode_name(DiffMode::BaseBranch) == "base"@,
{
}

/// The settings are written under their names, one to a line, in this order.
pub proof fn law_how_settings_are_written(c: Settings)
    ensures
        ({
            let list = config::written_settings(c);
            &&& list.len() == 9
            &&& list[0].0 == "sort_field"@ && list[0].1 == sort::field_name(c.sort_field)
            &&& list[1].0 == "sort_desc"@
            &&& list[2].0 == "theme"@ && (c.theme is Some ==> list[2].1 == c.theme->0) && (
            c.theme is None ==> list[2].1.len() == 0)
            &&& list[3].0 == "diff_mode"@
            &&& list[4].0 == "split_pct"@ && list[4].1 == txt::decimal(c.split_pct as nat)
            &&& list[5].0 == "follow"@
            &&& list[6].0 == "auto_update"@
            &&& list[7].0 == "tab_width"@
            &&& list[8].0 == "sidebar_collapsed"@
            &&& c.sort_desc ==> list[1].1 == "true"@
            &&& !c.sort_desc ==> list[1].1 == "false"@
            &&& c.follow ==> list[5].1 == "true"@
            &&& !c.follow ==> list[5].1 == "false"@
            &&& c.auto_update ==> list[6].1 == "true"@
            &&& !c.auto_update ==> list[6].1 == "false"@
            &&& c.sidebar_collapsed ==> list[8].1 == "true"@
            &&& !c.sidebar_collapsed ==> list[8].1 == "false"@
        }),
{
}

/// A command line's theme replaces the saved one; its tab width is used, up to 16; without
/// them nothing changes.
pub proof fn law_flags(c: Settings, theme: Seq<char>, tabs: u16)
    ensures
        config::with_flags(c, None, None) == c,
        config::with_flags(c, Some(theme), None) == (Settings { theme: Some(theme), ..c }),
        tabs <= 16 ==> config::with_flags(c, None, Some(tabs)).tab_width == tabs,
        tabs > 16 ==> config::with_flags(c, None, Some(tabs)).tab_width == 16,
        config::with_flags(c, None, Some(tabs)).theme == c.theme,
        c.saved_tab_width is None ==> config::kept_tab_width(c) == c.tab_width,
        c.saved_tab_width is Some ==> config::kept_tab_width(c) == c.saved_tab_width->0,
{
}

} // verus!
