//! What holds of content search as a whole.

use vstd::prelude::*;
use crate::txt;
use crate::search;
use crate::search::{Body, LineKind, Scope};

verus! {

/// Stripped text holds no escape character.
pub proof fn law_stripped_text_has_no_escape(s: Seq<char>)
    ensures
        !search::plain_text(s).contains('\u{1b}'),
    decreases s.len(),
{
    if s.len() == 0 {
    } else if s[0] != '\u{1b}' {
        law_stripped_text_has_no_escape(s.skip(1));
        let rest = search::plain_text(s.skip(1));
        let all = search::plain_text(s);
        assert forall|i: int| 0 <= i < all.len() implies all[i] != '\u{1b}' by {
            if i > 0 {
                assert(all[i] == rest[i - 1]);
                assert(rest.contains(rest[i - 1]));
            }
        }
    } else if s.len() == 1 {
    } else if s[1] == '[' {
        search::lemma_after_csi_len(s.skip(2));
        law_stripped_text_has_no_escape(search::after_csi(s.skip(2)));
    } else {
        law_stripped_text_has_no_escape(s.skip(2));
    }
}

/// Text without escape characters is left as it is.
pub proof fn law_plain_text_is_kept(s: Seq<char>)
    requires
        !s.contains('\u{1b}'),
    ensures
        search::plain_text(s) == s,
    decreases s.len(),
{
    if s.len() > 0 {
        assert(s.contains(s[0]));
        assert forall|c: char| s.skip(1).contains(c) implies s.contains(c) by {
            let i = choose|i: int| 0 <= i < s.skip(1).len() && s.skip(1)[i] == c;
            assert(s[i + 1] == c);
        }
        law_plain_text_is_kept(s.skip(1));
        assert(seq![s[0]] + s.skip(1) =~= s);
    }
}

/// Stripping twice is stripping once.
pub proof fn law_stripping_is_idempotent(s: Seq<char>)
    ensures
        search::plain_text(search::plain_text(s)) == search::plain_text(s),
{
    law_stripped_text_has_no_escape(s);
    law_plain_text_is_kept(search::plain_text(s));
}

/// The search box never holds a content needle and a filename query at once.
pub proof fn law_query_is_never_both(q: Seq<char>)
    ensures
        search::content_needle(q) is Some ==> search::filename_query(q).len() == 0,
{
}

/// Context lines never match, whatever the scope: a diff with a match has an
/// added or deleted line with that match.
pub proof fn law_only_changed_lines_match(
    body: Seq<Body>,
    needle: Seq<char>,
    scope: Scope,
    n: int,
)
    requires
        0 <= n <= body.len(),
        search::count_upto(body, needle, scope, n) > 0,
    ensures
        exists|i: int|
            0 <= i < n && (#[trigger] body[i]).kind != LineKind::Context && search::smart_hits(
                body[i].text,
                needle,
            ).len() > 0,
    decreases n,
{
    if n > 0 {
        if search::scope_admits(scope, body[n - 1].kind) && search::smart_hits(
            body[n - 1].text,
            needle,
        ).len() > 0 {
            assert(body[n - 1].kind != LineKind::Context);
        } else {
            law_only_changed_lines_match(body, needle, scope, n - 1);
        }
    }
}

proof fn lemma_scopes_add_up(body: Seq<Body>, needle: Seq<char>, n: int)
    ensures
        search::count_upto(body, needle, Scope::Both, n) == search::count_upto(
            body,
            needle,
            Scope::Add,
            n,
        ) + search::count_upto(body, needle, Scope::Del, n),
    decreases n,
{
    if n > 0 {
        lemma_scopes_add_up(body, needle, n - 1);
    }
}

/// A search of both kinds finds what a search of the added lines and a search
/// of the deleted lines find together.
pub proof fn law_scopes_add_up(raw: Seq<char>, needle: Seq<char>)
    ensures
        search::match_count(raw, needle, Scope::Both) == search::match_count(
            raw,
            needle,
            Scope::Add,
        ) + search::match_count(raw, needle, Scope::Del),
{
    lemma_scopes_add_up(search::diff_body(raw), needle, search::diff_body(raw).len() as int);
}

/// Cycling the scope three times comes back to it.
pub proof fn law_scope_cycle(s: Scope)
    ensures
        search::next_scope(search::next_scope(search::next_scope(s))) == s,
        search::next_scope(s) != s,
{
}

/// Every hit is a match of the needle's length, and hits are in increasing order.
pub proof fn law_hits_are_matches(
    hay: Seq<char>,
    needle: Seq<char>,
    exact: bool,
    end: int,
    i: int,
)
    requires
        hay.len() <= usize::MAX,
        0 <= i < search::hits_before(hay, needle, exact, end).len(),
    ensures
        ({
            let list = search::hits_before(hay, needle, exact, end);
            &&& list[i].1 == list[i].0 + needle.len()
            &&& list[i].0 < end
            &&& search::matches_at(hay, needle, exact, list[i].0 as int)
            &&& forall|j: int| 0 <= j < i ==> (#[trigger] list[j]).0 < list[i].0
        }),
    decreases end,
{
    if end > 0 {
        let list = search::hits_before(hay, needle, exact, end);
        let before = search::hits_before(hay, needle, exact, end - 1);
        if i < before.len() {
            law_hits_are_matches(hay, needle, exact, end - 1, i);
            assert forall|j: int| 0 <= j < i implies (#[trigger] list[j]).0 < list[i].0 by {
                assert(list[j] == before[j]);
            }
        } else {
            assert forall|j: int| 0 <= j < i implies (#[trigger] list[j]).0 < list[i].0 by {
                law_hits_are_matches(hay, needle, exact, end - 1, j);
                assert(list[j] == before[j]);
            }
        }
    }
}

/// Every place where the needle matches is a hit.
pub proof fn law_every_match_is_a_hit(
    hay: Seq<char>,
    needle: Seq<char>,
    exact: bool,
    end: int,
    start: int,
)
    requires
        hay.len() <= usize::MAX,
        0 <= start < end <= hay.len(),
        search::matches_at(hay, needle, exact, start),
    ensures
        search::hits_before(hay, needle, exact, end).contains(
            (start as usize, (start + needle.len()) as usize),
        ),
    decreases end,
{
    let list = search::hits_before(hay, needle, exact, end);
    let before = search::hits_before(hay, needle, exact, end - 1);
    let hit = (start as usize, (start + needle.len()) as usize);
    if start == end - 1 {
        assert(list[before.len() as int] == hit);
    } else {
        law_every_match_is_a_hit(hay, needle, exact, end - 1, start);
        let k = choose|k: int| 0 <= k < before.len() && before[k] == hit;
        assert(list[k] == hit);
    }
}

proof fn lemma_hits_ignore_case(a: Seq<char>, b: Seq<char>, needle: Seq<char>, end: int)
    requires
        txt::ascii_lowered(a) == txt::ascii_lowered(b),
    ensures
        search::hits_before(a, needle, false, end) == search::hits_before(b, needle, false, end),
    decreases end,
{
    assert(a.len() == txt::ascii_lowered(a).len() && b.len() == txt::ascii_lowered(b).len());
    if end > 0 {
        lemma_hits_ignore_case(a, b, needle, end - 1);
        assert forall|i: int| 0 <= i < a.len() implies txt::ascii_lower(#[trigger] a[i])
            == txt::ascii_lower(b[i]) by {
            assert(txt::ascii_lowered(a)[i] == txt::ascii_lower(a[i]));
            assert(txt::ascii_lowered(b)[i] == txt::ascii_lower(b[i]));
        }
        assert forall|i: int| 0 <= i < b.len() implies txt::ascii_lower(#[trigger] b[i])
            == txt::ascii_lower(a[i]) by {
            assert(txt::ascii_lowered(a)[i] == txt::ascii_lower(a[i]));
            assert(txt::ascii_lowered(b)[i] == txt::ascii_lower(b[i]));
        }
        let x = search::matches_at(a, needle, false, end - 1);
        let y = search::matches_at(b, needle, false, end - 1);
        if x {
            assert forall|k: int| 0 <= k < needle.len() implies search::chars_match(
                #[trigger] b[end - 1 + k],
                needle[k],
                false,
            ) by {
                assert(search::chars_match(a[end - 1 + k], needle[k], false));
            }
        }
        if y {
            assert forall|k: int| 0 <= k < needle.len() implies search::chars_match(
                #[trigger] a[end - 1 + k],
                needle[k],
                false,
            ) by {
                assert(search::chars_match(b[end - 1 + k], needle[k], false));
            }
        }
    }
}

/// A needle without upper-case characters finds the same places in texts that
/// differ only in ASCII case.
pub proof fn law_lowercase_needle_ignores_case(a: Seq<char>, b: Seq<char>, needle: Seq<char>)
    requires
        !txt::has_upper(needle),
        txt::ascii_lowered(a) == txt::ascii_lowered(b),
    ensures
        search::smart_hits(a, needle) == search::smart_hits(b, needle),
{
    assert(a.len() == txt::ascii_lowered(a).len() && b.len() == txt::ascii_lowered(b).len());
    lemma_hits_ignore_case(a, b, needle, a.len() as int);
}

/// A needle with an upper-case character is found only where it stands letter
/// for letter.
pub proof fn law_uppercase_needle_is_exact(hay: Seq<char>, needle: Seq<char>, i: int)
    requires
        hay.len() <= usize::MAX,
        txt::has_upper(needle),
        0 <= i < search::smart_hits(hay, needle).len(),
    ensures
        ({
            let h = search::smart_hits(hay, needle)[i];
            h.0 <= h.1 <= hay.len() && hay.subrange(h.0 as int, h.1 as int) == needle
        }),
{
    law_hits_are_matches(hay, needle, true, hay.len() as int, i);
    let h = search::smart_hits(hay, needle)[i];
    let cut = hay.subrange(h.0 as int, h.1 as int);
    assert forall|k: int| 0 <= k < needle.len() implies cut[k] == needle[k] by {
        assert(search::chars_match(hay[h.0 + k], needle[k], true));
    }
    assert(cut =~= needle);
}

pub proof fn lemma_cursor(body: Seq<Body>, rendered: Seq<Seq<char>>, tab_width: u16, n: int)
    ensures
        0 <= search::cursor_after(body, rendered, tab_width, n),
        search::cursor_after(body, rendered, tab_width, n) <= rendered.len(),
    decreases n,
{
    if n > 0 {
        lemma_cursor(body, rendered, tab_width, n - 1);
        search::lemma_anchor(
            rendered,
            search::expanded(body[n - 1].text, tab_width),
            search::cursor_after(body, rendered, tab_width, n - 1),
        );
    }
}

proof fn lemma_located_line(
    body: Seq<Body>,
    rendered: Seq<Seq<char>>,
    needle: Seq<char>,
    scope: Scope,
    tab_width: u16,
    n: int,
    i: int,
) -> (at: int)
    requires
        0 <= i < search::located_upto(body, rendered, needle, scope, tab_width, n).len(),
    ensures
        0 <= at < n,
        ({
            let list = search::located_upto(body, rendered, needle, scope, tab_width, n);
            let here = search::located_at(body, rendered, needle, scope, tab_width, at);
            exists|k: int| 0 <= k < here.len() && #[trigger] here[k] == list[i]
        }),
    decreases n,
{
    let before = search::located_upto(body, rendered, needle, scope, tab_width, n - 1);
    let list = search::located_upto(body, rendered, needle, scope, tab_width, n);
    let here = search::located_at(body, rendered, needle, scope, tab_width, n - 1);
    if i < before.len() {
        assert(list[i] == before[i]);
        lemma_located_line(body, rendered, needle, scope, tab_width, n - 1, i)
    } else {
        assert(here[i - before.len()] == list[i]);
        n - 1
    }
}

/// A located match that counts as aligned names columns of a rendered line in
/// which the needle really stands.
pub proof fn law_aligned_matches_show_the_needle(
    raw: Seq<char>,
    rendered: Seq<Seq<char>>,
    needle: Seq<char>,
    scope: Scope,
    tab_width: u16,
    i: int,
)
    requires
        forall|r: int| 0 <= r < rendered.len() ==> (#[trigger] rendered[r]).len() <= usize::MAX,
        rendered.len() <= usize::MAX,
        0 <= i < search::located_matches(raw, rendered, needle, scope, tab_width).len(),
        search::located_matches(raw, rendered, needle, scope, tab_width)[i].aligned,
    ensures
        ({
            let m = search::located_matches(raw, rendered, needle, scope, tab_width)[i];
            &&& m.line < rendered.len()
            &&& m.cols.1 == m.cols.0 + needle.len()
            &&& search::matches_at(
                rendered[m.line as int],
                needle,
                txt::has_upper(needle),
                m.cols.0 as int,
            )
        }),
{
    let body = search::diff_body(raw);
    let m = search::located_matches(raw, rendered, needle, scope, tab_width)[i];
    let at = lemma_located_line(
        body,
        rendered,
        needle,
        scope,
        tab_width,
        body.len() as int,
        i,
    );
    let here = search::located_at(body, rendered, needle, scope, tab_width, at);
    let k = choose|k: int| 0 <= k < here.len() && #[trigger] here[k] == m;
    let cursor = search::cursor_after(body, rendered, tab_width, at);
    let wide = search::expanded(body[at].text, tab_width);
    let exact = txt::has_upper(needle);
    lemma_cursor(body, rendered, tab_width, at);
    search::lemma_anchor(rendered, wide, cursor);
    let place = search::anchor(rendered, wide, cursor);
    let line = place->0;
    let shown = rendered[line];
    txt::lemma_find_from(shown, wide, 0);
    let gutter = txt::find_from(shown, wide, 0)->0;
    assert(txt::occurs_at(shown, wide, gutter));
    assert(shown.len() <= usize::MAX);
    law_hits_are_matches(wide, needle, exact, wide.len() as int, k);
    let h = search::admitted_hits(body[at], needle, scope, tab_width)[k];
    assert(m == search::located(body[at], rendered, tab_width, place, h));
    assert forall|j: int| 0 <= j < needle.len() implies search::chars_match(
        #[trigger] shown[m.cols.0 + j],
        needle[j],
        exact,
    ) by {
        assert(search::chars_match(wide[h.0 + j], needle[j], exact));
        assert(shown.subrange(gutter, gutter + wide.len())[h.0 + j] == wide[h.0 + j]);
    }
}

proof fn lemma_no_tabs(text: Seq<char>, with: Seq<char>)
    requires
        !text.contains('\t'),
    ensures
        txt::replaced(text, '\t', with) == text,
    decreases text.len(),
{
    if text.len() > 0 {
        assert(text.contains(text.last()));
        assert forall|c: char| text.drop_last().contains(c) implies text.contains(c) by {
            let i = choose|i: int| 0 <= i < text.drop_last().len() && text.drop_last()[i] == c;
            assert(text[i] == c);
        }
        lemma_no_tabs(text.drop_last(), with);
        assert(text.drop_last() + seq![text.last()] =~= text);
    }
}

proof fn lemma_located_count(
    body: Seq<Body>,
    rendered: Seq<Seq<char>>,
    needle: Seq<char>,
    scope: Scope,
    tab_width: u16,
    n: int,
)
    requires
        0 <= n <= body.len(),
        forall|i: int| 0 <= i < body.len() ==> !(#[trigger] body[i]).text.contains('\t'),
    ensures
        search::located_upto(body, rendered, needle, scope, tab_width, n).len()
            == search::count_upto(body, needle, scope, n),
    decreases n,
{
    if n > 0 {
        lemma_located_count(body, rendered, needle, scope, tab_width, n - 1);
        assert(!body[n - 1].text.contains('\t'));
        lemma_no_tabs(
            body[n - 1].text,
            txt::repeated(' ', if tab_width == 0 { 1 } else { tab_width as nat }),
        );
    }
}

/// Every counted match is located, aligned or not: on a diff whose body lines
/// hold no tabs, the located matches are as many as the counted ones.
pub proof fn law_every_match_is_located(
    raw: Seq<char>,
    rendered: Seq<Seq<char>>,
    needle: Seq<char>,
    scope: Scope,
    tab_width: u16,
)
    requires
        forall|i: int|
            0 <= i < search::diff_body(raw).len() ==> !(#[trigger] search::diff_body(
                raw,
            )[i]).text.contains('\t'),
    ensures
        search::located_matches(raw, rendered, needle, scope, tab_width).len()
            == search::match_count(raw, needle, scope),
{
    lemma_located_count(
        search::diff_body(raw),
        rendered,
        needle,
        scope,
        tab_width,
        search::diff_body(raw).len() as int,
    );
}

proof fn lemma_cursor_grows(
    body: Seq<Body>,
    rendered: Seq<Seq<char>>,
    tab_width: u16,
    a: int,
    b: int,
)
    requires
        0 <= a <= b,
    ensures
        search::cursor_after(body, rendered, tab_width, a) <= search::cursor_after(
            body,
            rendered,
            tab_width,
            b,
        ),
    decreases b,
{
    if a < b {
        lemma_cursor_grows(body, rendered, tab_width, a, b - 1);
        lemma_cursor(body, rendered, tab_width, b - 1);
        search::lemma_anchor(
            rendered,
            search::expanded(body[b - 1].text, tab_width),
            search::cursor_after(body, rendered, tab_width, b - 1),
        );
    }
}

/// Alignment only moves forward: a later body line anchors strictly below every
/// earlier one that has an anchor.
pub proof fn law_anchors_move_forward(
    body: Seq<Body>,
    rendered: Seq<Seq<char>>,
    tab_width: u16,
    a: int,
    b: int,
)
    requires
        0 <= a < b < body.len(),
    ensures
        ({
            let x = search::anchor(
                rendered,
                search::expanded(body[a].text, tab_width),
                search::cursor_after(body, rendered, tab_width, a),
            );
            let y = search::anchor(
                rendered,
                search::expanded(body[b].text, tab_width),
                search::cursor_after(body, rendered, tab_width, b),
            );
            x is Some && y is Some ==> x->0 < y->0
        }),
{
    lemma_cursor_grows(body, rendered, tab_width, a + 1, b);
    lemma_cursor(body, rendered, tab_width, b);
    search::lemma_anchor(
        rendered,
        search::expanded(body[b].text, tab_width),
        search::cursor_after(body, rendered, tab_width, b),
    );
}

// --- lines and sections ----------------------------------------------------------

/// Whether two lists of lines start with the same `n` lines.
pub open spec fn same_start(a: Seq<Seq<char>>, b: Seq<Seq<char>>, n: int) -> bool {
    n <= a.len() && n <= b.len() && forall|i: int| 0 <= i < n ==> #[trigger] a[i] == b[i]
}

/// What the first lines of a diff say depends on those lines alone.
pub proof fn lemma_body_start(a: Seq<Seq<char>>, b: Seq<Seq<char>>, n: int)
    requires
        same_start(a, b, n),
    ensures
        search::in_hunk(a, n) == search::in_hunk(b, n),
        search::body_upto(a, n) == search::body_upto(b, n),
    decreases n,
{
    if n > 0 {
        lemma_body_start(a, b, n - 1);
        assert(a[n - 1] == b[n - 1]);
    }
}

/// The lines after a file header say what they say on their own.
proof fn lemma_body_after(a: Seq<Seq<char>>, b: Seq<Seq<char>>, n: int)
    requires
        0 < n <= b.len(),
        search::is_file_header(b[0]),
        !search::is_hunk_header(b[0]),
    ensures
        search::in_hunk(a + b, a.len() + n) == search::in_hunk(b, n),
        search::body_upto(a + b, a.len() + n) == search::body_upto(a, a.len() as int)
            + search::body_upto(b, n),
    decreases n,
{
    let ab = a + b;
    let at = a.len() + n - 1;
    assert(ab[at] == b[n - 1]);
    if n == 1 {
        assert forall|i: int| 0 <= i < a.len() implies #[trigger] ab[i] == a[i] by {}
        lemma_body_start(ab, a, a.len() as int);
        assert(search::body_upto(b, 0) =~= Seq::<Body>::empty());
        assert(search::body_at(b, 0) =~= Seq::<Body>::empty());
        assert(search::body_at(ab, at) =~= Seq::<Body>::empty());
        assert(search::body_upto(ab, a.len() + n) =~= search::body_upto(a, a.len() as int)
            + search::body_upto(b, n));
    } else {
        lemma_body_after(a, b, n - 1);
        assert(search::body_at(ab, at) == search::body_at(b, n - 1));
        assert(search::body_upto(ab, a.len() + n) =~= search::body_upto(a, a.len() as int)
            + search::body_upto(b, n));
    }
}

/// A new file section's headers are never taken for body lines of the section before
/// it: two diffs put together say what each says.
pub proof fn law_file_sections_stay_apart(a: Seq<char>, b: Seq<char>)
    requires
        a.len() == 0 || a.last() == '\n',
        txt::has_prefix(b, "diff "@),
    ensures
        search::diff_body(a + b) == search::diff_body(a) + search::diff_body(b),
{
    reveal_strlit("diff ");
    let header = "diff "@;
    assert(header =~= seq!['d', 'i', 'f', 'f', ' ']);
    txt::law_lines_of_joined_texts(a, b);
    let (la, lb) = (txt::lines(a), txt::lines(b));
    let parts = txt::split(b, '\n');
    txt::lemma_split_nonempty(b, '\n');
    txt::lemma_first_piece(b, '\n', header);
    let piece = parts[0];
    assert(piece.take(5) == header);
    assert(piece[4] == ' ') by {
        assert(piece.take(5)[4] == ' ');
    }
    assert(lb.len() > 0 && search::is_file_header(lb[0]) && !search::is_hunk_header(lb[0])) by {
        let line = lb[0];
        assert(line == piece || line == txt::without_cr(piece));
        assert(line.len() >= 5);
        assert(line.take(5) =~= header);
        assert(line[0] == 'd') by {
            assert(line.take(5)[0] == 'd');
        }
        if search::is_hunk_header(line) {
            assert(line.take(2)[0] == '@');
        }
    }
    lemma_body_after(la, lb, lb.len() as int);
}

/// Whether line `i` of a diff is a context line of a hunk.
pub open spec fn is_context(ls: Seq<Seq<char>>, i: int) -> bool {
    &&& search::in_hunk(ls, i)
    &&& ls[i].len() > 0 && ls[i][0] == ' '
}

/// The first `n` lines of a diff without the context lines of its hunks.
pub open spec fn changed_lines_upto(ls: Seq<Seq<char>>, n: int) -> Seq<Seq<char>>
    decreases n,
{
    if n <= 0 {
        Seq::empty()
    } else if is_context(ls, n - 1) {
        changed_lines_upto(ls, n - 1)
    } else {
        changed_lines_upto(ls, n - 1).push(ls[n - 1])
    }
}

/// The matches in all of `body`.
pub open spec fn counted(body: Seq<Body>, needle: Seq<char>, scope: Scope) -> nat {
    search::count_upto(body, needle, scope, body.len() as int)
}

/// The matches in the first lines depend on those lines alone.
proof fn lemma_count_start(
    a: Seq<Body>,
    b: Seq<Body>,
    needle: Seq<char>,
    scope: Scope,
    n: int,
)
    requires
        n <= a.len(),
        n <= b.len(),
        forall|i: int| 0 <= i < n ==> #[trigger] a[i] == b[i],
    ensures
        search::count_upto(a, needle, scope, n) == search::count_upto(b, needle, scope, n),
    decreases n,
{
    if n > 0 {
        lemma_count_start(a, b, needle, scope, n - 1);
        assert(a[n - 1] == b[n - 1]);
    }
}

/// One more line adds its own matches.
pub proof fn lemma_count_one_more(a: Seq<Body>, x: Body, needle: Seq<char>, scope: Scope)
    ensures
        counted(a + seq![x], needle, scope) == counted(a, needle, scope)
            + if search::scope_admits(scope, x.kind) {
            search::smart_hits(x.text, needle).len()
        } else {
            0
        },
{
    let b = a + seq![x];
    assert(b[a.len() as int] == x);
    lemma_count_start(b, a, needle, scope, a.len() as int);
}

/// Deleting the context lines keeps where hunks are and what matches in them.
proof fn lemma_context_counts_nothing(
    ls: Seq<Seq<char>>,
    needle: Seq<char>,
    scope: Scope,
    n: int,
)
    requires
        0 <= n <= ls.len(),
    ensures
        ({
            let kept = changed_lines_upto(ls, n);
            &&& search::in_hunk(kept, kept.len() as int) == search::in_hunk(ls, n)
            &&& counted(search::body_upto(kept, kept.len() as int), needle, scope) == counted(
                search::body_upto(ls, n),
                needle,
                scope,
            )
        }),
    decreases n,
{
    if n > 0 {
        lemma_context_counts_nothing(ls, needle, scope, n - 1);
        let line = ls[n - 1];
        let was = changed_lines_upto(ls, n - 1);
        let kept = changed_lines_upto(ls, n);
        let before = search::body_upto(ls, n - 1);
        let here = search::body_at(ls, n - 1);
        if is_context(ls, n - 1) {
            if search::is_hunk_header(line) {
                assert(line.take(2)[0] == '@');
            }
            if search::is_file_header(line) {
                assert(line.take(5)[0] == 'd');
            }
            let x = Body { text: line.skip(1), kind: LineKind::Context };
            assert(here =~= seq![x]);
            lemma_count_one_more(before, x, needle, scope);
        } else {
            let k = was.len() as int;
            assert(kept[k] == line);
            lemma_body_start(kept, was, k);
            assert(search::body_at(kept, k) == here);
            let thin = search::body_upto(was, k);
            if here.len() == 0 {
                assert(thin + here =~= thin);
                assert(before + here =~= before);
            } else {
                assert(here =~= seq![here[0]]);
                lemma_count_one_more(thin, here[0], needle, scope);
                lemma_count_one_more(before, here[0], needle, scope);
            }
        }
    }
}

/// Only added and deleted lines are searched: a diff without the context lines of its
/// hunks has the same matches, in every scope.
pub proof fn law_context_lines_count_nothing(
    raw: Seq<char>,
    thin: Seq<char>,
    needle: Seq<char>,
    scope: Scope,
)
    requires
        txt::lines(thin) == changed_lines_upto(txt::lines(raw), txt::lines(raw).len() as int),
    ensures
        search::match_count(thin, needle, scope) == search::match_count(raw, needle, scope),
{
    lemma_context_counts_nothing(txt::lines(raw), needle, scope, txt::lines(raw).len() as int);
}

/// Where hunks are, and what matches, is the same behind lines after which both are.
proof fn lemma_same_behind(
    a: Seq<Seq<char>>,
    b: Seq<Seq<char>>,
    rest: Seq<Seq<char>>,
    needle: Seq<char>,
    scope: Scope,
    n: int,
)
    requires
        0 <= n <= rest.len(),
        search::in_hunk(a, a.len() as int) == search::in_hunk(b, b.len() as int),
        counted(search::body_upto(a, a.len() as int), needle, scope) == counted(
            search::body_upto(b, b.len() as int),
            needle,
            scope,
        ),
    ensures
        search::in_hunk(a + rest, a.len() + n) == search::in_hunk(b + rest, b.len() + n),
        counted(search::body_upto(a + rest, a.len() + n), needle, scope) == counted(
            search::body_upto(b + rest, b.len() + n),
            needle,
            scope,
        ),
    decreases n,
{
    let (x, y) = (a + rest, b + rest);
    if n == 0 {
        assert forall|i: int| 0 <= i < a.len() implies #[trigger] x[i] == a[i] by {}
        assert forall|i: int| 0 <= i < b.len() implies #[trigger] y[i] == b[i] by {}
        lemma_body_start(x, a, a.len() as int);
        lemma_body_start(y, b, b.len() as int);
    } else {
        lemma_same_behind(a, b, rest, needle, scope, n - 1);
        let (i, j) = (a.len() + n - 1, b.len() + n - 1);
        assert(x[i] == rest[n - 1] && y[j] == rest[n - 1]);
        let here = search::body_at(x, i);
        assert(here == search::body_at(y, j));
        let (p, q) = (search::body_upto(x, i), search::body_upto(y, j));
        if here.len() == 0 {
            assert(p + here =~= p);
            assert(q + here =~= q);
        } else {
            assert(here =~= seq![here[0]]);
            lemma_count_one_more(p, here[0], needle, scope);
            lemma_count_one_more(q, here[0], needle, scope);
        }
    }
}

/// Taking a context line out of a diff's text takes no match out of it: `a` is the text
/// before the line, up to inside a hunk, and `b` the text after it.
pub proof fn law_taking_out_a_context_line(
    a: Seq<char>,
    line: Seq<char>,
    b: Seq<char>,
    needle: Seq<char>,
    scope: Scope,
)
    requires
        a.len() > 0 && a.last() == '\n',
        search::in_hunk(txt::lines(a), txt::lines(a).len() as int),
        !line.contains('\n'),
        line.len() > 0 && line[0] == ' ',
    ensures
        search::match_count(a + line.push('\n') + b, needle, scope) == search::match_count(
            a + b,
            needle,
            scope,
        ),
{
    let with = a + line.push('\n');
    let (la, lb) = (txt::lines(a), txt::lines(b));
    let shown = txt::without_cr(line);
    txt::law_lines_of_joined_texts(a, b);
    txt::law_lines_of_joined_texts(with, b);
    txt::law_lines_of_joined_texts(a, line.push('\n'));
    txt::lemma_one_line(line);
    let lw = la + seq![shown];
    assert(txt::lines(with) == lw);
    let n = la.len() as int;
    assert(lw[n] == shown);
    assert forall|i: int| 0 <= i < n implies #[trigger] lw[i] == la[i] by {}
    lemma_body_start(lw, la, n);
    assert(shown.len() > 0 && shown[0] == ' ');
    if search::is_hunk_header(shown) {
        assert(shown.take(2)[0] == '@');
    }
    if search::is_file_header(shown) {
        assert(shown.take(5)[0] == 'd');
    }
    let x = Body { text: shown.skip(1), kind: LineKind::Context };
    assert(search::body_at(lw, n) =~= seq![x]);
    lemma_count_one_more(search::body_upto(la, n), x, needle, scope);
    lemma_same_behind(lw, la, lb, needle, scope, lb.len() as int);
}

} // verus!
