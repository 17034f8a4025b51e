//! Which lines of a diff are searched, what matches in them, and where it is found.

use vstd::prelude::*;
use crate::search;
use crate::search::{Body, LineKind, Scope};
use crate::search_laws;
use crate::txt;

verus! {

// --- hunks -------------------------------------------------------------------------

/// Whether a line starts with `@@`.
pub open spec fn opens_hunk(line: Seq<char>) -> bool {
    line.len() >= 2 && line[0] == '@' && line[1] == '@'
}

/// Whether a line starts with `diff` and a blank.
pub open spec fn opens_file(line: Seq<char>) -> bool {
    &&& line.len() >= 5
    &&& line[0] == 'd' && line[1] == 'i' && line[2] == 'f' && line[3] == 'f' && line[4] == ' '
}

/// Whether some hunk has been opened among the lines, and no file after it.
pub open spec fn ends_in_hunk(ls: Seq<Seq<char>>) -> bool {
    exists|j: int|
        0 <= j < ls.len() && opens_hunk(#[trigger] ls[j]) && forall|k: int|
            j < k < ls.len() ==> !opens_file(#[trigger] ls[k])
}

proof fn lemma_headers(line: Seq<char>)
    ensures
        search::is_hunk_header(line) == opens_hunk(line),
        search::is_file_header(line) == opens_file(line),
{
    let at = seq!['@', '@'];
    let file = seq!['d', 'i', 'f', 'f', ' '];
    if opens_hunk(line) {
        assert(line.take(2) =~= at);
    }
    if search::is_hunk_header(line) {
        assert(line.take(2)[0] == at[0] && line.take(2)[1] == at[1]);
    }
    if opens_file(line) {
        assert(line.take(5) =~= file);
    }
    if search::is_file_header(line) {
        let head = line.take(5);
        assert(head[0] == file[0] && head[1] == file[1] && head[2] == file[2] && head[3] == file[3]
            && head[4] == file[4]);
    }
}

/// A line stands inside a hunk exactly if some line before it opens one and no line in
/// between opens a file, however many hunks there are.
pub proof fn law_inside_a_hunk(ls: Seq<Seq<char>>, i: int)
    requires
        0 <= i <= ls.len(),
    ensures
        search::in_hunk(ls, i) == ends_in_hunk(ls.take(i)),
    decreases i,
{
    if i > 0 {
        law_inside_a_hunk(ls, i - 1);
        let (was, now) = (ls.take(i - 1), ls.take(i));
        let line = ls[i - 1];
        lemma_headers(line);
        assert(now[i - 1] == line);
        if opens_hunk(line) {
            assert(opens_hunk(now[i - 1]));
        } else if opens_file(line) {
            assert(!ends_in_hunk(now)) by {
                if ends_in_hunk(now) {
                    let j = choose|j: int|
                        0 <= j < now.len() && opens_hunk(#[trigger] now[j]) && forall|k: int|
                            j < k < now.len() ==> !opens_file(#[trigger] now[k]);
                    assert(j < i - 1);
                    assert(opens_file(now[i - 1]));
                }
            }
        } else {
            if ends_in_hunk(was) {
                let j = choose|j: int|
                    0 <= j < was.len() && opens_hunk(#[trigger] was[j]) && forall|k: int|
                        j < k < was.len() ==> !opens_file(#[trigger] was[k]);
                assert(opens_hunk(now[j]));
                assert forall|k: int| j < k < now.len() implies !opens_file(#[trigger] now[k]) by {
                    if k < i - 1 {
                        assert(now[k] == was[k]);
                    }
                }
            }
            if ends_in_hunk(now) {
                let j = choose|j: int|
                    0 <= j < now.len() && opens_hunk(#[trigger] now[j]) && forall|k: int|
                        j < k < now.len() ==> !opens_file(#[trigger] now[k]);
                assert(was[j] == now[j]);
                assert forall|k: int| j < k < was.len() implies !opens_file(#[trigger] was[k]) by {
                    assert(now[k] == was[k]);
                }
            }
        }
    }
}

/// What one more line adds to the body of a diff: behind a hunk's header, with no file
/// opened since, a line marked `+`, `-` or with a blank adds its text without the mark;
/// any other line adds nothing.
pub proof fn law_one_more_line(a: Seq<char>, line: Seq<char>)
    requires
        a.len() == 0 || a.last() == '\n',
        forall|i: int| 0 <= i < line.len() ==> #[trigger] line[i] != '\n',
        line.len() > 0 ==> line.last() != '\r',
    ensures
        ({
            let before = search::diff_body(a);
            let after = search::diff_body(a + line.push('\n'));
            let inside = ends_in_hunk(txt::lines(a));
            &&& inside && line.len() > 0 && line[0] == '+' ==> after == before.push(
                Body { text: line.skip(1), kind: LineKind::Add },
            )
            &&& inside && line.len() > 0 && line[0] == '-' ==> after == before.push(
                Body { text: line.skip(1), kind: LineKind::Del },
            )
            &&& inside && line.len() > 0 && line[0] == ' ' ==> after == before.push(
                Body { text: line.skip(1), kind: LineKind::Context },
            )
            &&& !inside || line.len() == 0 || (line[0] != '+' && line[0] != '-' && line[0] != ' ')
                ==> after == before
        }),
{
    txt::law_lines_of_joined_texts(a, line.push('\n'));
    txt::lemma_one_line(line);
    let la = txt::lines(a);
    let n = la.len() as int;
    let all = la + seq![line];
    assert(txt::lines(a + line.push('\n')) == all);
    assert forall|i: int| 0 <= i < n implies #[trigger] all[i] == la[i] by {}
    search_laws::lemma_body_start(all, la, n);
    law_inside_a_hunk(la, n);
    assert(la.take(n) =~= la);
    assert(all[n] == line);
    lemma_headers(line);
    let before = search::diff_body(a);
    let here = search::body_at(all, n);
    assert(search::diff_body(a + line.push('\n')) == before + here);
    if here.len() == 0 {
        assert(before + here =~= before);
    } else {
        assert(before + here =~= before.push(here[0]));
    }
}

proof fn lemma_behind_a_hunk_header(a: Seq<Seq<char>>, b: Seq<Seq<char>>, n: int)
    requires
        0 < n <= b.len(),
        opens_hunk(b[0]),
    ensures
        search::in_hunk(a + b, a.len() + n) == search::in_hunk(b, n),
        search::body_upto(a + b, a.len() + n) == search::body_upto(a, a.len() as int)
            + search::body_upto(b, n),
    decreases n,
{
    let ab = a + b;
    let at = a.len() + n - 1;
    assert(ab[at] == b[n - 1]);
    lemma_headers(b[n - 1]);
    let first = search::body_upto(a, a.len() as int);
    if n == 1 {
        assert forall|i: int| 0 <= i < a.len() implies #[trigger] ab[i] == a[i] by {}
        search_laws::lemma_body_start(ab, a, a.len() as int);
        assert(search::body_upto(b, 0) =~= Seq::<Body>::empty());
        assert(search::body_at(b, 0) =~= Seq::<Body>::empty());
        assert(search::body_at(ab, at) =~= Seq::<Body>::empty());
        assert(search::body_upto(ab, a.len() + n) =~= first + search::body_upto(b, n));
    } else {
        lemma_behind_a_hunk_header(a, b, n - 1);
        assert(search::body_at(ab, at) == search::body_at(b, n - 1));
        assert(search::body_upto(ab, a.len() + n) =~= first + search::body_upto(b, n));
    }
}

/// Every hunk of a diff is searched: a hunk behind another text says there what it says
/// on its own.
pub proof fn law_hunks_add_up(a: Seq<char>, b: Seq<char>)
    requires
        a.len() == 0 || a.last() == '\n',
        b.len() >= 2 && b[0] == '@' && b[1] == '@',
    ensures
        search::diff_body(a + b) == search::diff_body(a) + search::diff_body(b),
{
    let at = seq!['@', '@'];
    assert(b.take(2) =~= at);
    txt::law_lines_of_joined_texts(a, b);
    let (la, lb) = (txt::lines(a), txt::lines(b));
    txt::lemma_split_nonempty(b, '\n');
    txt::lemma_first_piece(b, '\n', at);
    let piece = txt::split(b, '\n')[0];
    assert(piece.take(2)[0] == '@' && piece.take(2)[1] == '@');
    assert(lb.len() > 0 && opens_hunk(lb[0])) by {
        let line = lb[0];
        assert(line == piece || line == txt::without_cr(piece));
    }
    lemma_behind_a_hunk_header(la, lb, lb.len() as int);
}

proof fn lemma_count_joined(p: Seq<Body>, q: Seq<Body>, needle: Seq<char>, scope: Scope)
    ensures
        search_laws::counted(p + q, needle, scope) == search_laws::counted(p, needle, scope)
            + search_laws::counted(q, needle, scope),
    decreases q.len(),
{
    if q.len() == 0 {
        assert(p + q =~= p);
    } else {
        let rest = q.drop_last();
        lemma_count_joined(p, rest, needle, scope);
        search_laws::lemma_count_one_more(p + rest, q.last(), needle, scope);
        search_laws::lemma_count_one_more(rest, q.last(), needle, scope);
        assert(p + rest + seq![q.last()] =~= p + q);
        assert(rest + seq![q.last()] =~= q);
    }
}

/// The matches of a diff are those of its hunks.
pub proof fn law_hunks_count_together(a: Seq<char>, b: Seq<char>, needle: Seq<char>, scope: Scope)
    requires
        a.len() == 0 || a.last() == '\n',
        b.len() >= 2 && b[0] == '@' && b[1] == '@',
    ensures
        search::match_count(a + b, needle, scope) == search::match_count(a, needle, scope)
            + search::match_count(b, needle, scope),
{
    law_hunks_add_up(a, b);
    lemma_count_joined(search::diff_body(a), search::diff_body(b), needle, scope);
}

/// What one more line of a hunk adds to the matches: an added line its own unless only
/// deleted ones are searched, a deleted line its own unless only added ones are, a line
/// of context nothing.
pub proof fn law_matches_of_one_more_line(
    a: Seq<char>,
    line: Seq<char>,
    needle: Seq<char>,
    scope: Scope,
)
    requires
        a.len() > 0 && a.last() == '\n',
        ends_in_hunk(txt::lines(a)),
        line.len() > 0,
        forall|i: int| 0 <= i < line.len() ==> #[trigger] line[i] != '\n',
        line.last() != '\r',
    ensures
        search::match_count(a + line.push('\n'), needle, scope) == search::match_count(
            a,
            needle,
            scope,
        ) + if (line[0] == '+' && scope != Scope::Del) || (line[0] == '-' && scope != Scope::Add) {
            search::smart_hits(line.skip(1), needle).len()
        } else {
            0
        },
{
    law_one_more_line(a, line);
    let before = search::diff_body(a);
    let text = line.skip(1);
    let (x, y, z) = (
        Body { text, kind: LineKind::Add },
        Body { text, kind: LineKind::Del },
        Body { text, kind: LineKind::Context },
    );
    search_laws::lemma_count_one_more(before, x, needle, scope);
    search_laws::lemma_count_one_more(before, y, needle, scope);
    search_laws::lemma_count_one_more(before, z, needle, scope);
    assert(before + seq![x] =~= before.push(x));
    assert(before + seq![y] =~= before.push(y));
    assert(before + seq![z] =~= before.push(z));
}

/// `Tab` goes from all changed lines to the added ones, on to the deleted ones and back;
/// each scope has its own sign.
pub proof fn law_scopes_in_turn()
    ensures
        search::next_scope(Scope::Both) == Scope::Add,
        search::next_scope(Scope::Add) == Scope::Del,
        search::next_scope(Scope::Del) == Scope::Both,
        search::scope_glyph(Scope::Both) == "±"@,
        search::scope_glyph(Scope::Add) == "+"@,
        search::scope_glyph(Scope::Del) == "−"@,
{
}

// --- hits ----------------------------------------------------------------------------

/// Whether the needle stands at `start`, letter for letter.
pub open spec fn stands_at(hay: Seq<char>, needle: Seq<char>, start: int) -> bool {
    &&& 0 <= start && start + needle.len() <= hay.len()
    &&& forall|k: int| 0 <= k < needle.len() ==> #[trigger] hay[start + k] == needle[k]
}

proof fn lemma_hits_before(hay: Seq<char>, needle: Seq<char>, exact: bool, end: int)
    requires
        0 <= end <= hay.len() <= usize::MAX,
        needle.len() > 0,
    ensures
        ({
            let list = search::hits_before(hay, needle, exact, end);
            &&& forall|s: int|
                0 <= s < end ==> (#[trigger] search::matches_at(hay, needle, exact, s)
                    <==> list.contains((s as usize, (s + needle.len()) as usize)))
            &&& forall|i: int|
                0 <= i < list.len() ==> (#[trigger] list[i]).0 < end && list[i].1 == list[i].0
                    + needle.len() && search::matches_at(hay, needle, exact, list[i].0 as int)
            &&& forall|i: int, j: int|
                0 <= i < j < list.len() ==> (#[trigger] list[i]).0 < (#[trigger] list[j]).0
        }),
    decreases end,
{
    if end > 0 {
        lemma_hits_before(hay, needle, exact, end - 1);
        let before = search::hits_before(hay, needle, exact, end - 1);
        let list = search::hits_before(hay, needle, exact, end);
        let here = ((end - 1) as usize, (end - 1 + needle.len()) as usize);
        assert forall|s: int| 0 <= s < end implies (#[trigger] search::matches_at(
            hay,
            needle,
            exact,
            s,
        ) <==> list.contains((s as usize, (s + needle.len()) as usize))) by {
            let hit = (s as usize, (s + needle.len()) as usize);
            if search::matches_at(hay, needle, exact, s) {
                if s < end - 1 {
                    assert(before.contains(hit));
                    let i = choose|i: int| 0 <= i < before.len() && before[i] == hit;
                    assert(list[i] == hit);
                } else {
                    assert(list.last() == hit);
                }
            }
            if list.contains(hit) {
                let i = choose|i: int| 0 <= i < list.len() && list[i] == hit;
                if i < before.len() {
                    assert(before[i] == hit);
                }
            }
        }
    }
}

/// The matches of a needle in a line, smartcase: with an upper-case character in it they
/// are the places where it stands letter for letter; without one, those where it stands
/// up to the case of ASCII letters. They come in the order of the line, overlapping ones
/// too, and an empty needle has none.
pub proof fn law_hits_are_the_matching_places(hay: Seq<char>, needle: Seq<char>, start: int)
    requires
        hay.len() <= usize::MAX,
        0 <= start,
        start + needle.len() <= hay.len(),
    ensures
        ({
            let list = search::smart_hits(hay, needle);
            let here = list.contains((start as usize, (start + needle.len()) as usize));
            &&& needle.len() == 0 ==> list.len() == 0
            &&& needle.len() > 0 && txt::has_upper(needle) ==> (here <==> stands_at(
                hay,
                needle,
                start,
            ))
            &&& needle.len() > 0 && !txt::has_upper(needle) ==> (here <==> stands_at(
                txt::ascii_lowered(hay),
                txt::ascii_lowered(needle),
                start,
            ))
            &&& forall|i: int|
                0 <= i < list.len() ==> (#[trigger] list[i]).1 == list[i].0 + needle.len()
                    && list[i].1 <= hay.len()
            &&& forall|i: int, j: int|
                0 <= i < j < list.len() ==> (#[trigger] list[i]).0 < (#[trigger] list[j]).0
        }),
{
    let exact = txt::has_upper(needle);
    if needle.len() > 0 {
        lemma_hits_before(hay, needle, exact, hay.len() as int);
        let (x, y) = (txt::ascii_lowered(hay), txt::ascii_lowered(needle));
        let m = search::matches_at(hay, needle, exact, start);
        if exact {
            assert(m == stands_at(hay, needle, start)) by {
                if stands_at(hay, needle, start) {
                    assert forall|k: int| 0 <= k < needle.len() implies search::chars_match(
                        #[trigger] hay[start + k],
                        needle[k],
                        exact,
                    ) by {}
                }
            }
        } else {
            assert(m == stands_at(x, y, start)) by {
                if stands_at(x, y, start) {
                    assert forall|k: int| 0 <= k < needle.len() implies search::chars_match(
                        #[trigger] hay[start + k],
                        needle[k],
                        exact,
                    ) by {
                        assert(x[start + k] == y[k]);
                    }
                }
                if m {
                    assert forall|k: int| 0 <= k < y.len() implies #[trigger] x[start + k]
                        == y[k] by {
                        assert(search::chars_match(hay[start + k], needle[k], exact));
                    }
                }
            }
        }
    }
}

// --- the search box --------------------------------------------------------------------

/// What the search box asks for: `file:` in any case sends the rest to the filenames, and
/// anything else is searched inside the changes, as it is but for surrounding blanks; a
/// blank box asks for nothing.
pub proof fn law_what_the_search_box_asks(q: Seq<char>)
    ensures
        ({
            let t = txt::trimmed(q);
            let file = t.len() >= 5 && (t[0] == 'f' || t[0] == 'F') && (t[1] == 'i' || t[1] == 'I')
                && (t[2] == 'l' || t[2] == 'L') && (t[3] == 'e' || t[3] == 'E') && t[4] == ':';
            &&& t.len() == 0 ==> search::content_needle(q) is None && search::filename_query(
                q,
            ).len() == 0
            &&& t.len() > 0 && !file ==> search::content_needle(q) == Some(t)
                && search::filename_query(q).len() == 0
            &&& file ==> search::content_needle(q) is None && search::filename_query(q)
                == txt::trimmed(t.skip(5))
        }),
{
    let t = txt::trimmed(q);
    if t.len() >= 5 {
        let low = txt::ascii_lowered(t.take(5));
        let want = search::file_prefix();
        let file = (t[0] == 'f' || t[0] == 'F') && (t[1] == 'i' || t[1] == 'I') && (t[2] == 'l'
            || t[2] == 'L') && (t[3] == 'e' || t[3] == 'E') && t[4] == ':';
        if file {
            assert(low =~= want);
        }
        if low == want {
            assert(low[0] == want[0] && low[1] == want[1] && low[2] == want[2] && low[3] == want[3]
                && low[4] == want[4]);
        }
    }
}

// --- where matches are shown -------------------------------------------------------------

/// A tab stands for the configured number of blanks, and for one at least; other
/// characters for themselves.
pub proof fn law_tabs_expand(a: Seq<char>, b: Seq<char>, c: char, width: u16)
    ensures
        search::expanded(a + b, width) == search::expanded(a, width) + search::expanded(b, width),
        search::expanded(seq!['\t'], width).len() == if width == 0 {
            1int
        } else {
            width as int
        },
        forall|i: int|
            0 <= i < search::expanded(seq!['\t'], width).len() ==> #[trigger] search::expanded(
                seq!['\t'],
                width,
            )[i] == ' ',
        c != '\t' ==> search::expanded(seq![c], width) == seq![c],
{
    let with = txt::repeated(' ', if width == 0 { 1 } else { width as nat });
    crate::text_laws::law_replacing(a, b, '\t', c, with);
}

/// The anchor of a text is the first rendered line from the cursor on that holds it.
pub proof fn law_anchors_are_the_first_lines(
    rendered: Seq<Seq<char>>,
    text: Seq<char>,
    cursor: int,
    line: int,
)
    requires
        0 <= cursor,
    ensures
        search::anchor(rendered, text, cursor) == Some(line) <==> {
            &&& cursor <= line < rendered.len()
            &&& txt::holds(rendered[line], text)
            &&& forall|k: int| cursor <= k < line ==> !txt::holds(#[trigger] rendered[k], text)
        },
    decreases rendered.len() - cursor,
{
    if cursor < rendered.len() && !txt::holds(rendered[cursor], text) {
        law_anchors_are_the_first_lines(rendered, text, cursor + 1, line);
    }
}

/// Whether `at` is the first place where `text` stands in `line`.
pub open spec fn first_place(line: Seq<char>, text: Seq<char>, at: int) -> bool {
    stands_at(line, text, at) && forall|k: int| 0 <= k < at ==> !#[trigger] stands_at(line, text, k)
}

proof fn lemma_stands(s: Seq<char>, pat: Seq<char>, i: int)
    ensures
        txt::occurs_at(s, pat, i) == stands_at(s, pat, i),
{
    if stands_at(s, pat, i) {
        let here = s.subrange(i, i + pat.len());
        assert forall|k: int| 0 <= k < pat.len() implies here[k] == pat[k] by {
            assert(s[i + k] == pat[k]);
        }
        assert(here =~= pat);
    }
    if txt::occurs_at(s, pat, i) {
        assert forall|k: int| 0 <= k < pat.len() implies #[trigger] s[i + k] == pat[k] by {
            assert(s.subrange(i, i + pat.len())[k] == s[i + k]);
        }
    }
}

/// Where the matches of a body line are shown: on the first rendered line, below those of
/// the body lines before it, that holds the line's text, as far to the right as the text
/// stands there; with no such line they are counted but not shown.
pub proof fn law_where_matches_are_shown(
    body: Seq<Body>,
    rendered: Seq<Seq<char>>,
    needle: Seq<char>,
    scope: Scope,
    tab_width: u16,
    i: int,
    h: int,
)
    requires
        0 <= i < body.len(),
        rendered.len() <= usize::MAX,
        forall|r: int| 0 <= r < rendered.len() ==> (#[trigger] rendered[r]).len() <= usize::MAX,
        search::scope_admits(scope, body[i].kind),
        0 <= h < search::smart_hits(search::expanded(body[i].text, tab_width), needle).len(),
    ensures
        ({
            let text = search::expanded(body[i].text, tab_width);
            let hit = search::smart_hits(text, needle)[h];
            let from = search::cursor_after(body, rendered, tab_width, i);
            let here = search::located_at(body, rendered, needle, scope, tab_width, i);
            let m = here[h];
            &&& here.len() == search::smart_hits(text, needle).len()
            &&& m.kind == body[i].kind
            &&& m.aligned <==> exists|r: int|
                from <= r < rendered.len() && txt::holds(#[trigger] rendered[r], text)
            &&& m.aligned ==> {
                &&& from <= m.line < rendered.len()
                &&& forall|r: int| from <= r < m.line ==> !txt::holds(#[trigger] rendered[r], text)
                &&& first_place(rendered[m.line as int], text, m.cols.0 - hit.0)
                &&& m.cols.1 - m.cols.0 == hit.1 - hit.0
                &&& search::cursor_after(body, rendered, tab_width, i + 1) == m.line + 1
            }
            &&& !m.aligned ==> search::cursor_after(body, rendered, tab_width, i + 1) == from
        }),
{
    let text = search::expanded(body[i].text, tab_width);
    let hit = search::smart_hits(text, needle)[h];
    let from = search::cursor_after(body, rendered, tab_width, i);
    let here = search::located_at(body, rendered, needle, scope, tab_width, i);
    let m = here[h];
    search_laws::lemma_cursor(body, rendered, tab_width, i);
    assert(search::cursor_after(body, rendered, tab_width, i + 1) == match search::anchor(
        rendered,
        text,
        from,
    ) {
        Some(line) => line + 1,
        None => from,
    });
    match search::anchor(rendered, text, from) {
        Some(line) => {
            law_anchors_are_the_first_lines(rendered, text, from, line);
            let row = rendered[line];
            txt::lemma_find_from(row, text, 0);
            let at = choose|at: int| txt::occurs_at(row, text, at);
            assert(txt::find_from(row, text, 0) is Some);
            let g = txt::find_from(row, text, 0)->0;
            lemma_stands(row, text, g);
            assert forall|k: int| 0 <= k < g implies !#[trigger] stands_at(row, text, k) by {
                lemma_stands(row, text, k);
            }
            assert(g + text.len() <= row.len());
            assert(text.len() <= usize::MAX);
            crate::search_laws::law_hits_are_matches(
                text,
                needle,
                txt::has_upper(needle),
                text.len() as int,
                h,
            );
            assert(hit.1 <= text.len());
        },
        None => {
            assert forall|r: int| from <= r < rendered.len() implies !txt::holds(
                #[trigger] rendered[r],
                text,
            ) by {
                lemma_no_anchor(rendered, text, from, r);
            }
        },
    }
}

proof fn lemma_no_anchor(rendered: Seq<Seq<char>>, text: Seq<char>, cursor: int, r: int)
    requires
        0 <= cursor <= r < rendered.len(),
        search::anchor(rendered, text, cursor) is None,
    ensures
        !txt::holds(rendered[r], text),
    decreases rendered.len() - cursor,
{
    if cursor < r {
        lemma_no_anchor(rendered, text, cursor + 1, r);
    }
}

/// The matches of a diff are those of its body lines, one line after the other.
pub proof fn law_located_line_by_line(
    body: Seq<Body>,
    rendered: Seq<Seq<char>>,
    needle: Seq<char>,
    scope: Scope,
    tab_width: u16,
    i: int,
    h: int,
)
    requires
        0 <= i < body.len(),
        0 <= h < search::located_at(body, rendered, needle, scope, tab_width, i).len(),
    ensures
        ({
            let n = body.len() as int;
            let before = search::located_upto(body, rendered, needle, scope, tab_width, i).len();
            let all = search::located_upto(body, rendered, needle, scope, tab_width, n);
            &&& before + h < all.len()
            &&& all[before + h] == search::located_at(
                body,
                rendered,
                needle,
                scope,
                tab_width,
                i,
            )[h]
        }),
{
    lemma_located_stays(body, rendered, needle, scope, tab_width, i + 1, body.len() as int);
}

proof fn lemma_located_stays(
    body: Seq<Body>,
    rendered: Seq<Seq<char>>,
    needle: Seq<char>,
    scope: Scope,
    tab_width: u16,
    i: int,
    n: int,
)
    requires
        0 <= i <= n,
    ensures
        ({
            let some = search::located_upto(body, rendered, needle, scope, tab_width, i);
            let all = search::located_upto(body, rendered, needle, scope, tab_width, n);
            some.len() <= all.len() && forall|k: int|
                0 <= k < some.len() ==> #[trigger] all[k] == some[k]
        }),
    decreases n,
{
    if i < n {
        lemma_located_stays(body, rendered, needle, scope, tab_width, i, n - 1);
    }
}

// --- escapes -----------------------------------------------------------------------------

/// Whether `c` ends a colour sequence.
pub open spec fn ends_sequence(c: char) -> bool {
    64 <= c as u32 && c as u32 <= 126
}

/// Text up to the first escape is kept; an escape with `[` is taken out with all of its
/// parameters and the character that ends it, any other with the character behind it.
pub proof fn law_escapes_are_taken_out(
    a: Seq<char>,
    params: Seq<char>,
    last: char,
    other: char,
    b: Seq<char>,
)
    requires
        forall|i: int| 0 <= i < a.len() ==> #[trigger] a[i] != '\u{1b}',
        forall|i: int| 0 <= i < params.len() ==> !ends_sequence(#[trigger] params[i]),
        ends_sequence(last),
        other != '[',
    ensures
        search::plain_text(a + seq!['\u{1b}', '['] + params + seq![last] + b) == a
            + search::plain_text(b),
        search::plain_text(a + seq!['\u{1b}', other] + b) == a + search::plain_text(b),
        search::plain_text(a + b) == a + search::plain_text(b),
        search::plain_text(a.push('\u{1b}')) == a,
    decreases a.len(),
{
    let csi = seq!['\u{1b}', '['] + params + seq![last] + b;
    let esc = seq!['\u{1b}', other] + b;
    if a.len() == 0 {
        assert(a + seq!['\u{1b}', '['] + params + seq![last] + b =~= csi);
        assert(csi[0] == '\u{1b}' && csi[1] == '[');
        assert(csi.skip(2) =~= params + seq![last] + b);
        lemma_after_params(params, last, b);
        assert(a + seq!['\u{1b}', other] + b =~= esc);
        assert(esc[0] == '\u{1b}' && esc[1] == other);
        assert(esc.skip(2) =~= b);
        assert(a + b =~= b);
        assert(a + search::plain_text(b) =~= search::plain_text(b));
        assert(a.push('\u{1b}') =~= seq!['\u{1b}']);
        assert(search::plain_text(seq!['\u{1b}']) =~= a);
    } else {
        let rest = a.skip(1);
        assert forall|i: int| 0 <= i < rest.len() implies #[trigger] rest[i] != '\u{1b}' by {
            assert(a[i + 1] != '\u{1b}');
        }
        law_escapes_are_taken_out(rest, params, last, other, b);
        let first = seq![a[0]];
        assert(a[0] != '\u{1b}');
        let w = a + seq!['\u{1b}', '['] + params + seq![last] + b;
        assert(w[0] == a[0]);
        assert(w.skip(1) =~= rest + seq!['\u{1b}', '['] + params + seq![last] + b);
        let x = a + seq!['\u{1b}', other] + b;
        assert(x[0] == a[0]);
        assert(x.skip(1) =~= rest + seq!['\u{1b}', other] + b);
        assert((a + b)[0] == a[0]);
        assert((a + b).skip(1) =~= rest + b);
        assert(a.push('\u{1b}')[0] == a[0]);
        assert(a.push('\u{1b}').skip(1) =~= rest.push('\u{1b}'));
        assert(first + (rest + search::plain_text(b)) =~= a + search::plain_text(b));
        assert(first + rest =~= a);
    }
}

proof fn lemma_after_params(params: Seq<char>, last: char, b: Seq<char>)
    requires
        forall|i: int| 0 <= i < params.len() ==> !ends_sequence(#[trigger] params[i]),
        ends_sequence(last),
    ensures
        search::after_csi(params + seq![last] + b) == b,
    decreases params.len(),
{
    let s = params + seq![last] + b;
    if params.len() == 0 {
        assert(s[0] == last);
        assert(s.skip(1) =~= b);
    } else {
        let rest = params.skip(1);
        assert forall|i: int| 0 <= i < rest.len() implies !ends_sequence(#[trigger] rest[i]) by {
            assert(!ends_sequence(params[i + 1]));
        }
        assert(s[0] == params[0]);
        assert(!ends_sequence(params[0]));
        assert(s.skip(1) =~= rest + seq![last] + b);
        lemma_after_params(rest, last, b);
    }
}

} // verus!
