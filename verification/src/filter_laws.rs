//! Laws of filename queries: how terms combine, and that case makes no difference.

use vstd::prelude::*;
use vstd::utf8::*;
use crate::filter::{self, Pattern, Tok};
use crate::txt;

verus! {

/// Whether `path` passes the query written as `input`.
pub open spec fn query_passes(input: Seq<char>, path: Seq<char>) -> bool {
    filter::passes(
        filter::query_patterns(input, false),
        filter::query_patterns(input, true),
        path,
    )
}

// --- putting queries together ----------------------------------------------------

/// What the first parts of a query ask for depends on those parts alone.
proof fn lemma_patterns_start(a: Seq<Seq<char>>, b: Seq<Seq<char>>, exclude: bool, n: int)
    requires
        n <= a.len(),
        n <= b.len(),
        forall|i: int| 0 <= i < n ==> #[trigger] a[i] == b[i],
    ensures
        filter::patterns_upto(a, exclude, n) == filter::patterns_upto(b, exclude, n),
    decreases n,
{
    if n > 0 {
        lemma_patterns_start(a, b, exclude, n - 1);
        assert(a[n - 1] == b[n - 1]);
    }
}

/// The parts of two queries ask for what each asks for.
proof fn lemma_patterns_joined(p: Seq<Seq<char>>, q: Seq<Seq<char>>, exclude: bool, k: int)
    requires
        0 <= k <= q.len(),
    ensures
        filter::patterns_upto(p + q, exclude, p.len() + k) == filter::patterns_upto(
            p,
            exclude,
            p.len() as int,
        ) + filter::patterns_upto(q, exclude, k),
    decreases k,
{
    let all = p + q;
    let first = filter::patterns_upto(p, exclude, p.len() as int);
    if k == 0 {
        lemma_patterns_start(all, p, exclude, p.len() as int);
        assert(filter::patterns_upto(all, exclude, p.len() + k) =~= first + filter::patterns_upto(
            q,
            exclude,
            k,
        ));
    } else {
        lemma_patterns_joined(p, q, exclude, k - 1);
        assert(all[p.len() + k - 1] == q[k - 1]);
        assert(filter::patterns_upto(all, exclude, p.len() + k) =~= first + filter::patterns_upto(
            q,
            exclude,
            k,
        ));
    }
}

/// Two queries joined by a comma include, and exclude, what each does.
pub proof fn law_queries_put_together(a: Seq<char>, b: Seq<char>, exclude: bool)
    ensures
        filter::query_patterns(a.push(',') + b, exclude) == filter::query_patterns(a, exclude)
            + filter::query_patterns(b, exclude),
{
    txt::lemma_split_join(a, b, ',');
    let (p, q) = (txt::split(a, ','), txt::split(b, ','));
    lemma_patterns_joined(p, q, exclude, q.len() as int);
}

/// Some pattern of two lists matches exactly if some pattern of either does.
proof fn lemma_any_of_two(a: Seq<Pattern>, b: Seq<Pattern>, path: Seq<char>)
    ensures
        filter::any_matches(a + b, path) == (filter::any_matches(a, path) || filter::any_matches(
            b,
            path,
        )),
{
    let ab = a + b;
    if filter::any_matches(a, path) {
        let i = choose|i: int| 0 <= i < a.len() && filter::term_matches(#[trigger] a[i], path);
        assert(ab[i] == a[i]);
    }
    if filter::any_matches(b, path) {
        let i = choose|i: int| 0 <= i < b.len() && filter::term_matches(#[trigger] b[i], path);
        assert(ab[a.len() + i] == b[i]);
    }
    if filter::any_matches(ab, path) {
        let i = choose|i: int| 0 <= i < ab.len() && filter::term_matches(#[trigger] ab[i], path);
        if i < a.len() {
            assert(a[i] == ab[i]);
        } else {
            assert(b[i - a.len()] == ab[i]);
        }
    }
}

/// The term text of `!` in front of `t` is that of `t`.
proof fn lemma_excluded_text(t: Seq<char>)
    ensures
        filter::is_exclusion(seq!['!'] + t),
        filter::term_text(seq!['!'] + t) == txt::trimmed(t),
{
    let part = seq!['!'] + t;
    assert(part[0] == '!');
    assert(txt::trimmed_start(part) == part);
    txt::lemma_trimmed_end_keeps('!', t);
    let trimmed = txt::trimmed(part);
    assert(trimmed == seq!['!'] + txt::trimmed_end(t));
    assert(trimmed[0] == '!');
    assert(trimmed.skip(1) =~= txt::trimmed_end(t));
    txt::lemma_trimmed_end_first(t);
}

/// Adding the exclusion of a term leaves the paths that passed before and that the
/// term alone does not match, whether or not anything was included.
pub proof fn law_adding_an_exclusion(a: Seq<char>, t: Seq<char>, path: Seq<char>)
    requires
        !t.contains(','),
        txt::trimmed(t).len() > 0,
        txt::trimmed(t)[0] != '!',
    ensures
        query_passes(a + seq![',', '!'] + t, path) == (query_passes(a, path) && !query_passes(
            t,
            path,
        )),
{
    let part = seq!['!'] + t;
    assert(a + seq![',', '!'] + t =~= a.push(',') + part);
    law_queries_put_together(a, part, false);
    law_queries_put_together(a, part, true);
    assert forall|i: int| 0 <= i < part.len() implies part[i] != ',' by {
        if i > 0 {
            assert(t.contains(t[i - 1]));
        }
    }
    txt::lemma_split_one(t, ',');
    txt::lemma_split_one(part, ',');
    lemma_excluded_text(t);
    let body = txt::trimmed(t);
    let p = filter::pattern_of(body, txt::lowered(body));
    reveal_with_fuel(filter::patterns_upto, 2);
    assert(filter::query_patterns(t, false) =~= seq![p]);
    assert(filter::query_patterns(t, true) =~= Seq::<Pattern>::empty());
    assert(filter::query_patterns(part, true) =~= seq![p]);
    assert(filter::query_patterns(part, false) =~= Seq::<Pattern>::empty());
    let (inc, exc) = (filter::query_patterns(a, false), filter::query_patterns(a, true));
    assert(inc + Seq::<Pattern>::empty() =~= inc);
    lemma_any_of_two(exc, seq![p], path);
    assert(filter::any_matches(seq![p], path) == filter::term_matches(p, path)) by {
        assert(seq![p][0] == p);
    }
}

/// Whether a query only includes, and includes something.
pub open spec fn only_includes(input: Seq<char>) -> bool {
    let parts = txt::split(input, ',');
    &&& forall|i: int| 0 <= i < parts.len() ==> !filter::is_exclusion(#[trigger] parts[i])
    &&& exists|i: int| 0 <= i < parts.len() && filter::term_text(#[trigger] parts[i]).len() > 0
}

proof fn lemma_only_includes(parts: Seq<Seq<char>>, n: int)
    requires
        0 <= n <= parts.len(),
        forall|i: int| 0 <= i < parts.len() ==> !filter::is_exclusion(#[trigger] parts[i]),
    ensures
        filter::patterns_upto(parts, true, n).len() == 0,
        forall|i: int|
            0 <= i < n && filter::term_text(#[trigger] parts[i]).len() > 0
                ==> filter::patterns_upto(parts, false, n).len() > 0,
    decreases n,
{
    if n > 0 {
        lemma_only_includes(parts, n - 1);
        assert(!filter::is_exclusion(parts[n - 1]));
    }
}

/// The include terms of a query are alternatives: two queries that only include pass,
/// joined by a comma, what either of them passes.
pub proof fn law_includes_are_alternatives(a: Seq<char>, b: Seq<char>, path: Seq<char>)
    requires
        only_includes(a),
        only_includes(b),
    ensures
        query_passes(a + seq![','] + b, path) == (query_passes(a, path) || query_passes(b, path)),
{
    assert(a + seq![','] + b =~= a.push(',') + b);
    law_queries_put_together(a, b, false);
    law_queries_put_together(a, b, true);
    let (p, q) = (txt::split(a, ','), txt::split(b, ','));
    lemma_only_includes(p, p.len() as int);
    lemma_only_includes(q, q.len() as int);
    lemma_any_of_two(filter::query_patterns(a, false), filter::query_patterns(b, false), path);
}

// --- case ------------------------------------------------------------------------

/// Whether two ASCII texts differ in the case of letters at most.
pub open spec fn same_but_case(a: Seq<char>, b: Seq<char>) -> bool {
    &&& is_ascii_chars(a)
    &&& is_ascii_chars(b)
    &&& txt::ascii_lowered(a) == txt::ascii_lowered(b)
}

/// `c` with `a`-`z` in upper case.
pub open spec fn ascii_upper(c: char) -> char {
    if 'a' <= c <= 'z' {
        (c as u32 - 32) as char
    } else {
        c
    }
}

/// `s` with `a`-`z` in upper case.
pub open spec fn ascii_uppered(s: Seq<char>) -> Seq<char> {
    s.map_values(|c: char| ascii_upper(c))
}

/// Whether two characters are ASCII and differ in case at most.
spec fn alike(a: char, b: char) -> bool {
    &&& (a as u32) < 128
    &&& (b as u32) < 128
    &&& txt::ascii_lower(a) == txt::ascii_lower(b)
}

/// Whether two texts are alike character by character.
spec fn all_alike(a: Seq<char>, b: Seq<char>) -> bool {
    &&& a.len() == b.len()
    &&& forall|i: int| 0 <= i < a.len() ==> alike(#[trigger] a[i], b[i])
}

proof fn lemma_alike(a: Seq<char>, b: Seq<char>)
    ensures
        all_alike(a, b) == same_but_case(a, b),
{
    let (x, y) = (txt::ascii_lowered(a), txt::ascii_lowered(b));
    if all_alike(a, b) {
        assert forall|i: int| 0 <= i < b.len() implies '\0' <= #[trigger] b[i] <= '\u{7f}' by {
            assert(alike(a[i], b[i]));
        }
        assert forall|i: int| 0 <= i < a.len() implies '\0' <= #[trigger] a[i] <= '\u{7f}' by {
            assert(alike(a[i], b[i]));
        }
        assert forall|i: int| 0 <= i < a.len() implies #[trigger] x[i] == y[i] by {
            assert(alike(a[i], b[i]));
        }
        assert(x =~= y);
    }
    if same_but_case(a, b) {
        assert(x.len() == a.len() && y.len() == b.len());
        assert forall|i: int| 0 <= i < a.len() implies alike(#[trigger] a[i], b[i]) by {
            assert(x[i] == y[i]);
        }
    }
}

/// Whether a character is no letter of ASCII, so alike only to itself.
spec fn caseless(c: char) -> bool {
    !('a' <= c <= 'z') && !('A' <= c <= 'Z')
}

proof fn lemma_caseless(a: char, b: char, c: char)
    requires
        alike(a, b),
        caseless(c),
    ensures
        (a == c) == (b == c),
        txt::is_space(a) == txt::is_space(b),
{
}

/// Texts alike contain the same characters other than letters.
proof fn lemma_contains_alike(a: Seq<char>, b: Seq<char>, c: char)
    requires
        all_alike(a, b),
        caseless(c),
    ensures
        a.contains(c) == b.contains(c),
{
    if a.contains(c) {
        let i = choose|i: int| 0 <= i < a.len() && a[i] == c;
        lemma_caseless(a[i], b[i], c);
        assert(b[i] == c);
    }
    if b.contains(c) {
        let i = choose|i: int| 0 <= i < b.len() && b[i] == c;
        lemma_caseless(a[i], b[i], c);
        assert(a[i] == c);
    }
}

proof fn lemma_split_alike(a: Seq<char>, b: Seq<char>, sep: char)
    requires
        all_alike(a, b),
        caseless(sep),
    ensures
        txt::split(a, sep).len() == txt::split(b, sep).len(),
        forall|i: int|
            0 <= i < txt::split(a, sep).len() ==> all_alike(
                #[trigger] txt::split(a, sep)[i],
                txt::split(b, sep)[i],
            ),
    decreases a.len(),
{
    if a.len() > 0 {
        lemma_caseless(a[0], b[0], sep);
        let (ra, rb) = (a.skip(1), b.skip(1));
        assert forall|i: int| 0 <= i < ra.len() implies alike(#[trigger] ra[i], rb[i]) by {
            assert(alike(a[i + 1], b[i + 1]));
        }
        lemma_split_alike(ra, rb, sep);
        txt::lemma_split_nonempty(ra, sep);
        let (pa, pb) = (txt::split(ra, sep), txt::split(rb, sep));
        assert(all_alike(pa[0], pb[0]));
        let (wa, wb) = (txt::split(a, sep), txt::split(b, sep));
        assert forall|i: int| 0 <= i < wa.len() implies all_alike(#[trigger] wa[i], wb[i]) by {
            if a[0] == sep {
                if i > 0 {
                    assert(wa[i] == pa[i - 1] && wb[i] == pb[i - 1]);
                }
            } else if i > 0 {
                assert(wa[i] == pa[i] && wb[i] == pb[i]);
            } else {
                assert(wa[0] == seq![a[0]] + pa[0] && wb[0] == seq![b[0]] + pb[0]);
                assert forall|k: int| 0 <= k < wa[0].len() implies alike(
                    #[trigger] wa[0][k],
                    wb[0][k],
                ) by {
                    if k > 0 {
                        assert(alike(pa[0][k - 1], pb[0][k - 1]));
                    } else {
                        assert(alike(a[0], b[0]));
                    }
                }
            }
        }
    }
}

proof fn lemma_trimmed_start_alike(a: Seq<char>, b: Seq<char>)
    requires
        all_alike(a, b),
    ensures
        all_alike(txt::trimmed_start(a), txt::trimmed_start(b)),
    decreases a.len(),
{
    if a.len() > 0 {
        lemma_caseless(a[0], b[0], ' ');
        let (ra, rb) = (a.skip(1), b.skip(1));
        assert forall|i: int| 0 <= i < ra.len() implies alike(#[trigger] ra[i], rb[i]) by {
            assert(alike(a[i + 1], b[i + 1]));
        }
        if txt::is_space(a[0]) {
            lemma_trimmed_start_alike(ra, rb);
        }
    }
}

proof fn lemma_trimmed_end_alike(a: Seq<char>, b: Seq<char>)
    requires
        all_alike(a, b),
    ensures
        all_alike(txt::trimmed_end(a), txt::trimmed_end(b)),
    decreases a.len(),
{
    if a.len() > 0 {
        let n = a.len() - 1;
        assert(alike(a[n], b[n]));
        lemma_caseless(a[n], b[n], ' ');
        let (ra, rb) = (a.drop_last(), b.drop_last());
        assert forall|i: int| 0 <= i < ra.len() implies alike(#[trigger] ra[i], rb[i]) by {
            assert(alike(a[i], b[i]));
        }
        if txt::is_space(a[n]) {
            lemma_trimmed_end_alike(ra, rb);
        }
    }
}

/// Parts alike are both exclusions or neither, and have term texts alike.
proof fn lemma_term_alike(a: Seq<char>, b: Seq<char>)
    requires
        all_alike(a, b),
    ensures
        filter::is_exclusion(a) == filter::is_exclusion(b),
        all_alike(filter::term_text(a), filter::term_text(b)),
{
    lemma_trimmed_start_alike(a, b);
    lemma_trimmed_end_alike(txt::trimmed_start(a), txt::trimmed_start(b));
    let (ta, tb) = (txt::trimmed(a), txt::trimmed(b));
    if ta.len() > 0 {
        lemma_caseless(ta[0], tb[0], '!');
        let (ra, rb) = (ta.skip(1), tb.skip(1));
        assert forall|i: int| 0 <= i < ra.len() implies alike(#[trigger] ra[i], rb[i]) by {
            assert(alike(ta[i + 1], tb[i + 1]));
        }
        lemma_trimmed_start_alike(ra, rb);
        lemma_trimmed_end_alike(txt::trimmed_start(ra), txt::trimmed_start(rb));
    }
}

proof fn lemma_patterns_alike(p: Seq<Seq<char>>, q: Seq<Seq<char>>, exclude: bool, n: int)
    requires
        p.len() == q.len(),
        0 <= n <= p.len(),
        forall|i: int| 0 <= i < p.len() ==> all_alike(#[trigger] p[i], q[i]),
    ensures
        filter::patterns_upto(p, exclude, n) == filter::patterns_upto(q, exclude, n),
    decreases n,
{
    if n > 0 {
        lemma_patterns_alike(p, q, exclude, n - 1);
        lemma_term_alike(p[n - 1], q[n - 1]);
        let (a, b) = (filter::term_text(p[n - 1]), filter::term_text(q[n - 1]));
        lemma_alike(a, b);
        lemma_contains_alike(a, b, '*');
        lemma_contains_alike(a, b, '?');
        lemma_contains_alike(a, b, '/');
    }
}

/// The case of a query and of a path makes no difference to whether the path passes:
/// not for substrings, not for globs.
pub proof fn law_case_makes_no_difference(
    query: Seq<char>,
    other_query: Seq<char>,
    path: Seq<char>,
    other_path: Seq<char>,
)
    requires
        same_but_case(query, other_query),
        same_but_case(path, other_path),
    ensures
        query_passes(query, path) == query_passes(other_query, other_path),
{
    lemma_alike(query, other_query);
    lemma_alike(path, other_path);
    lemma_split_alike(query, other_query, ',');
    lemma_split_alike(path, other_path, '/');
    let (p, q) = (txt::split(query, ','), txt::split(other_query, ','));
    lemma_patterns_alike(p, q, false, p.len() as int);
    lemma_patterns_alike(p, q, true, p.len() as int);
    txt::lemma_split_nonempty(path, '/');
    let last = txt::split(path, '/').len() - 1;
    let (name, other_name) = (filter::file_name(path), filter::file_name(other_path));
    assert(name == txt::split(path, '/')[last] && other_name == txt::split(other_path, '/')[last]);
    lemma_alike(name, other_name);
}

/// Upper case is one such change of case: raising a query or a path, or both, makes no
/// difference.
pub proof fn law_upper_case_makes_no_difference(query: Seq<char>, path: Seq<char>)
    requires
        is_ascii_chars(query),
        is_ascii_chars(path),
    ensures
        query_passes(ascii_uppered(query), path) == query_passes(query, path),
        query_passes(query, ascii_uppered(path)) == query_passes(query, path),
        query_passes(ascii_uppered(query), ascii_uppered(path)) == query_passes(query, path),
{
    lemma_uppered(query);
    lemma_uppered(path);
    law_case_makes_no_difference(ascii_uppered(query), query, path, path);
    law_case_makes_no_difference(query, query, ascii_uppered(path), path);
    law_case_makes_no_difference(ascii_uppered(query), query, ascii_uppered(path), path);
}

proof fn lemma_uppered(s: Seq<char>)
    requires
        is_ascii_chars(s),
    ensures
        same_but_case(ascii_uppered(s), s),
        same_but_case(s, s),
{
    let u = ascii_uppered(s);
    assert forall|i: int| 0 <= i < s.len() implies alike(#[trigger] u[i], s[i]) by {
        assert((s[i] as u32) < 128);
    }
    lemma_alike(u, s);
}

// --- what terms match ------------------------------------------------------------------

/// How a glob is written: `**` crosses directories, a lone `*` and `?` do not, and every
/// other character stands for itself.
pub proof fn law_how_globs_are_written(c: char, rest: Seq<char>)
    ensures
        filter::tokens_of(Seq::empty()) == Seq::<Tok>::empty(),
        c != '*' && c != '?' ==> filter::tokens_of(seq![c] + rest) == seq![Tok::Lit(c)]
            + filter::tokens_of(rest),
        filter::tokens_of(seq!['?'] + rest) == seq![Tok::QMark] + filter::tokens_of(rest),
        rest.len() == 0 || rest[0] != '*' ==> filter::tokens_of(seq!['*'] + rest)
            == seq![Tok::Star] + filter::tokens_of(rest),
        filter::tokens_of(seq!['*', '*'] + rest) == seq![Tok::DoubleStar] + filter::tokens_of(rest),
{
    let a = seq![c] + rest;
    assert(a.skip(1) =~= rest);
    let q = seq!['?'] + rest;
    assert(q.skip(1) =~= rest);
    let one = seq!['*'] + rest;
    assert(one.skip(1) =~= rest);
    let two = seq!['*', '*'] + rest;
    assert(two.skip(2) =~= rest);
    assert(two[0] == '*' && two[1] == '*');
    if rest.len() > 0 {
        assert(one[1] == rest[0]);
        assert(a[1] == rest[0]);
        assert(q[1] == rest[0]);
    }
}

/// What a glob matches, token by token: a literal one character, itself; `?` one character
/// other than a slash; `*` any number of characters other than slashes; `**` any number of
/// any characters; and a glob at its end nothing.
pub proof fn law_what_globs_match(c: char, d: char, rest: Seq<Tok>, text: Seq<char>)
    ensures
        filter::glob(Seq::empty(), text) == (text.len() == 0),
        filter::glob(seq![Tok::Lit(c)] + rest, seq![d] + text) == (c == d && filter::glob(rest, text)),
        !filter::glob(seq![Tok::Lit(c)] + rest, Seq::empty()),
        filter::glob(seq![Tok::QMark] + rest, seq![d] + text) == (d != '/' && filter::glob(
            rest,
            text,
        )),
        !filter::glob(seq![Tok::QMark] + rest, Seq::empty()),
        filter::glob(seq![Tok::Star] + rest, text) <==> exists|a: Seq<char>, b: Seq<char>|
            #[trigger] (a + b) == text && !a.contains('/') && filter::glob(rest, b),
        filter::glob(seq![Tok::DoubleStar] + rest, text) <==> exists|a: Seq<char>, b: Seq<char>|
            #[trigger] (a + b) == text && filter::glob(rest, b),
{
    let full = seq![d] + text;
    assert(full[0] == d);
    assert(full.skip(1) =~= text);
    assert((seq![Tok::Lit(c)] + rest).skip(1) =~= rest);
    assert((seq![Tok::QMark] + rest).skip(1) =~= rest);
    let star = seq![Tok::Star] + rest;
    let both = seq![Tok::DoubleStar] + rest;
    assert(star.skip(1) =~= rest);
    assert(both.skip(1) =~= rest);
    assert(star[0] == Tok::Star && both[0] == Tok::DoubleStar);
    if filter::glob(star, text) {
        let k = choose|k: int|
            0 <= k <= text.len() && !text.take(k).contains('/') && filter::glob(
                rest,
                #[trigger] text.skip(k),
            );
        assert(text.take(k) + text.skip(k) =~= text);
    }
    if exists|a: Seq<char>, b: Seq<char>|
        #[trigger] (a + b) == text && !a.contains('/') && filter::glob(rest, b) {
        let (a, b) = choose|a: Seq<char>, b: Seq<char>|
            #[trigger] (a + b) == text && !a.contains('/') && filter::glob(rest, b);
        assert(text.take(a.len() as int) =~= a);
        assert(text.skip(a.len() as int) =~= b);
    }
    if filter::glob(both, text) {
        let k = choose|k: int|
            0 <= k <= text.len() && filter::glob(rest, #[trigger] text.skip(k));
        assert(text.take(k) + text.skip(k) =~= text);
    }
    if exists|a: Seq<char>, b: Seq<char>|
        #[trigger] (a + b) == text && filter::glob(rest, b) {
        let (a, b) = choose|a: Seq<char>, b: Seq<char>|
            #[trigger] (a + b) == text && filter::glob(rest, b);
        assert(text.skip(a.len() as int) =~= b);
    }
}

/// What a single term lets pass. Without `*` and `?` it is looked for anywhere in the
/// path; with one of them it is a glob, for the whole path if it has a slash, and for the
/// name behind the path's last slash if it has none. Case makes no difference.
pub proof fn law_what_a_term_lets_pass(term: Seq<char>, dir: Seq<char>, name: Seq<char>)
    requires
        term.len() > 0,
        !term.contains(','),
        term[0] != '!',
        !txt::is_space(term[0]),
        !txt::is_space(term.last()),
        dir.len() == 0 || dir.last() == '/',
        !name.contains('/'),
    ensures
        ({
            let path = dir + name;
            let glob = term.contains('*') || term.contains('?');
            &&& !glob ==> query_passes(term, path) == txt::holds(
                txt::lowered(path),
                txt::lowered(term),
            )
            &&& glob && term.contains('/') ==> query_passes(term, path) == filter::glob(
                filter::tokens_of(txt::lowered(term)),
                txt::lowered(path),
            )
            &&& glob && !term.contains('/') ==> query_passes(term, path) == filter::glob(
                filter::tokens_of(txt::lowered(term)),
                txt::lowered(name),
            )
        }),
{
    let path = dir + name;
    assert(txt::trimmed_start(term) == term);
    assert(txt::trimmed_end(term) == term);
    txt::lemma_split_one(term, ',');
    reveal_with_fuel(filter::patterns_upto, 2);
    let p = filter::pattern_of(term, txt::lowered(term));
    assert(filter::query_patterns(term, false) =~= seq![p]);
    assert(filter::query_patterns(term, true) =~= Seq::<Pattern>::empty());
    assert(filter::any_matches(seq![p], path) == filter::term_matches(p, path)) by {
        assert(seq![p][0] == p);
    }
    txt::lemma_split_one(name, '/');
    if dir.len() == 0 {
        assert(path =~= name);
    } else {
        let up = dir.drop_last();
        assert(up.push('/') =~= dir);
        txt::lemma_split_join(up, name, '/');
    }
    assert(filter::file_name(path) == name);
}

/// A query without terms lets everything pass.
pub proof fn law_an_empty_query_asks_nothing(path: Seq<char>)
    ensures
        query_passes(Seq::empty(), path),
{
    let nothing = Seq::<char>::empty();
    txt::lemma_split_one(nothing, ',');
    reveal_with_fuel(filter::patterns_upto, 2);
}

} // verus!
