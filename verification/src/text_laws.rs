//! What the operations on texts come to, piece by piece.

use vstd::prelude::*;
use vstd::utf8::*;
use crate::txt;

verus! {

// --- splitting ---------------------------------------------------------------------

/// The parts with `sep` between them.
pub open spec fn joined(parts: Seq<Seq<char>>, sep: char) -> Seq<char>
    decreases parts.len(),
{
    if parts.len() == 0 {
        Seq::empty()
    } else if parts.len() == 1 {
        parts[0]
    } else {
        joined(parts.drop_last(), sep).push(sep) + parts.last()
    }
}

proof fn lemma_joined_front(first: Seq<char>, parts: Seq<Seq<char>>, sep: char)
    requires
        parts.len() > 0,
    ensures
        joined(seq![first] + parts, sep) == first.push(sep) + joined(parts, sep),
    decreases parts.len(),
{
    let all = seq![first] + parts;
    assert(all.last() == parts.last());
    assert(all.drop_last() =~= seq![first] + parts.drop_last());
    if parts.len() == 1 {
        assert(all.drop_last() =~= seq![first]);
        assert(joined(seq![first], sep) == first);
    } else {
        lemma_joined_front(first, parts.drop_last(), sep);
        assert(joined(all, sep) =~= first.push(sep) + joined(parts, sep));
    }
}

proof fn lemma_joined_head(head: Seq<char>, parts: Seq<Seq<char>>, sep: char)
    requires
        parts.len() > 0,
    ensures
        joined(txt::with_head(head, parts), sep) == head + joined(parts, sep),
{
    let rest = parts.skip(1);
    if rest.len() == 0 {
        assert(txt::with_head(head, parts) =~= seq![head + parts[0]]);
    } else {
        lemma_joined_front(head + parts[0], rest, sep);
        lemma_joined_front(parts[0], rest, sep);
        assert(seq![parts[0]] + rest =~= parts);
        assert(joined(txt::with_head(head, parts), sep) =~= head + joined(parts, sep));
    }
}

/// The pieces of a text, put together with the separator between them, are the text; and
/// no piece holds a separator.
pub proof fn law_pieces_join_back(s: Seq<char>, sep: char)
    ensures
        txt::split(s, sep).len() >= 1,
        joined(txt::split(s, sep), sep) == s,
        forall|i: int, k: int|
            0 <= i < txt::split(s, sep).len() && 0 <= k < txt::split(s, sep)[i].len()
                ==> #[trigger] txt::split(s, sep)[i][k] != sep,
    decreases s.len(),
{
    if s.len() == 0 {
        assert(joined(txt::split(s, sep), sep) =~= s);
    } else {
        let rest = txt::split(s.skip(1), sep);
        law_pieces_join_back(s.skip(1), sep);
        if s[0] == sep {
            lemma_joined_front(Seq::empty(), rest, sep);
            assert(joined(txt::split(s, sep), sep) =~= s);
        } else {
            lemma_joined_head(seq![s[0]], rest, sep);
            assert(joined(txt::split(s, sep), sep) =~= s);
        }
        let parts = txt::split(s, sep);
        assert forall|i: int, k: int| 0 <= i < parts.len() && 0 <= k < parts[i].len()
            implies #[trigger] parts[i][k] != sep by {
            if s[0] == sep {
                if i > 0 {
                    assert(parts[i] == rest[i - 1]);
                    assert(rest[i - 1][k] != sep);
                }
            } else if i > 0 {
                assert(parts[i] == rest[i]);
                assert(rest[i][k] != sep);
            } else {
                assert(parts[0] == seq![s[0]] + rest[0]);
                if k > 0 {
                    assert(rest[0][k - 1] != sep);
                }
            }
        }
    }
}

/// What stands before the first separator, and what stands after it.
pub proof fn law_cutting(a: Seq<char>, sep: char, b: Seq<char>)
    requires
        forall|i: int| 0 <= i < a.len() ==> #[trigger] a[i] != sep,
    ensures
        txt::cut(a.push(sep) + b, sep) == Some((a, b)),
        txt::cut(a, sep) is None,
{
    let s = a.push(sep) + b;
    let pat = seq![sep];
    txt::lemma_find_from(s, pat, 0);
    txt::lemma_find_from(a, pat, 0);
    let n = a.len() as int;
    assert(s.subrange(n, n + 1) =~= pat);
    assert(txt::occurs_at(s, pat, n));
    assert forall|j: int| 0 <= j < n implies !txt::occurs_at(s, pat, j) by {
        assert(s[j] == a[j]);
        if txt::occurs_at(s, pat, j) {
            assert(s.subrange(j, j + 1)[0] == pat[0]);
        }
    }
    if let Some(j) = txt::find_from(a, pat, 0) {
        assert(a.subrange(j, j + 1)[0] == pat[0]);
        assert(a[j] == sep);
    }
    assert(s.take(n) =~= a);
    assert(s.skip(n + 1) =~= b);
}

proof fn lemma_nonempty_start(a: Seq<Seq<char>>, b: Seq<Seq<char>>, n: int)
    requires
        0 <= n <= a.len(),
        n <= b.len(),
        forall|i: int| 0 <= i < n ==> #[trigger] a[i] == b[i],
    ensures
        txt::nonempty_upto(a, n) == txt::nonempty_upto(b, n),
    decreases n,
{
    if n > 0 {
        lemma_nonempty_start(a, b, n - 1);
        assert(a[n - 1] == b[n - 1]);
    }
}

proof fn lemma_nonempty_joined(p: Seq<Seq<char>>, q: Seq<Seq<char>>, k: int)
    requires
        0 <= k <= q.len(),
    ensures
        txt::nonempty_upto(p + q, p.len() + k) == txt::nonempty_upto(p, p.len() as int)
            + txt::nonempty_upto(q, k),
    decreases k,
{
    let all = p + q;
    let first = txt::nonempty_upto(p, p.len() as int);
    if k == 0 {
        lemma_nonempty_start(all, p, p.len() as int);
        assert(first + txt::nonempty_upto(q, k) =~= first);
    } else {
        lemma_nonempty_joined(p, q, k - 1);
        assert(all[p.len() + k - 1] == q[k - 1]);
        assert(txt::nonempty_upto(all, p.len() + k) =~= first + txt::nonempty_upto(q, k));
    }
}

/// The fields of two texts with a separator between them are those of each; a text
/// without separators is one field, or none if it is empty.
pub proof fn law_fields(a: Seq<char>, sep: char, b: Seq<char>)
    ensures
        txt::fields(a.push(sep) + b, sep) == txt::fields(a, sep) + txt::fields(b, sep),
        (forall|i: int| 0 <= i < a.len() ==> #[trigger] a[i] != sep) && a.len() > 0
            ==> txt::fields(a, sep) == seq![a],
        txt::fields(Seq::empty(), sep) == Seq::<Seq<char>>::empty(),
{
    txt::lemma_split_join(a, b, sep);
    lemma_nonempty_joined(txt::split(a, sep), txt::split(b, sep), txt::split(b, sep).len() as int);
    reveal_with_fuel(txt::nonempty_upto, 2);
    let nothing = Seq::<char>::empty();
    txt::lemma_split_one(nothing, sep);
    assert(txt::fields(nothing, sep) =~= Seq::<Seq<char>>::empty());
    if forall|i: int| 0 <= i < a.len() ==> #[trigger] a[i] != sep {
        txt::lemma_split_one(a, sep);
        assert(a.len() > 0 ==> txt::fields(a, sep) =~= seq![a]);
    }
}

/// A line ends at a newline, or at a carriage return and a newline, and is kept as it is;
/// what stands behind the last newline is a line if there is anything.
pub proof fn law_lines(a: Seq<char>, line: Seq<char>)
    requires
        a.len() == 0 || a.last() == '\n',
        forall|i: int| 0 <= i < line.len() ==> #[trigger] line[i] != '\n',
    ensures
        txt::lines(Seq::empty()) == Seq::<Seq<char>>::empty(),
        line.len() == 0 || line.last() != '\r' ==> txt::lines(a + line.push('\n')) == txt::lines(
            a,
        ).push(line),
        txt::lines(a + line.push('\r').push('\n')) == txt::lines(a).push(line),
        line.len() > 0 ==> txt::lines(a + line) == txt::lines(a).push(line),
{
    let nothing = Seq::<char>::empty();
    txt::lemma_split_one(nothing, '\n');
    assert(txt::lines(nothing) =~= Seq::<Seq<char>>::empty());
    let cr = line.push('\r');
    assert forall|i: int| 0 <= i < cr.len() implies #[trigger] cr[i] != '\n' by {
        if i < line.len() {
            assert(line[i] != '\n');
        }
    }
    txt::law_lines_of_joined_texts(a, line.push('\n'));
    txt::law_lines_of_joined_texts(a, cr.push('\n'));
    txt::law_lines_of_joined_texts(a, line);
    txt::lemma_one_line(line);
    txt::lemma_one_line(cr);
    assert(cr.drop_last() =~= line);
    let la = txt::lines(a);
    assert(la + seq![line] =~= la.push(line));
    txt::lemma_split_one(line, '\n');
    let parts = txt::split(line, '\n');
    assert(parts.last() == line);
    if line.len() > 0 {
        assert(txt::lines(line) =~= seq![line]);
    }
}

// --- blanks --------------------------------------------------------------------------

/// Whether a text is all whitespace.
pub open spec fn blank(s: Seq<char>) -> bool {
    forall|i: int| 0 <= i < s.len() ==> txt::is_space(#[trigger] s[i])
}

proof fn lemma_trimmed_start(s: Seq<char>) -> (n: int)
    ensures
        0 <= n <= s.len(),
        txt::trimmed_start(s) == s.skip(n),
        blank(s.take(n)),
        n < s.len() ==> !txt::is_space(s[n]),
    decreases s.len(),
{
    if s.len() > 0 && txt::is_space(s[0]) {
        let rest = s.skip(1);
        let m = lemma_trimmed_start(rest);
        assert(rest.skip(m) =~= s.skip(m + 1));
        let head = s.take(m + 1);
        assert forall|i: int| 0 <= i < head.len() implies txt::is_space(#[trigger] head[i]) by {
            if i > 0 {
                assert(rest.take(m)[i - 1] == head[i]);
            }
        }
        m + 1
    } else {
        assert(s.skip(0) =~= s);
        0
    }
}

proof fn lemma_trimmed_end(s: Seq<char>) -> (n: int)
    ensures
        0 <= n <= s.len(),
        txt::trimmed_end(s) == s.take(n),
        blank(s.skip(n)),
        n > 0 ==> !txt::is_space(s[n - 1]),
    decreases s.len(),
{
    if s.len() > 0 && txt::is_space(s.last()) {
        let rest = s.drop_last();
        let m = lemma_trimmed_end(rest);
        assert(rest.take(m) =~= s.take(m));
        let tail = s.skip(m);
        assert forall|i: int| 0 <= i < tail.len() implies txt::is_space(#[trigger] tail[i]) by {
            if m + i < s.len() - 1 {
                assert(rest.skip(m)[i] == tail[i]);
            }
        }
        m
    } else {
        assert(s.take(s.len() as int) =~= s);
        s.len() as int
    }
}

/// Trimming takes the whitespace off both ends, all of it, and nothing else.
pub proof fn law_trimming(s: Seq<char>) -> (r: (Seq<char>, Seq<char>))
    ensures
        s == r.0 + txt::trimmed(s) + r.1,
        blank(r.0),
        blank(r.1),
        txt::trimmed(s).len() > 0 ==> !txt::is_space(txt::trimmed(s)[0]) && !txt::is_space(
            txt::trimmed(s).last(),
        ),
{
    let n = lemma_trimmed_start(s);
    let mid = s.skip(n);
    let m = lemma_trimmed_end(mid);
    assert(s =~= s.take(n) + mid.take(m) + mid.skip(m));
    (s.take(n), mid.skip(m))
}

/// Which characters are whitespace.
pub proof fn law_whitespace(c: char)
    ensures
        (c as u32) < 128 ==> (txt::is_space(c) <==> c == ' ' || c == '\t' || c == '\n' || c
            == '\u{b}' || c == '\u{c}' || c == '\r'),
        (c as u32) >= 128 ==> (txt::is_space(c) <==> c == '\u{85}' || c == '\u{a0}' || c
            == '\u{1680}' || (0x2000 <= c as u32 && c as u32 <= 0x200a) || c == '\u{2028}' || c
            == '\u{2029}' || c == '\u{202f}' || c == '\u{205f}' || c == '\u{3000}'),
{
}

// --- finding -------------------------------------------------------------------------

/// A text holds a pattern exactly if it is something, the pattern, and something more.
pub proof fn law_holding(s: Seq<char>, pat: Seq<char>)
    ensures
        txt::holds(s, pat) <==> exists|a: Seq<char>, b: Seq<char>| #[trigger] (a + pat + b) == s,
        txt::has_prefix(s, pat) <==> exists|b: Seq<char>| #[trigger] (pat + b) == s,
{
    if txt::holds(s, pat) {
        let i = choose|i: int| txt::occurs_at(s, pat, i);
        assert(s.take(i) + pat + s.skip(i + pat.len()) =~= s) by {
            assert forall|k: int| 0 <= k < pat.len() implies s[i + k] == pat[k] by {
                assert(s.subrange(i, i + pat.len())[k] == s[i + k]);
            }
        }
    }
    if exists|a: Seq<char>, b: Seq<char>| #[trigger] (a + pat + b) == s {
        let (a, b) = choose|a: Seq<char>, b: Seq<char>| #[trigger] (a + pat + b) == s;
        assert(s.subrange(a.len() as int, (a.len() + pat.len()) as int) =~= pat);
        assert(txt::occurs_at(s, pat, a.len() as int));
    }
    if txt::has_prefix(s, pat) {
        assert(pat + s.skip(pat.len() as int) =~= s) by {
            assert forall|k: int| 0 <= k < pat.len() implies s[k] == pat[k] by {
                assert(s.take(pat.len() as int)[k] == s[k]);
            }
        }
    }
    if exists|b: Seq<char>| #[trigger] (pat + b) == s {
        let b = choose|b: Seq<char>| #[trigger] (pat + b) == s;
        assert(s.take(pat.len() as int) =~= pat);
    }
}

/// The first place where a pattern stands is found, and the last one.
pub proof fn law_finding(s: Seq<char>, pat: Seq<char>, at: int)
    requires
        0 <= at,
        at + pat.len() <= s.len(),
        forall|k: int| 0 <= k < pat.len() ==> s[at + k] == #[trigger] pat[k],
    ensures
        txt::find_from(s, pat, 0) matches Some(i) && 0 <= i <= at && i + pat.len() <= s.len()
            && forall|k: int| 0 <= k < pat.len() ==> s[i + k] == #[trigger] pat[k],
        txt::last_found(s, pat) matches Some(i) && at <= i && i + pat.len() <= s.len()
            && forall|k: int| 0 <= k < pat.len() ==> s[i + k] == #[trigger] pat[k],
{
    assert(s.subrange(at, at + pat.len()) =~= pat);
    assert(txt::occurs_at(s, pat, at));
    txt::lemma_find_from(s, pat, 0);
    let i = txt::find_from(s, pat, 0)->0;
    assert forall|k: int| 0 <= k < pat.len() implies s[i + k] == #[trigger] pat[k] by {
        assert(s.subrange(i, i + pat.len())[k] == s[i + k]);
    }
    lemma_last_found(s, pat, at, s.len() - pat.len());
    let j = txt::last_found(s, pat)->0;
    assert forall|k: int| 0 <= k < pat.len() implies s[j + k] == #[trigger] pat[k] by {
        assert(s.subrange(j, j + pat.len())[k] == s[j + k]);
    }
}

proof fn lemma_last_found(s: Seq<char>, pat: Seq<char>, at: int, from: int)
    requires
        0 <= at <= from,
        txt::occurs_at(s, pat, at),
    ensures
        txt::rfind_from(s, pat, from) matches Some(j) && at <= j <= from && txt::occurs_at(
            s,
            pat,
            j,
        ),
    decreases from,
{
    if !txt::occurs_at(s, pat, from) {
        lemma_last_found(s, pat, at, from - 1);
    }
}

// --- replacing -----------------------------------------------------------------------

/// Replacing goes character by character: the one is replaced, the others stay.
pub proof fn law_replacing(a: Seq<char>, b: Seq<char>, c: char, d: char, with: Seq<char>)
    ensures
        txt::replaced(a + b, c, with) == txt::replaced(a, c, with) + txt::replaced(b, c, with),
        txt::replaced(seq![c], c, with) == with,
        d != c ==> txt::replaced(seq![d], c, with) == seq![d],
        txt::replaced(Seq::empty(), c, with) == Seq::<char>::empty(),
    decreases b.len(),
{
    let nothing = Seq::<char>::empty();
    reveal_with_fuel(txt::replaced, 2);
    assert(seq![c].drop_last() =~= nothing);
    assert(seq![d].drop_last() =~= nothing);
    assert(txt::replaced(seq![c], c, with) =~= with);
    if d != c {
        assert(txt::replaced(seq![d], c, with) =~= seq![d]);
    }
    if b.len() == 0 {
        assert(a + b =~= a);
        assert(txt::replaced(a, c, with) + nothing =~= txt::replaced(a, c, with));
    } else {
        law_replacing(a, b.drop_last(), c, d, with);
        assert((a + b).drop_last() =~= a + b.drop_last());
        assert((a + b).last() == b.last());
        assert(txt::replaced(a + b, c, with) =~= txt::replaced(a, c, with) + txt::replaced(
            b,
            c,
            with,
        ));
    }
}

// --- case and numbers ----------------------------------------------------------------

/// Lower case of ASCII text: `A` to `Z` become `a` to `z`, one for one, and every other
/// character stays.
pub proof fn law_lower_case(s: Seq<char>, i: int)
    requires
        is_ascii_chars(s),
        0 <= i < s.len(),
    ensures
        txt::lowered(s).len() == s.len(),
        65 <= s[i] as u32 && s[i] as u32 <= 90 ==> txt::lowered(s)[i] as u32 == s[i] as u32 + 32,
        !(65 <= s[i] as u32 && s[i] as u32 <= 90) ==> txt::lowered(s)[i] == s[i],
        txt::ascii_lowered(s) == txt::lowered(s),
{
}

/// The same of a single character, ASCII or not.
pub proof fn law_lower_case_letters(c: char)
    ensures
        65 <= c as u32 && c as u32 <= 90 ==> txt::ascii_lower(c) as u32 == c as u32 + 32,
        !(65 <= c as u32 && c as u32 <= 90) ==> txt::ascii_lower(c) == c,
{
}

/// ASCII text has an upper-case character exactly if one of `A` to `Z` is in it.
pub proof fn law_upper_case(s: Seq<char>)
    requires
        is_ascii_chars(s),
    ensures
        txt::has_upper(s) <==> exists|i: int|
            0 <= i < s.len() && 65 <= (#[trigger] s[i]) as u32 && s[i] as u32 <= 90,
{
    if txt::has_upper(s) {
        let i = choose|i: int| 0 <= i < s.len() && txt::upper(#[trigger] s[i]);
        assert((s[i] as u32) < 128);
    }
    if exists|i: int| 0 <= i < s.len() && 65 <= (#[trigger] s[i]) as u32 && s[i] as u32 <= 90 {
        let i = choose|i: int|
            0 <= i < s.len() && 65 <= (#[trigger] s[i]) as u32 && s[i] as u32 <= 90;
        assert(txt::upper(s[i]));
    }
}

/// Numbers are written with the digits `0` to `9`, the most significant first and no zero
/// in front.
pub proof fn law_decimals(n: nat, d: nat)
    requires
        d < 10,
    ensures
        txt::decimal(d) == seq![(48 + d) as char],
        n > 0 ==> txt::decimal(n * 10 + d) == txt::decimal(n).push((48 + d) as char),
{
}

/// Digits are read as the number they write, zeros in front and one `+` make no
/// difference, a number that is too large is none, and neither is anything else.
pub proof fn law_reading_numbers(s: Seq<char>, d: nat, max: nat)
    requires
        d < 10,
    ensures
        txt::parsed(seq![(48 + d) as char], max) == if d <= max {
            Some(d)
        } else {
            None
        },
        s.len() > 0 && s[0] != '+' && txt::all_digits(s) ==> ({
            let n = txt::digits_value(s);
            &&& txt::digits_value(s.push((48 + d) as char)) == n * 10 + d
            &&& txt::parsed(s, max) == if n <= max {
                Some(n)
            } else {
                None
            }
            &&& txt::parsed(seq!['+'] + s, max) == txt::parsed(s, max)
        }),
        txt::all_digits(s) <==> forall|i: int|
            0 <= i < s.len() ==> '0' <= #[trigger] s[i] <= '9',
        txt::parsed(Seq::empty(), max) is None,
        s.len() > 0 && s[0] != '+' && !txt::all_digits(s) ==> txt::parsed(s, max) is None,
{
    let one = seq![(48 + d) as char];
    reveal_with_fuel(txt::digits_value, 2);
    assert(one.drop_last() =~= Seq::<char>::empty());
    assert(one[0] != '+');
    assert(txt::all_digits(one));
    assert(s.push((48 + d) as char).drop_last() =~= s);
    assert((seq!['+'] + s).skip(1) =~= s);
    if forall|i: int| 0 <= i < s.len() ==> '0' <= #[trigger] s[i] <= '9' {
        assert forall|i: int| 0 <= i < s.len() implies txt::is_digit(#[trigger] s[i]) by {}
    }
    if txt::all_digits(s) {
        assert forall|i: int| 0 <= i < s.len() implies '0' <= #[trigger] s[i] <= '9' by {
            assert(txt::is_digit(s[i]));
        }
    }
}

} // verus!
