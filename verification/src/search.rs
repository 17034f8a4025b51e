//! In-diff content search: find a needle in the added and deleted lines of raw
//! git diffs, and locate each hit in the rendered output by content-anchored
//! alignment.
//!
//! Matching is literal with smartcase: a needle without upper-case characters
//! matches ASCII-case-insensitively, any upper-case character makes it exact.

use vstd::prelude::*;
use vstd::slice::slice_subrange;
use crate::txt;

verus! {

// --- ANSI escapes --------------------------------------------------------------

/// Whether `c` ends a CSI sequence.
pub open spec fn is_csi_final(c: char) -> bool {
    '\u{40}' <= c <= '\u{7e}'
}

/// What follows the CSI sequence whose parameters start `s`.
pub open spec fn after_csi(s: Seq<char>) -> Seq<char>
    decreases s.len(),
{
    if s.len() == 0 {
        s
    } else if is_csi_final(s[0]) {
        s.skip(1)
    } else {
        after_csi(s.skip(1))
    }
}

pub proof fn lemma_after_csi_len(s: Seq<char>)
    ensures
        after_csi(s).len() <= s.len(),
    decreases s.len(),
{
    if s.len() > 0 && !is_csi_final(s[0]) {
        lemma_after_csi_len(s.skip(1));
    }
}

/// `s` without its escape sequences: `ESC [` swallows everything up to the
/// sequence's final character, any other escape the one character after it.
pub open spec fn plain_text(s: Seq<char>) -> Seq<char>
    decreases s.len(),
{
    if s.len() == 0 {
        s
    } else if s[0] != '\u{1b}' {
        seq![s[0]] + plain_text(s.skip(1))
    } else if s.len() == 1 {
        Seq::empty()
    } else if s[1] == '[' {
        proof {
            lemma_after_csi_len(s.skip(2));
        }
        plain_text(after_csi(s.skip(2)))
    } else {
        plain_text(s.skip(2))
    }
}

/// Removes ANSI escape sequences.
pub fn strip_ansi(s: &str) -> (out: String)
    ensures
        out@ == plain_text(s@),
{
    let chars = txt::chars_of(s);
    let n = chars.len();
    let mut out = String::new();
    let mut i: usize = 0;
    assert(s@.skip(0) =~= s@);
    assert(out@ + plain_text(s@) =~= plain_text(s@));
    while i < n
        invariant
            chars@ == s@,
            n == s@.len(),
            i <= n,
            plain_text(s@) == out@ + plain_text(s@.skip(i as int)),
        decreases n - i,
    {
        let ghost rest = s@.skip(i as int);
        let c = chars[i];
        if c != '\u{1b}' {
            let ghost was = out@;
            out.push(c);
            assert(rest.skip(1) =~= s@.skip(i as int + 1));
            assert(was + (seq![c] + plain_text(rest.skip(1))) =~= out@ + plain_text(rest.skip(1)));
            i = i + 1;
        } else if i + 1 == n {
            i = n;
            assert(s@.skip(n as int) =~= Seq::<char>::empty());
        } else if chars[i + 1] == '[' {
            i = i + 2;
            assert(rest.skip(2) =~= s@.skip(i as int));
            let ghost params = s@.skip(i as int);
            let ghost from = i;
            let mut done: bool = false;
            while i < n && !done
                invariant
                    from <= i,
                    chars@ == s@,
                    n == s@.len(),
                    i <= n,
                    done ==> after_csi(params) == s@.skip(i as int),
                    !done ==> after_csi(params) == after_csi(s@.skip(i as int)),
                decreases n - i,
            {
                let f = chars[i];
                assert(s@.skip(i as int).skip(1) =~= s@.skip(i as int + 1));
                if '\u{40}' <= f && f <= '\u{7e}' {
                    done = true;
                }
                i = i + 1;
            }
            assert(after_csi(params) == s@.skip(i as int));
        } else {
            assert(rest.skip(2) =~= s@.skip(i as int + 2));
            i = i + 2;
        }
    }
    assert(s@.skip(i as int) =~= Seq::<char>::empty());
    assert(out@ + Seq::<char>::empty() =~= out@);
    out
}

// --- diff bodies ---------------------------------------------------------------

/// What a body line of a unified diff is.
#[derive(Debug, Clone, Copy, PartialEq, Eq, Structural)]
pub enum LineKind {
    Add,
    Del,
    Context,
}

/// One body line of a unified diff (prefix stripped).
#[derive(Debug, Clone, PartialEq)]
pub struct BodyLine {
    pub text: String,
    pub kind: LineKind,
}

/// A body line's text and kind.
#[verifier::ext_equal]
pub struct Body {
    pub text: Seq<char>,
    pub kind: LineKind,
}

impl View for BodyLine {
    type V = Body;

    open spec fn view(&self) -> Body {
        Body { text: self.text@, kind: self.kind }
    }
}

/// The body lines a list of `BodyLine`s holds.
pub open spec fn bodies(list: Seq<BodyLine>) -> Seq<Body> {
    list.map_values(|b: BodyLine| b@)
}

/// Whether `line` is a hunk header.
pub open spec fn is_hunk_header(line: Seq<char>) -> bool {
    txt::has_prefix(line, seq!['@', '@'])
}

/// Whether `line` opens the next file's section.
pub open spec fn is_file_header(line: Seq<char>) -> bool {
    txt::has_prefix(line, seq!['d', 'i', 'f', 'f', ' '])
}

/// Whether line `i` stands inside a hunk: some hunk header comes before it, with
/// no new file section in between.
pub open spec fn in_hunk(ls: Seq<Seq<char>>, i: int) -> bool
    decreases i,
{
    if i <= 0 {
        false
    } else if is_hunk_header(ls[i - 1]) {
        true
    } else if is_file_header(ls[i - 1]) {
        false
    } else {
        in_hunk(ls, i - 1)
    }
}

/// The kind that a line's first character marks.
pub open spec fn marked_kind(c: char) -> Option<LineKind> {
    if c == '+' {
        Some(LineKind::Add)
    } else if c == '-' {
        Some(LineKind::Del)
    } else if c == ' ' {
        Some(LineKind::Context)
    } else {
        None
    }
}

/// The body line that line `i` is, if it is one.
pub open spec fn body_at(ls: Seq<Seq<char>>, i: int) -> Seq<Body> {
    let line = ls[i];
    if !is_hunk_header(line) && !is_file_header(line) && in_hunk(ls, i) && line.len() > 0
        && marked_kind(line[0]) is Some {
        seq![Body { text: line.skip(1), kind: marked_kind(line[0])->0 }]
    } else {
        Seq::empty()
    }
}

/// The body lines among the first `n` lines.
pub open spec fn body_upto(ls: Seq<Seq<char>>, n: int) -> Seq<Body>
    decreases n,
{
    if n <= 0 {
        Seq::empty()
    } else {
        body_upto(ls, n - 1) + body_at(ls, n - 1)
    }
}

/// The body lines of a unified diff.
pub open spec fn diff_body(diff: Seq<char>) -> Seq<Body> {
    body_upto(txt::lines(diff), txt::lines(diff).len() as int)
}

/// Extracts the body lines (added, deleted, context) of an ANSI-stripped unified
/// diff. File headers (which stand before the first `@@` of a file's section),
/// hunk headers, and `\ No newline` markers are left out.
pub fn body_lines(diff: &str) -> (out: Vec<BodyLine>)
    ensures
        bodies(out@) == diff_body(diff@),
{
    let chars = txt::chars_of(diff);
    let all = txt::lines_of(chars.as_slice());
    let ghost ls = txt::lines(diff@);
    let n = all.len();
    let at: Vec<char> = vec!['@', '@'];
    let file: Vec<char> = vec!['d', 'i', 'f', 'f', ' '];
    assert(at@ =~= seq!['@', '@']);
    assert(file@ =~= seq!['d', 'i', 'f', 'f', ' ']);
    let mut out: Vec<BodyLine> = Vec::new();
    let mut inside: bool = false;
    let mut i: usize = 0;
    assert(bodies(out@) =~= Seq::<Body>::empty());
    while i < n
        invariant
            i <= n,
            n == all@.len(),
            txt::parts_of(all@) == ls,
            at@ == seq!['@', '@'],
            file@ == seq!['d', 'i', 'f', 'f', ' '],
            inside == in_hunk(ls, i as int),
            bodies(out@) == body_upto(ls, i as int),
        decreases n - i,
    {
        let line = all[i].as_slice();
        assert(line@ == ls[i as int]);
        let ghost was = bodies(out@);
        if txt::starts_with(line, at.as_slice()) {
            inside = true;
            assert(was + body_at(ls, i as int) =~= was);
        } else if txt::starts_with(line, file.as_slice()) {
            inside = false;
            assert(was + body_at(ls, i as int) =~= was);
        } else if inside && line.len() > 0 {
            let kind: Option<LineKind> = if line[0] == '+' {
                Some(LineKind::Add)
            } else if line[0] == '-' {
                Some(LineKind::Del)
            } else if line[0] == ' ' {
                Some(LineKind::Context)
            } else {
                None
            };
            if let Some(kind) = kind {
                let rest = slice_subrange(line, 1, line.len());
                assert(rest@ =~= line@.skip(1));
                let b = BodyLine { text: txt::string_of(rest), kind };
                let ghost bb = b@;
                out.push(b);
                assert(bodies(out@) =~= was.push(bb));
                assert(was + body_at(ls, i as int) =~= was.push(bb));
            } else {
                assert(was + body_at(ls, i as int) =~= was);
            }
        } else {
            assert(was + body_at(ls, i as int) =~= was);
        }
        i = i + 1;
    }
    assert(ls.len() == n);
    out
}

// --- scope ---------------------------------------------------------------------

/// Which line kinds a content search inspects.
#[derive(Debug, Clone, Copy, PartialEq, Eq, Structural)]
pub enum Scope {
    Both,
    Add,
    Del,
}

/// Whether a search of scope `s` inspects lines of kind `k`.
pub open spec fn scope_admits(s: Scope, k: LineKind) -> bool {
    match k {
        LineKind::Context => false,
        LineKind::Add => s != Scope::Del,
        LineKind::Del => s != Scope::Add,
    }
}

/// The scope after `s` in the cycle both, added, deleted.
pub open spec fn next_scope(s: Scope) -> Scope {
    match s {
        Scope::Both => Scope::Add,
        Scope::Add => Scope::Del,
        Scope::Del => Scope::Both,
    }
}

/// The sign that shows a scope.
pub open spec fn scope_glyph(s: Scope) -> Seq<char> {
    match s {
        Scope::Both => "±"@,
        Scope::Add => "+"@,
        Scope::Del => "−"@,
    }
}

impl Scope {
    pub fn cycle(self) -> (r: Scope)
        ensures
            r == next_scope(self),
    {
        match self {
            Scope::Both => Scope::Add,
            Scope::Add => Scope::Del,
            Scope::Del => Scope::Both,
        }
    }

    pub fn glyph(self) -> (r: &'static str)
        ensures
            r@ == scope_glyph(self),
    {
        match self {
            Scope::Both => "±",
            Scope::Add => "+",
            Scope::Del => "−",
        }
    }

    pub fn admits(self, kind: LineKind) -> (r: bool)
        ensures
            r == scope_admits(self, kind),
    {
        match (self, kind) {
            (_, LineKind::Context) => false,
            (Scope::Both, _) => true,
            (Scope::Add, LineKind::Add) => true,
            (Scope::Del, LineKind::Del) => true,
            _ => false,
        }
    }
}

// --- matching ------------------------------------------------------------------

/// Whether two characters match: exactly, or up to ASCII case.
pub open spec fn chars_match(a: char, b: char, exact: bool) -> bool {
    if exact {
        a == b
    } else {
        txt::ascii_lower(a) == txt::ascii_lower(b)
    }
}

/// Whether `needle` matches `hay` at `start`.
pub open spec fn matches_at(hay: Seq<char>, needle: Seq<char>, exact: bool, start: int) -> bool {
    &&& 0 <= start
    &&& start + needle.len() <= hay.len()
    &&& forall|k: int|
        0 <= k < needle.len() ==> chars_match(#[trigger] hay[start + k], needle[k], exact)
}

/// The ranges of the matches that start before `end`, in order.
pub open spec fn hits_before(
    hay: Seq<char>,
    needle: Seq<char>,
    exact: bool,
    end: int,
) -> Seq<(usize, usize)>
    decreases end,
{
    if end <= 0 {
        Seq::empty()
    } else {
        let before = hits_before(hay, needle, exact, end - 1);
        if matches_at(hay, needle, exact, end - 1) {
            before.push(((end - 1) as usize, (end - 1 + needle.len()) as usize))
        } else {
            before
        }
    }
}

/// Every match of `needle` in `hay`, as character ranges in increasing order;
/// an empty needle matches nowhere.
pub open spec fn hits(hay: Seq<char>, needle: Seq<char>, exact: bool) -> Seq<(usize, usize)> {
    if needle.len() == 0 {
        Seq::empty()
    } else {
        hits_before(hay, needle, exact, hay.len() as int)
    }
}

/// Every smartcase match of `needle` in `hay`.
pub open spec fn smart_hits(hay: Seq<char>, needle: Seq<char>) -> Seq<(usize, usize)> {
    hits(hay, needle, txt::has_upper(needle))
}

/// Whether `needle` matches `hay` at `start`.
fn match_here(hay: &[char], needle: &[char], exact: bool, start: usize) -> (r: bool)
    requires
        start + needle@.len() <= hay@.len(),
    ensures
        r == matches_at(hay@, needle@, exact, start as int),
{
    let n = hay.len();
    let mut k: usize = 0;
    while k < needle.len()
        invariant
            k <= needle@.len(),
            n == hay@.len(),
            start + needle@.len() <= n,
            forall|j: int|
                0 <= j < k ==> chars_match(#[trigger] hay@[start + j], needle@[j], exact),
        decreases needle@.len() - k,
    {
        let a = hay[start + k];
        let b = needle[k];
        let ok = if exact {
            a == b
        } else {
            txt::same_ascii_case(a, b)
        };
        if !ok {
            assert(!chars_match(hay@[start + k], needle@[k as int], exact));
            return false;
        }
        k = k + 1;
    }
    true
}

/// Every match of `needle` in `hay`, exact or up to ASCII case.
pub fn find_hits(hay: &[char], needle: &[char], exact: bool) -> (out: Vec<(usize, usize)>)
    ensures
        out@ == hits(hay@, needle@, exact),
{
    let mut out: Vec<(usize, usize)> = Vec::new();
    if needle.len() == 0 {
        return out;
    }
    let n = hay.len();
    let mut start: usize = 0;
    while start < n
        invariant
            start <= n,
            n == hay@.len(),
            needle@.len() > 0,
            out@ == hits_before(hay@, needle@, exact, start as int),
        decreases n - start,
    {
        if needle.len() <= n - start && match_here(hay, needle, exact, start) {
            out.push((start, start + needle.len()));
        }
        start = start + 1;
    }
    out
}

/// Character ranges of every smartcase occurrence of `needle` in `hay`.
pub fn find_matches(hay: &str, needle: &str) -> (out: Vec<(usize, usize)>)
    ensures
        out@ == smart_hits(hay@, needle@),
{
    let h = txt::chars_of(hay);
    let n = txt::chars_of(needle);
    let exact = txt::any_uppercase(n.as_slice());
    find_hits(h.as_slice(), n.as_slice(), exact)
}

// --- counting ------------------------------------------------------------------

/// How many matches the scope-admitted lines among the first `n` hold.
pub open spec fn count_upto(body: Seq<Body>, needle: Seq<char>, scope: Scope, n: int) -> nat
    decreases n,
{
    if n <= 0 {
        0
    } else {
        count_upto(body, needle, scope, n - 1) + if scope_admits(scope, body[n - 1].kind) {
            smart_hits(body[n - 1].text, needle).len()
        } else {
            0
        }
    }
}

/// How many matches of `needle` the scope-admitted lines of a diff hold.
pub open spec fn match_count(raw: Seq<char>, needle: Seq<char>, scope: Scope) -> nat {
    count_upto(diff_body(raw), needle, scope, diff_body(raw).len() as int)
}

/// The summed length of the first `n` texts.
spec fn total_upto(ls: Seq<Seq<char>>, n: int) -> nat
    decreases n,
{
    if n <= 0 {
        0
    } else {
        total_upto(ls, n - 1) + ls[n - 1].len()
    }
}

proof fn lemma_total_front(head: Seq<char>, rest: Seq<Seq<char>>, n: int)
    requires
        0 <= n <= rest.len(),
    ensures
        total_upto(seq![head] + rest, n + 1) == head.len() + total_upto(rest, n),
    decreases n,
{
    reveal_with_fuel(total_upto, 2);
    if n > 0 {
        lemma_total_front(head, rest, n - 1);
        assert((seq![head] + rest)[n] == rest[n - 1]);
    }
}

proof fn lemma_split_total(s: Seq<char>, sep: char)
    ensures
        total_upto(txt::split(s, sep), txt::split(s, sep).len() as int) <= s.len(),
    decreases s.len(),
{
    reveal_with_fuel(total_upto, 2);
    if s.len() > 0 {
        let rest = txt::split(s.skip(1), sep);
        txt::lemma_split_nonempty(s.skip(1), sep);
        lemma_split_total(s.skip(1), sep);
        if s[0] == sep {
            lemma_total_front(Seq::empty(), rest, rest.len() as int);
        } else {
            let one = seq![s[0]];
            let tail = rest.skip(1);
            assert(rest =~= seq![rest[0]] + tail);
            lemma_total_front(rest[0], tail, tail.len() as int);
            lemma_total_front(one + rest[0], tail, tail.len() as int);
        }
    }
}

proof fn lemma_lines_total(s: Seq<char>, n: int)
    requires
        0 <= n <= txt::lines(s).len(),
    ensures
        total_upto(txt::lines(s), n) <= s.len(),
{
    let parts = txt::split(s, '\n');
    lemma_split_total(s, '\n');
    txt::lemma_split_nonempty(s, '\n');
    lemma_total_mono(txt::lines(s), parts, n, parts.len() as int);
}

proof fn lemma_total_mono(a: Seq<Seq<char>>, b: Seq<Seq<char>>, n: int, m: int)
    requires
        0 <= n <= m <= b.len(),
        n <= a.len(),
        forall|i: int| 0 <= i < n ==> #[trigger] a[i].len() <= b[i].len(),
    ensures
        total_upto(a, n) <= total_upto(b, m),
    decreases m,
{
    if n < m {
        lemma_total_mono(a, b, n, m - 1);
    } else if n > 0 {
        lemma_total_mono(a, b, n - 1, m - 1);
        assert(a[n - 1].len() <= b[n - 1].len());
    }
}

proof fn lemma_hits_len(hay: Seq<char>, needle: Seq<char>, exact: bool, end: int)
    requires
        0 <= end,
    ensures
        hits_before(hay, needle, exact, end).len() <= end,
    decreases end,
{
    if end > 0 {
        lemma_hits_len(hay, needle, exact, end - 1);
    }
}

spec fn body_total(body: Seq<Body>, n: int) -> nat
    decreases n,
{
    if n <= 0 {
        0
    } else {
        body_total(body, n - 1) + body[n - 1].text.len()
    }
}

proof fn lemma_count_bound(body: Seq<Body>, needle: Seq<char>, scope: Scope, n: int)
    requires
        0 <= n <= body.len(),
    ensures
        count_upto(body, needle, scope, n) <= body_total(body, n),
    decreases n,
{
    if n > 0 {
        lemma_count_bound(body, needle, scope, n - 1);
        let t = body[n - 1].text;
        lemma_hits_len(t, needle, txt::has_upper(needle), t.len() as int);
    }
}

proof fn lemma_body_total_prefix(a: Seq<Body>, b: Seq<Body>, n: int)
    requires
        0 <= n <= a.len(),
        n <= b.len(),
        forall|i: int| 0 <= i < n ==> a[i] == b[i],
    ensures
        body_total(a, n) == body_total(b, n),
    decreases n,
{
    if n > 0 {
        lemma_body_total_prefix(a, b, n - 1);
    }
}

proof fn lemma_body_total(ls: Seq<Seq<char>>, n: int)
    requires
        0 <= n <= ls.len(),
    ensures
        body_total(body_upto(ls, n), body_upto(ls, n).len() as int) <= total_upto(ls, n),
    decreases n,
{
    if n > 0 {
        lemma_body_total(ls, n - 1);
        let before = body_upto(ls, n - 1);
        let now = body_upto(ls, n);
        lemma_body_total_prefix(before, now, before.len() as int);
        if body_at(ls, n - 1).len() > 0 {
            assert(now[before.len() as int] == body_at(ls, n - 1)[0]);
        }
    }
}

proof fn lemma_body_prefix_total(body: Seq<Body>, n: int, m: int)
    requires
        0 <= n <= m <= body.len(),
    ensures
        body_total(body, n) <= body_total(body, m),
    decreases m,
{
    if n < m {
        lemma_body_prefix_total(body, n, m - 1);
    }
}

/// The matches counted among the first `n` body lines never outnumber the
/// diff's characters.
proof fn lemma_count_fits(raw: Seq<char>, needle: Seq<char>, scope: Scope, n: int)
    requires
        0 <= n <= diff_body(raw).len(),
    ensures
        count_upto(diff_body(raw), needle, scope, n) <= raw.len(),
{
    let ls = txt::lines(raw);
    let body = diff_body(raw);
    lemma_count_bound(body, needle, scope, n);
    lemma_body_prefix_total(body, n, body.len() as int);
    lemma_body_total(ls, ls.len() as int);
    lemma_lines_total(raw, ls.len() as int);
}

/// Total scope-admitted needle occurrences in an ANSI-stripped raw diff.
pub fn count_matches(raw: &str, needle: &str, scope: Scope) -> (r: usize)
    ensures
        r == match_count(raw@, needle@, scope),
{
    let size = raw.unicode_len();
    let body = body_lines(raw);
    let ghost b = bodies(body@);
    let mut sum: usize = 0;
    let mut i: usize = 0;
    while i < body.len()
        invariant
            i <= body@.len(),
            size == raw@.len(),
            b == bodies(body@),
            b == diff_body(raw@),
            sum == count_upto(b, needle@, scope, i as int),
        decreases body@.len() - i,
    {
        assert(b[i as int] == body@[i as int]@);
        proof {
            lemma_count_fits(raw@, needle@, scope, i + 1);
        }
        if scope.admits(body[i].kind) {
            sum = sum + find_matches(body[i].text.as_str(), needle).len();
        }
        i = i + 1;
    }
    sum
}

// --- the search box ------------------------------------------------------------

/// The prefix that routes a query to the filename filter.
pub open spec fn file_prefix() -> Seq<char> {
    seq!['f', 'i', 'l', 'e', ':']
}

/// Whether `q` starts with `file:`, in any ASCII case.
pub open spec fn is_file_query(q: Seq<char>) -> bool {
    q.len() >= 5 && txt::ascii_lowered(q.take(5)) == file_prefix()
}

/// The content needle of the search box text, if it holds one.
pub open spec fn content_needle(q: Seq<char>) -> Option<Seq<char>> {
    let t = txt::trimmed(q);
    if t.len() == 0 || is_file_query(t) {
        None
    } else {
        Some(t)
    }
}

/// The filename query of the search box text; empty when it holds none.
pub open spec fn filename_query(q: Seq<char>) -> Seq<char> {
    let t = txt::trimmed(q);
    if is_file_query(t) {
        txt::trimmed(t.skip(5))
    } else {
        Seq::empty()
    }
}

/// Splits the search box text into `(content needle, filename query)`. A `file:`
/// prefix (any case) routes the remainder to the filename filter; anything else
/// is a content search. Never both.
pub fn split_query(q: &str) -> (r: (Option<String>, String))
    ensures
        match r.0 {
            Some(n) => content_needle(q@) == Some(n@),
            None => content_needle(q@) is None,
        },
        r.1@ == filename_query(q@),
{
    let chars = txt::chars_of(q);
    let t = txt::trim_chars(chars.as_slice());
    if t.len() == 0 {
        return (None, String::new());
    }
    let is_file = t.len() >= 5 && txt::same_ascii_case(t[0], 'f') && txt::same_ascii_case(t[1], 'i')
        && txt::same_ascii_case(t[2], 'l') && txt::same_ascii_case(t[3], 'e')
        && txt::same_ascii_case(t[4], ':');
    proof {
        if t@.len() >= 5 {
            let low = txt::ascii_lowered(t@.take(5));
            assert(low.len() == 5);
            assert(forall|i: int| 0 <= i < 5 ==> #[trigger] low[i] == txt::ascii_lower(t@[i]));
            if is_file {
                assert(low =~= file_prefix());
            }
            assert(is_file == is_file_query(t@)) by {
                assert(file_prefix()[0] == 'f' && file_prefix()[1] == 'i' && file_prefix()[2] == 'l'
                    && file_prefix()[3] == 'e' && file_prefix()[4] == ':');
                assert(low == file_prefix() ==> low[0] == 'f' && low[1] == 'i' && low[2] == 'l'
                    && low[3] == 'e' && low[4] == ':');
            }
        }
    }
    if is_file {
        let rest = slice_subrange(t, 5, t.len());
        assert(rest@ =~= t@.skip(5));
        return (None, txt::string_of(txt::trim_chars(rest)));
    }
    (Some(txt::string_of(t)), String::new())
}

// --- locating ------------------------------------------------------------------

/// A needle occurrence located in the rendered output of one file's diff.
#[derive(Debug, Clone, Copy, PartialEq)]
pub struct Located {
    /// Index into the rendered (pre-wrap) lines of the file's section.
    pub line: usize,
    /// Char-column range of the needle within that rendered line.
    pub cols: (usize, usize),
    pub kind: LineKind,
    /// False when the raw line couldn't be found in the rendered output;
    /// such matches are counted and navigable but not highlighted.
    pub aligned: bool,
}

/// A body line's text with tabs expanded to `tab_width` spaces (at least one).
pub open spec fn expanded(text: Seq<char>, tab_width: u16) -> Seq<char> {
    txt::replaced(text, '\t', txt::repeated(' ', if tab_width == 0 { 1 } else { tab_width as nat }))
}

/// The first rendered line at or after `cursor` that contains `text`.
pub open spec fn anchor(rendered: Seq<Seq<char>>, text: Seq<char>, cursor: int) -> Option<int>
    decreases rendered.len() - cursor,
{
    if cursor < 0 || cursor >= rendered.len() {
        None
    } else if txt::holds(rendered[cursor], text) {
        Some(cursor)
    } else {
        anchor(rendered, text, cursor + 1)
    }
}

/// The rendered line the next search for an anchor starts at, after the first
/// `n` body lines. A body line without an anchor leaves it where it was.
pub open spec fn cursor_after(
    body: Seq<Body>,
    rendered: Seq<Seq<char>>,
    tab_width: u16,
    n: int,
) -> int
    decreases n,
{
    if n <= 0 {
        0
    } else {
        let cursor = cursor_after(body, rendered, tab_width, n - 1);
        match anchor(rendered, expanded(body[n - 1].text, tab_width), cursor) {
            Some(line) => line + 1,
            None => cursor,
        }
    }
}

/// The matches of `needle` in a body line that a search of `scope` reports.
pub open spec fn admitted_hits(b: Body, needle: Seq<char>, scope: Scope, tab_width: u16) -> Seq<
    (usize, usize),
> {
    if scope_admits(scope, b.kind) {
        smart_hits(expanded(b.text, tab_width), needle)
    } else {
        Seq::empty()
    }
}

/// A match of body line `b` shifted to its columns in the rendered line `line`,
/// or the unlocated placeholder when the line has no anchor.
pub open spec fn located(
    b: Body,
    rendered: Seq<Seq<char>>,
    tab_width: u16,
    place: Option<int>,
    hit: (usize, usize),
) -> Located {
    match place {
        Some(line) => {
            let gutter = txt::find_from(rendered[line], expanded(b.text, tab_width), 0)->0;
            Located {
                line: line as usize,
                cols: ((gutter + hit.0) as usize, (gutter + hit.1) as usize),
                kind: b.kind,
                aligned: true,
            }
        },
        None => Located { line: 0, cols: (0, 0), kind: b.kind, aligned: false },
    }
}

/// The located matches of body line `i`.
pub open spec fn located_at(
    body: Seq<Body>,
    rendered: Seq<Seq<char>>,
    needle: Seq<char>,
    scope: Scope,
    tab_width: u16,
    i: int,
) -> Seq<Located> {
    let cursor = cursor_after(body, rendered, tab_width, i);
    let place = anchor(rendered, expanded(body[i].text, tab_width), cursor);
    admitted_hits(body[i], needle, scope, tab_width).map_values(
        |hit: (usize, usize)| located(body[i], rendered, tab_width, place, hit),
    )
}

/// The located matches of the first `n` body lines.
pub open spec fn located_upto(
    body: Seq<Body>,
    rendered: Seq<Seq<char>>,
    needle: Seq<char>,
    scope: Scope,
    tab_width: u16,
    n: int,
) -> Seq<Located>
    decreases n,
{
    if n <= 0 {
        Seq::empty()
    } else {
        located_upto(body, rendered, needle, scope, tab_width, n - 1) + located_at(
            body,
            rendered,
            needle,
            scope,
            tab_width,
            n - 1,
        )
    }
}

/// Every match of `needle` in a diff, located in its rendered lines.
pub open spec fn located_matches(
    raw: Seq<char>,
    rendered: Seq<Seq<char>>,
    needle: Seq<char>,
    scope: Scope,
    tab_width: u16,
) -> Seq<Located> {
    located_upto(
        diff_body(raw),
        rendered,
        needle,
        scope,
        tab_width,
        diff_body(raw).len() as int,
    )
}

/// An anchor stands at or after the cursor and contains the text.
pub proof fn lemma_anchor(rendered: Seq<Seq<char>>, text: Seq<char>, cursor: int)
    requires
        0 <= cursor,
    ensures
        anchor(rendered, text, cursor) matches Some(k) ==> cursor <= k < rendered.len()
            && txt::holds(rendered[k], text),
    decreases rendered.len() - cursor,
{
    if cursor < rendered.len() && !txt::holds(rendered[cursor], text) {
        lemma_anchor(rendered, text, cursor + 1);
    }
}

proof fn lemma_hits_in_range(hay: Seq<char>, needle: Seq<char>, exact: bool, end: int, i: int)
    requires
        hay.len() <= usize::MAX,
        0 <= i < hits_before(hay, needle, exact, end).len(),
    ensures
        ({
            let h = hits_before(hay, needle, exact, end)[i];
            h.0 + needle.len() == h.1 && matches_at(hay, needle, exact, h.0 as int) && h.0 < end
        }),
    decreases end,
{
    if end > 0 {
        let before = hits_before(hay, needle, exact, end - 1);
        if i < before.len() {
            lemma_hits_in_range(hay, needle, exact, end - 1, i);
        }
    }
}

/// The first rendered line at or after `cursor` that contains `text`.
fn find_anchor(rendered: &Vec<Vec<char>>, text: &[char], cursor: usize) -> (r: Option<usize>)
    ensures
        match r {
            Some(k) => anchor(txt::parts_of(rendered@), text@, cursor as int) == Some(k as int)
                && cursor <= k < rendered@.len() && txt::holds(rendered@[k as int]@, text@),
            None => anchor(txt::parts_of(rendered@), text@, cursor as int) is None,
        },
{
    let ghost all = txt::parts_of(rendered@);
    let mut k: usize = cursor;
    while k < rendered.len()
        invariant
            all == txt::parts_of(rendered@),
            cursor <= k,
            k <= rendered@.len() || k == cursor,
            anchor(all, text@, cursor as int) == anchor(all, text@, k as int),
        decreases rendered@.len() - k,
    {
        assert(all[k as int] == rendered@[k as int]@);
        if txt::contains(rendered[k].as_slice(), text) {
            return Some(k);
        }
        k = k + 1;
    }
    None
}

/// Locates every smartcase match of `needle` (within `scope`) in the rendered
/// lines of one file's diff, by content-anchored alignment: every body line
/// (including context, which never matches) anchors to the next rendered line
/// containing its tab-expanded content, advancing a forward-only cursor. This
/// assumes only that the renderer preserves line content.
pub fn locate_matches(
    raw: &str,
    rendered: &[String],
    needle: &str,
    scope: Scope,
    tab_width: u16,
) -> (out: Vec<Located>)
    ensures
        out@ == located_matches(raw@, txt::texts(rendered@), needle@, scope, tab_width),
{
    let ghost shown = txt::texts(rendered@);
    let mut lines: Vec<Vec<char>> = Vec::new();
    let mut r: usize = 0;
    while r < rendered.len()
        invariant
            r <= rendered@.len(),
            shown == txt::texts(rendered@),
            txt::parts_of(lines@) == shown.take(r as int),
        decreases rendered@.len() - r,
    {
        let line = txt::chars_of(rendered[r].as_str());
        let ghost was = txt::parts_of(lines@);
        let ghost now = line@;
        lines.push(line);
        assert(txt::parts_of(lines@) =~= was.push(now));
        r = r + 1;
        assert(shown.take(r as int) =~= shown.take(r as int - 1).push(shown[r as int - 1]));
    }
    assert(shown.take(r as int) =~= shown);
    let needle_chars = txt::chars_of(needle);
    let exact = txt::any_uppercase(needle_chars.as_slice());
    let tab = txt::repeat(' ', if tab_width == 0 { 1 } else { tab_width as usize });
    let body = body_lines(raw);
    let ghost b = bodies(body@);
    let mut out: Vec<Located> = Vec::new();
    let mut cursor: usize = 0;
    let mut i: usize = 0;
    while i < body.len()
        invariant
            i <= body@.len(),
            b == bodies(body@),
            txt::parts_of(lines@) == shown,
            needle_chars@ == needle@,
            exact == txt::has_upper(needle@),
            tab@ == txt::repeated(' ', if tab_width == 0 { 1 } else { tab_width as nat }),
            cursor <= lines@.len(),
            cursor == cursor_after(b, shown, tab_width, i as int),
            out@ == located_upto(b, shown, needle@, scope, tab_width, i as int),
        decreases body@.len() - i,
    {
        let ghost bi = b[i as int];
        assert(bi == body@[i as int]@);
        let kind = body[i].kind;
        let text = txt::chars_of(body[i].text.as_str());
        let wide = txt::replace(text.as_slice(), '\t', tab.as_slice());
        assert(wide@ == expanded(bi.text, tab_width));
        let place = find_anchor(&lines, wide.as_slice(), cursor);
        let hits = if scope.admits(kind) {
            find_hits(wide.as_slice(), needle_chars.as_slice(), exact)
        } else {
            Vec::new()
        };
        assert(hits@ =~= admitted_hits(bi, needle@, scope, tab_width));
        let ghost was = out@;
        let ghost spot = anchor(shown, wide@, cursor as int);
        let ghost more = located_at(b, shown, needle@, scope, tab_width, i as int);
        let wide_len = wide.len();
        match place {
            Some(line) => {
                let count = lines.len();
                assert(line < count);
                let next: usize = line + 1;
                let shown_line = lines[line].as_slice();
                assert(shown_line@ == shown[line as int]);
                let shown_len = shown_line.len();
                let gutter = txt::find(shown_line, wide.as_slice()).unwrap();
                let mut k: usize = 0;
                assert(more.take(0) =~= Seq::<Located>::empty());
                assert(was + more.take(0) =~= was);
                while k < hits.len()
                    invariant
                        k <= hits@.len(),
                        hits@ == admitted_hits(bi, needle@, scope, tab_width),
                        wide@ == expanded(bi.text, tab_width),
                        wide_len == wide@.len(),
                        spot == Some(line as int),
                        shown_len == shown[line as int].len(),
                        txt::find_from(shown[line as int], wide@, 0) == Some(gutter as int),
                        gutter + wide_len <= shown_len,
                        more == hits@.map_values(
                            |hit: (usize, usize)| located(bi, shown, tab_width, spot, hit),
                        ),
                        kind == bi.kind,
                        out@ == was + more.take(k as int),
                    decreases hits@.len() - k,
                {
                    let h = hits[k];
                    proof {
                        lemma_hits_in_range(
                            wide@,
                            needle@,
                            txt::has_upper(needle@),
                            wide@.len() as int,
                            k as int,
                        );
                    }
                    let l = Located {
                        line,
                        cols: (gutter + h.0, gutter + h.1),
                        kind,
                        aligned: true,
                    };
                    assert(l == more[k as int]);
                    out.push(l);
                    k = k + 1;
                    assert(out@ =~= was + more.take(k as int));
                }
                assert(more.take(k as int) =~= more);
                cursor = next;
            },
            None => {
                let mut k: usize = 0;
                assert(was + more.take(0) =~= was);
                while k < hits.len()
                    invariant
                        k <= hits@.len(),
                        spot is None,
                        more == hits@.map_values(
                            |hit: (usize, usize)| located(bi, shown, tab_width, spot, hit),
                        ),
                        kind == bi.kind,
                        out@ == was + more.take(k as int),
                    decreases hits@.len() - k,
                {
                    let l = Located { line: 0, cols: (0, 0), kind, aligned: false };
                    assert(l == more[k as int]);
                    out.push(l);
                    k = k + 1;
                    assert(out@ =~= was + more.take(k as int));
                }
                assert(more.take(k as int) =~= more);
            },
        }
        i = i + 1;
    }
    out
}

} // verus!
