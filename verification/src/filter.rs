//! Filename filtering for the `/` search box.
//!
//! Grammar: the query splits on commas into terms; blank terms are ignored. A
//! leading `!` makes a term an exclusion. A term containing `*` or `?` is a
//! glob; anything else is a case-insensitive substring match on the
//! repo-relative path.
//!
//! Globs are case-insensitive. `**` matches across `/`, `*` and `?` do not. A
//! glob containing no `/` is matched against the filename only; one containing
//! `/` is matched against the full repo-relative path.
//!
//! A path passes when it matches at least one include term (or there are no
//! include terms) and matches no exclude term.

use vstd::prelude::*;
use vstd::slice::slice_subrange;
use crate::txt;

verus! {

/// One step of a glob.
#[derive(Debug, Clone, Copy, PartialEq, Eq, Structural)]
pub enum Tok {
    /// Any run of chars except `/`.
    Star,
    /// Any run of chars including `/`.
    DoubleStar,
    /// Exactly one char except `/`.
    QMark,
    Lit(char),
}

/// One term of a filename query.
pub enum Term {
    /// Lowercased needle, matched against the lowercased full path.
    Substring(String),
    Glob {
        tokens: Vec<Tok>,
        /// Pattern contained `/`: match the full path, not just the filename.
        full_path: bool,
    },
}

/// A filename query: what to include and what to leave out.
pub struct Query {
    pub includes: Vec<Term>,
    pub excludes: Vec<Term>,
}

/// What a term looks for.
#[verifier::ext_equal]
pub enum Pattern {
    Substring(Seq<char>),
    Glob(Seq<Tok>, bool),
}

impl View for Term {
    type V = Pattern;

    open spec fn view(&self) -> Pattern {
        match self {
            Term::Substring(needle) => Pattern::Substring(needle@),
            Term::Glob { tokens, full_path } => Pattern::Glob(tokens@, *full_path),
        }
    }
}

/// The patterns of a list of terms.
pub open spec fn patterns(list: Seq<Term>) -> Seq<Pattern> {
    list.map_values(|t: Term| t@)
}

// --- globs ---------------------------------------------------------------------

/// Whether `tokens` match the whole of `text`.
pub open spec fn glob(tokens: Seq<Tok>, text: Seq<char>) -> bool
    decreases tokens.len(),
{
    if tokens.len() == 0 {
        text.len() == 0
    } else {
        let rest = tokens.skip(1);
        match tokens[0] {
            Tok::Lit(c) => text.len() > 0 && text[0] == c && glob(rest, text.skip(1)),
            Tok::QMark => text.len() > 0 && text[0] != '/' && glob(rest, text.skip(1)),
            Tok::Star => exists|k: int|
                0 <= k <= text.len() && !text.take(k).contains('/') && glob(rest, #[trigger] text.skip(k)),
            Tok::DoubleStar => exists|k: int|
                0 <= k <= text.len() && glob(rest, #[trigger] text.skip(k)),
        }
    }
}

/// Glob match of `tokens` against `text` (both already lowercased). Patterns are
/// short, so plain recursion is plenty fast.
pub fn glob_match(tokens: &[Tok], text: &[char]) -> (r: bool)
    ensures
        r == glob(tokens@, text@),
    decreases tokens@.len(),
{
    if tokens.len() == 0 {
        return text.len() == 0;
    }
    let n = text.len();
    let rest = slice_subrange(tokens, 1, tokens.len());
    assert(rest@ =~= tokens@.skip(1));
    match tokens[0] {
        Tok::Lit(c) => {
            if n > 0 && text[0] == c {
                let tail = slice_subrange(text, 1, n);
                assert(tail@ =~= text@.skip(1));
                glob_match(rest, tail)
            } else {
                false
            }
        },
        Tok::QMark => {
            if n > 0 && text[0] != '/' {
                let tail = slice_subrange(text, 1, n);
                assert(tail@ =~= text@.skip(1));
                glob_match(rest, tail)
            } else {
                false
            }
        },
        Tok::Star => {
            let mut k: usize = 0;
            loop
                invariant
                    n == text@.len(),
                    k <= n,
                    tokens@.len() > 0,
                    tokens@[0] == Tok::Star,
                    rest@ == tokens@.skip(1),
                    !text@.take(k as int).contains('/'),
                    forall|j: int| 0 <= j < k ==> !glob(rest@, #[trigger] text@.skip(j)),
                decreases n - k,
            {
                let tail = slice_subrange(text, k, n);
                assert(tail@ =~= text@.skip(k as int));
                if glob_match(rest, tail) {
                    return true;
                }
                if k == n || text[k] == '/' {
                    proof {
                        assert forall|j: int| 0 <= j <= text@.len() && !text@.take(j).contains('/')
                            implies !glob(rest@, #[trigger] text@.skip(j)) by {
                            if j > k {
                                assert(text@.take(j)[k as int] == '/');
                            }
                        }
                    }
                    return false;
                }
                assert(text@.take(k as int + 1) =~= text@.take(k as int).push(text@[k as int]));
                proof {
                    let more = text@.take(k as int + 1);
                    assert forall|i: int| 0 <= i < more.len() implies #[trigger] more[i] != '/' by {
                        if i < k {
                            assert(text@.take(k as int).contains(text@.take(k as int)[i]));
                        }
                    }
                }
                k = k + 1;
            }
        },
        Tok::DoubleStar => {
            let mut k: usize = 0;
            loop
                invariant
                    n == text@.len(),
                    k <= n,
                    tokens@.len() > 0,
                    tokens@[0] == Tok::DoubleStar,
                    rest@ == tokens@.skip(1),
                    forall|j: int| 0 <= j < k ==> !glob(rest@, #[trigger] text@.skip(j)),
                decreases n - k,
            {
                let tail = slice_subrange(text, k, n);
                assert(tail@ =~= text@.skip(k as int));
                if glob_match(rest, tail) {
                    return true;
                }
                if k == n {
                    return false;
                }
                k = k + 1;
            }
        },
    }
}

/// Whether a glob starts with `**`.
pub open spec fn starts_double(s: Seq<char>) -> bool {
    s.len() >= 2 && s[0] == '*' && s[1] == '*'
}

/// The token a non-empty glob starts with.
pub open spec fn first_token(s: Seq<char>) -> Tok {
    if starts_double(s) {
        Tok::DoubleStar
    } else if s[0] == '*' {
        Tok::Star
    } else if s[0] == '?' {
        Tok::QMark
    } else {
        Tok::Lit(s[0])
    }
}

/// How many chars the first token of a glob is written with.
pub open spec fn first_width(s: Seq<char>) -> int {
    if starts_double(s) {
        2
    } else {
        1
    }
}

/// The tokens a glob is written with.
pub open spec fn tokens_of(s: Seq<char>) -> Seq<Tok>
    decreases s.len(),
{
    if s.len() == 0 {
        Seq::empty()
    } else {
        seq![first_token(s)] + tokens_of(s.skip(first_width(s)))
    }
}

/// The first token of the glob at `i`, and where the next one starts.
fn token_at(s: &[char], i: usize) -> (r: (Tok, usize))
    requires
        i < s@.len(),
    ensures
        r.0 == first_token(s@.skip(i as int)),
        r.1 == i + first_width(s@.skip(i as int)),
        r.1 <= s@.len(),
{
    let n = s.len();
    let ghost rest = s@.skip(i as int);
    assert(rest[0] == s@[i as int]);
    assert(i + 1 < n ==> rest[1] == s@[i as int + 1]);
    if s[i] == '*' && i + 1 < n && s[i + 1] == '*' {
        (Tok::DoubleStar, i + 2)
    } else if s[i] == '*' {
        (Tok::Star, i + 1)
    } else if s[i] == '?' {
        (Tok::QMark, i + 1)
    } else {
        (Tok::Lit(s[i]), i + 1)
    }
}

/// The tokens a (lowercased) glob is written with.
pub fn glob_tokens(s: &[char]) -> (out: Vec<Tok>)
    ensures
        out@ == tokens_of(s@),
{
    let n = s.len();
    let mut out: Vec<Tok> = Vec::new();
    let mut i: usize = 0;
    assert(s@.skip(0) =~= s@);
    assert(out@ + tokens_of(s@) =~= tokens_of(s@));
    while i < n
        invariant
            n == s@.len(),
            i <= n,
            tokens_of(s@) == out@ + tokens_of(s@.skip(i as int)),
        decreases n - i,
    {
        let ghost rest = s@.skip(i as int);
        let ghost was = out@;
        let (tok, next) = token_at(s, i);
        assert(rest.skip(next as int - i as int) =~= s@.skip(next as int));
        proof {
            let more = tokens_of(s@.skip(next as int));
            assert(was + (seq![tok] + more) =~= was.push(tok) + more);
        }
        out.push(tok);
        i = next;
    }
    assert(s@.skip(i as int) =~= Seq::<char>::empty());
    assert(out@ + Seq::<Tok>::empty() =~= out@);
    out
}

// --- terms ---------------------------------------------------------------------

/// The pattern a term is written with; `low` is the term's lower-case form.
pub open spec fn pattern_of(body: Seq<char>, low: Seq<char>) -> Pattern {
    if body.contains('*') || body.contains('?') {
        Pattern::Glob(tokens_of(low), body.contains('/'))
    } else {
        Pattern::Substring(low)
    }
}

/// The filename at the end of a path.
pub open spec fn file_name(path: Seq<char>) -> Seq<char> {
    txt::split(path, '/').last()
}

/// Whether a pattern matches a path whose lower-case form is `path`, and the
/// lower-case form of whose filename is `name`.
pub open spec fn pattern_matches(p: Pattern, path: Seq<char>, name: Seq<char>) -> bool {
    match p {
        Pattern::Substring(needle) => txt::holds(path, needle),
        Pattern::Glob(tokens, full_path) => glob(
            tokens,
            if full_path {
                path
            } else {
                name
            },
        ),
    }
}

/// Whether a pattern matches `path`, ignoring case.
pub open spec fn term_matches(p: Pattern, path: Seq<char>) -> bool {
    pattern_matches(p, txt::lowered(path), txt::lowered(file_name(path)))
}

impl Term {
    /// The term written as `body`, whose lower-case form is `low`.
    pub fn from_lower(body: &[char], low: &[char]) -> (r: Term)
        ensures
            r@ == pattern_of(body@, low@),
    {
        if !txt::contains_char(body, '*') && !txt::contains_char(body, '?') {
            return Term::Substring(txt::string_of(low));
        }
        Term::Glob { tokens: glob_tokens(low), full_path: txt::contains_char(body, '/') }
    }

    /// The term written as `body`.
    pub fn parse(body: &str) -> (r: Term)
        ensures
            r@ == pattern_of(body@, txt::lowered(body@)),
    {
        let low = body.to_lowercase();
        let b = txt::chars_of(body);
        let l = txt::chars_of(low.as_str());
        Term::from_lower(b.as_slice(), l.as_slice())
    }

    /// Whether the term matches a path with lower-case form `path`, whose
    /// filename has lower-case form `name`.
    pub fn matches_lower(&self, path: &[char], name: &[char]) -> (r: bool)
        ensures
            r == pattern_matches(self@, path@, name@),
    {
        match self {
            Term::Substring(needle) => {
                let n = txt::chars_of(needle.as_str());
                txt::contains(path, n.as_slice())
            },
            Term::Glob { tokens, full_path } => {
                if *full_path {
                    glob_match(tokens.as_slice(), path)
                } else {
                    glob_match(tokens.as_slice(), name)
                }
            },
        }
    }

    /// Whether the term matches `path`, ignoring case.
    pub fn matches(&self, path: &str) -> (r: bool)
        ensures
            r == term_matches(self@, path@),
    {
        let chars = txt::chars_of(path);
        let parts = txt::split_chars(chars.as_slice(), '/');
        proof {
            txt::lemma_split_nonempty(path@, '/');
            assert(txt::parts_of(parts@).len() == parts@.len());
        }
        let last = parts.len() - 1;
        assert(parts@[last as int]@ == txt::parts_of(parts@)[last as int]);
        let name = txt::string_of(parts[last].as_slice());
        let path_low = txt::chars_of(path.to_lowercase().as_str());
        let name_low = txt::chars_of(name.as_str().to_lowercase().as_str());
        self.matches_lower(path_low.as_slice(), name_low.as_slice())
    }
}

// --- queries -------------------------------------------------------------------

/// Whether a query's part is an exclusion.
pub open spec fn is_exclusion(part: Seq<char>) -> bool {
    let t = txt::trimmed(part);
    t.len() > 0 && t[0] == '!'
}

/// The term text of a query's part, without blanks and the leading `!`.
pub open spec fn term_text(part: Seq<char>) -> Seq<char> {
    let t = txt::trimmed(part);
    if is_exclusion(part) {
        txt::trimmed(t.skip(1))
    } else {
        t
    }
}

/// The patterns that the first `n` parts include, or exclude.
pub open spec fn patterns_upto(parts: Seq<Seq<char>>, exclude: bool, n: int) -> Seq<Pattern>
    decreases n,
{
    if n <= 0 {
        Seq::empty()
    } else {
        let before = patterns_upto(parts, exclude, n - 1);
        let body = term_text(parts[n - 1]);
        if body.len() > 0 && is_exclusion(parts[n - 1]) == exclude {
            before.push(pattern_of(body, txt::lowered(body)))
        } else {
            before
        }
    }
}

/// The patterns that a query's text includes, or excludes.
pub open spec fn query_patterns(input: Seq<char>, exclude: bool) -> Seq<Pattern> {
    patterns_upto(txt::split(input, ','), exclude, txt::split(input, ',').len() as int)
}

/// Whether any of the patterns matches `path`.
pub open spec fn any_matches(list: Seq<Pattern>, path: Seq<char>) -> bool {
    exists|i: int| 0 <= i < list.len() && term_matches(#[trigger] list[i], path)
}

/// Whether a path passes: some include pattern matches it, or there is none, and
/// no exclude pattern matches it.
pub open spec fn passes(includes: Seq<Pattern>, excludes: Seq<Pattern>, path: Seq<char>) -> bool {
    (includes.len() == 0 || any_matches(includes, path)) && !any_matches(excludes, path)
}

/// Whether any of the terms matches `path`.
fn any_term(list: &Vec<Term>, path: &str) -> (r: bool)
    ensures
        r == any_matches(patterns(list@), path@),
{
    let ghost p = patterns(list@);
    let mut i: usize = 0;
    while i < list.len()
        invariant
            i <= list@.len(),
            p == patterns(list@),
            forall|j: int| 0 <= j < i ==> !term_matches(#[trigger] p[j], path@),
        decreases list@.len() - i,
    {
        assert(p[i as int] == list@[i as int]@);
        if list[i].matches(path) {
            return true;
        }
        i = i + 1;
    }
    false
}

impl Query {
    /// Parses a filename query.
    pub fn parse(input: &str) -> (q: Query)
        ensures
            patterns(q.includes@) == query_patterns(input@, false),
            patterns(q.excludes@) == query_patterns(input@, true),
    {
        let chars = txt::chars_of(input);
        let parts = txt::split_chars(chars.as_slice(), ',');
        let ghost all = txt::parts_of(parts@);
        let mut includes: Vec<Term> = Vec::new();
        let mut excludes: Vec<Term> = Vec::new();
        let mut i: usize = 0;
        assert(patterns(includes@) =~= Seq::<Pattern>::empty());
        assert(patterns(excludes@) =~= Seq::<Pattern>::empty());
        while i < parts.len()
            invariant
                i <= parts@.len(),
                all == txt::parts_of(parts@),
                patterns(includes@) == patterns_upto(all, false, i as int),
                patterns(excludes@) == patterns_upto(all, true, i as int),
            decreases parts@.len() - i,
        {
            assert(all[i as int] == parts@[i as int]@);
            let raw = txt::trim_chars(parts[i].as_slice());
            let neg = raw.len() > 0 && raw[0] == '!';
            let body = if neg {
                let rest = slice_subrange(raw, 1, raw.len());
                assert(rest@ =~= raw@.skip(1));
                txt::trim_chars(rest)
            } else {
                raw
            };
            assert(body@ == term_text(all[i as int]));
            if body.len() > 0 {
                let text = txt::string_of(body);
                let term = Term::parse(text.as_str());
                let ghost p = term@;
                if neg {
                    let ghost was = patterns(excludes@);
                    excludes.push(term);
                    assert(patterns(excludes@) =~= was.push(p));
                } else {
                    let ghost was = patterns(includes@);
                    includes.push(term);
                    assert(patterns(includes@) =~= was.push(p));
                }
            }
            i = i + 1;
        }
        assert(all.len() == parts@.len());
        Query { includes, excludes }
    }

    /// Whether `path` passes the query.
    pub fn matches(&self, path: &str) -> (r: bool)
        ensures
            r == passes(patterns(self.includes@), patterns(self.excludes@), path@),
    {
        (self.includes.len() == 0 || any_term(&self.includes, path)) && !any_term(
            &self.excludes,
            path,
        )
    }
}

// --- laws ----------------------------------------------------------------------

proof fn lemma_blank_parts(parts: Seq<Seq<char>>, exclude: bool, n: int)
    requires
        0 <= n <= parts.len(),
        forall|i: int| 0 <= i < parts.len() ==> term_text(#[trigger] parts[i]).len() == 0,
    ensures
        patterns_upto(parts, exclude, n).len() == 0,
    decreases n,
{
    if n > 0 {
        lemma_blank_parts(parts, exclude, n - 1);
        assert(term_text(parts[n - 1]).len() == 0);
    }
}

/// A query of blank terms (and lone `!`s) lets every path pass.
pub proof fn law_blank_query_passes_everything(input: Seq<char>, path: Seq<char>)
    requires
        forall|i: int|
            0 <= i < txt::split(input, ',').len() ==> term_text(
                #[trigger] txt::split(input, ',')[i],
            ).len() == 0,
    ensures
        passes(query_patterns(input, false), query_patterns(input, true), path),
{
    let parts = txt::split(input, ',');
    lemma_blank_parts(parts, false, parts.len() as int);
    lemma_blank_parts(parts, true, parts.len() as int);
}

/// An excluded path never passes, whatever is included.
pub proof fn law_exclusion_wins(
    includes: Seq<Pattern>,
    excludes: Seq<Pattern>,
    path: Seq<char>,
    i: int,
)
    requires
        0 <= i < excludes.len(),
        term_matches(excludes[i], path),
    ensures
        !passes(includes, excludes, path),
{
}

/// A lone `*` matches exactly the texts without a `/`.
pub proof fn law_star_stays_in_a_segment(text: Seq<char>)
    ensures
        glob(seq![Tok::Star], text) == !text.contains('/'),
{
    let rest = seq![Tok::Star].skip(1);
    assert(rest.len() == 0);
    assert(text.take(text.len() as int) =~= text);
    if !text.contains('/') {
        assert(glob(rest, text.skip(text.len() as int)));
    }
    if glob(seq![Tok::Star], text) {
        let k = choose|k: int|
            0 <= k <= text.len() && !text.take(k).contains('/') && glob(rest, #[trigger] text.skip(k));
        assert(text.skip(k).len() == 0);
        assert(k == text.len());
    }
}

/// A lone `**` matches every text.
pub proof fn law_double_star_crosses_segments(text: Seq<char>)
    ensures
        glob(seq![Tok::DoubleStar], text),
{
    let rest = seq![Tok::DoubleStar].skip(1);
    assert(rest.len() == 0);
    assert(glob(rest, text.skip(text.len() as int)));
}

/// A lone `?` matches exactly one character other than `/`.
pub proof fn law_question_mark_is_one_character(text: Seq<char>)
    ensures
        glob(seq![Tok::QMark], text) == (text.len() == 1 && text[0] != '/'),
{
    let rest = seq![Tok::QMark].skip(1);
    assert(rest.len() == 0);
    reveal_with_fuel(glob, 2);
}

/// Whether the tokens are literals that spell `word`.
pub open spec fn spells(tokens: Seq<Tok>, word: Seq<char>) -> bool {
    &&& tokens.len() == word.len()
    &&& forall|i: int| 0 <= i < word.len() ==> #[trigger] tokens[i] == Tok::Lit(word[i])
}

/// A glob of literals matches exactly the text they spell.
pub proof fn law_literal_glob_is_equality(tokens: Seq<Tok>, word: Seq<char>, text: Seq<char>)
    requires
        spells(tokens, word),
    ensures
        glob(tokens, text) == (word == text),
    decreases word.len(),
{
    if word.len() > 0 {
        assert(tokens[0] == Tok::Lit(word[0]));
        let rest = word.skip(1);
        if text.len() > 0 {
            law_literal_glob_is_equality(tokens.skip(1), rest, text.skip(1));
            if word[0] == text[0] && rest == text.skip(1) {
                assert(word =~= seq![word[0]] + rest);
                assert(text =~= seq![text[0]] + text.skip(1));
            }
        }
    } else {
        assert(text.len() == 0 ==> word =~= text);
    }
}

} // verus!
