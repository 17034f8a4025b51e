//! Text primitives on character sequences: trimming, splitting, searching, and
//! decimal numbers. Everything above this module works on `Seq<char>` views.

use vstd::prelude::*;
use vstd::std_specs::iter::*;
use vstd::slice::slice_subrange;
use vstd::string::*;
use vstd::utf8::*;

verus! {

/// `String::push` appends one character.
pub assume_specification[ String::push ](s: &mut String, c: char)
    ensures
        final(s)@ == old(s)@.push(c),
;

/// `String::pop` removes the last character, if there is one.
pub assume_specification[ String::pop ](s: &mut String) -> (r: Option<char>)
    ensures
        old(s)@.len() == 0 ==> r is None && final(s)@ == old(s)@,
        old(s)@.len() > 0 ==> r == Some(old(s)@.last()) && final(s)@ == old(s)@.drop_last(),
;

/// The text `String::from_utf8_lossy` makes of bytes that are not all valid UTF-8.
pub uninterp spec fn lossy_text(bytes: Seq<u8>) -> Seq<char>;

/// The text that `bytes` stand for: what they encode, if they are valid UTF-8, else
/// what `String::from_utf8_lossy` makes of them.
pub open spec fn decoded(bytes: Seq<u8>) -> Seq<char> {
    if valid_utf8(bytes) {
        decode_utf8(bytes)
    } else {
        lossy_text(bytes)
    }
}

/// `String::from_utf8_lossy`: bytes that are valid UTF-8 decode to exactly the
/// text they encode; the text for any others is named `lossy_text`.
#[verifier::external_body]
pub(crate) fn utf8_lossy(bytes: &[u8]) -> (text: String)
    ensures
        valid_utf8(bytes@) ==> text@ == decode_utf8(bytes@),
        !valid_utf8(bytes@) ==> text@ == lossy_text(bytes@),
{
    String::from_utf8_lossy(bytes).into_owned()
}

// --- conversions ---------------------------------------------------------------

/// The characters of `s`, in order.
pub fn chars_of(s: &str) -> (out: Vec<char>)
    ensures
        out@ == s@,
{
    let mut out: Vec<char> = Vec::new();
    for c in it: s.chars()
        invariant
            out@ == s@.take(it.index()),
            it.seq() == s@,
    {
        out.push(c);
        assert(out@ =~= s@.take(it.index() + 1));
    }
    assert(s@.take(s@.len() as int) =~= s@);
    out
}

/// The string holding exactly `chars`.
pub fn string_of(chars: &[char]) -> (out: String)
    ensures
        out@ == chars@,
{
    let mut out = String::new();
    push_chars(&mut out, chars);
    assert(out@ =~= chars@);
    out
}

/// Appends `chars` to `out`.
pub fn push_chars(out: &mut String, chars: &[char])
    ensures
        final(out)@ == old(out)@ + chars@,
{
    let ghost start = out@;
    let mut i: usize = 0;
    assert(out@ =~= start + chars@.take(0));
    while i < chars.len()
        invariant
            i <= chars@.len(),
            out@ == start + chars@.take(i as int),
        decreases chars@.len() - i,
    {
        out.push(chars[i]);
        i = i + 1;
        assert(out@ =~= start + chars@.take(i as int));
    }
    assert(chars@.take(chars@.len() as int) =~= chars@);
}

/// Whether two strings hold the same text.
pub fn same(a: &str, b: &str) -> (r: bool)
    ensures
        r == (a@ == b@),
{
    let x: String = a.to_owned();
    let y: String = b.to_owned();
    x == y
}

/// The texts of a list of strings.
pub open spec fn texts(list: Seq<String>) -> Seq<Seq<char>> {
    list.map_values(|s: String| s@)
}

/// The text of an optional string.
pub open spec fn opt_text(s: Option<String>) -> Option<Seq<char>> {
    match s {
        Some(s) => Some(s@),
        None => None,
    }
}

/// Appends `s` to `list`.
pub fn push_text(list: &mut Vec<String>, s: String)
    ensures
        texts(final(list)@) == texts(old(list)@).push(s@),
{
    let ghost was = texts(list@);
    let ghost text = s@;
    list.push(s);
    assert(texts(list@) =~= was.push(text));
}

/// Whether one of the strings of `list` is `name`.
pub fn list_holds(list: &Vec<String>, name: &str) -> (r: bool)
    ensures
        r == texts(list@).contains(name@),
{
    let ghost all = texts(list@);
    let mut i: usize = 0;
    while i < list.len()
        invariant
            i <= list@.len(),
            all == texts(list@),
            forall|j: int| 0 <= j < i ==> #[trigger] all[j] != name@,
        decreases list@.len() - i,
    {
        assert(all[i as int] == list@[i as int]@);
        if same(list[i].as_str(), name) {
            return true;
        }
        i = i + 1;
    }
    false
}

/// The texts of a list of character vectors.
pub open spec fn parts_of(list: Seq<Vec<char>>) -> Seq<Seq<char>> {
    list.map_values(|s: Vec<char>| s@)
}

/// Whether two character slices are equal.
pub fn same_chars(a: &[char], b: &[char]) -> (r: bool)
    ensures
        r == (a@ == b@),
{
    if a.len() != b.len() {
        return false;
    }
    let mut i: usize = 0;
    while i < a.len()
        invariant
            i <= a@.len(),
            a@.len() == b@.len(),
            forall|j: int| 0 <= j < i ==> a@[j] == b@[j],
        decreases a@.len() - i,
    {
        if a[i] != b[i] {
            return false;
        }
        i = i + 1;
    }
    assert(a@ =~= b@);
    true
}

/// Whether `s` spells `word`.
pub fn is_word(s: &[char], word: &str) -> (r: bool)
    ensures
        r == (s@ == word@),
{
    same_chars(s, chars_of(word).as_slice())
}

/// Whether `pat` is a prefix of `s`.
pub open spec fn has_prefix(s: Seq<char>, pat: Seq<char>) -> bool {
    pat.len() <= s.len() && s.take(pat.len() as int) == pat
}

/// Whether `s` starts with `pat`.
pub fn starts_with(s: &[char], pat: &[char]) -> (r: bool)
    ensures
        r == has_prefix(s@, pat@),
{
    if pat.len() > s.len() {
        return false;
    }
    let head = slice_subrange(s, 0, pat.len());
    assert(head@ =~= s@.take(pat@.len() as int));
    same_chars(head, pat)
}

// --- whitespace ----------------------------------------------------------------

/// Unicode `White_Space`.
pub open spec fn is_space(c: char) -> bool {
    ||| '\u{9}' <= c <= '\u{d}'
    ||| c == ' '
    ||| c == '\u{85}'
    ||| c == '\u{a0}'
    ||| c == '\u{1680}'
    ||| '\u{2000}' <= c <= '\u{200a}'
    ||| c == '\u{2028}'
    ||| c == '\u{2029}'
    ||| c == '\u{202f}'
    ||| c == '\u{205f}'
    ||| c == '\u{3000}'
}

/// Whether `c` is Unicode whitespace.
pub fn whitespace(c: char) -> (r: bool)
    ensures
        r == is_space(c),
{
    ('\u{9}' <= c && c <= '\u{d}') || c == ' ' || c == '\u{85}' || c == '\u{a0}' || c == '\u{1680}'
        || ('\u{2000}' <= c && c <= '\u{200a}') || c == '\u{2028}' || c == '\u{2029}' || c
        == '\u{202f}' || c == '\u{205f}' || c == '\u{3000}'
}

/// `s` without leading whitespace.
pub open spec fn trimmed_start(s: Seq<char>) -> Seq<char>
    decreases s.len(),
{
    if s.len() > 0 && is_space(s[0]) {
        trimmed_start(s.skip(1))
    } else {
        s
    }
}

/// `s` without trailing whitespace.
pub open spec fn trimmed_end(s: Seq<char>) -> Seq<char>
    decreases s.len(),
{
    if s.len() > 0 && is_space(s.last()) {
        trimmed_end(s.drop_last())
    } else {
        s
    }
}

/// `s` without surrounding whitespace.
pub open spec fn trimmed(s: Seq<char>) -> Seq<char> {
    trimmed_end(trimmed_start(s))
}

/// `s` without surrounding whitespace.
pub fn trim_chars(s: &[char]) -> (out: &[char])
    ensures
        out@ == trimmed(s@),
{
    let mut a: usize = 0;
    assert(s@.skip(0) =~= s@);
    while a < s.len() && whitespace(s[a])
        invariant
            a <= s@.len(),
            trimmed_start(s@) == trimmed_start(s@.skip(a as int)),
        decreases s@.len() - a,
    {
        assert(s@.skip(a as int).skip(1) =~= s@.skip(a as int + 1));
        a = a + 1;
    }
    let ghost t = s@.skip(a as int);
    assert(trimmed_start(s@) == t);
    let mut b: usize = s.len();
    assert(t =~= s@.subrange(a as int, b as int));
    while a < b && whitespace(s[b - 1])
        invariant
            a <= b <= s@.len(),
            trimmed_end(t) == trimmed_end(s@.subrange(a as int, b as int)),
        decreases b - a,
    {
        assert(s@.subrange(a as int, b as int).drop_last() =~= s@.subrange(a as int, b - 1));
        b = b - 1;
    }
    let out = slice_subrange(s, a, b);
    out
}

/// `s` without surrounding whitespace.
pub fn trim(s: &str) -> (out: String)
    ensures
        out@ == trimmed(s@),
{
    let c = chars_of(s);
    string_of(trim_chars(c.as_slice()))
}

// --- splitting -----------------------------------------------------------------

/// `parts` with `head` put in front of its first part.
pub open spec fn with_head(head: Seq<char>, parts: Seq<Seq<char>>) -> Seq<Seq<char>> {
    seq![head + parts[0]] + parts.skip(1)
}

/// The pieces of `s` between the occurrences of `sep`; always at least one.
pub open spec fn split(s: Seq<char>, sep: char) -> Seq<Seq<char>>
    decreases s.len(),
{
    if s.len() == 0 {
        seq![Seq::<char>::empty()]
    } else if s[0] == sep {
        seq![Seq::<char>::empty()] + split(s.skip(1), sep)
    } else {
        with_head(seq![s[0]], split(s.skip(1), sep))
    }
}

pub proof fn lemma_split_nonempty(s: Seq<char>, sep: char)
    ensures
        split(s, sep).len() >= 1,
    decreases s.len(),
{
    if s.len() > 0 {
        lemma_split_nonempty(s.skip(1), sep);
    }
}

/// The pieces of `s` between the occurrences of `sep`.
pub fn split_chars(s: &[char], sep: char) -> (out: Vec<Vec<char>>)
    ensures
        parts_of(out@) == split(s@, sep),
{
    let mut out: Vec<Vec<char>> = Vec::new();
    let mut cur: Vec<char> = Vec::new();
    let mut i: usize = 0;
    proof {
        lemma_split_nonempty(s@, sep);
        assert(s@.skip(0) =~= s@);
        assert(parts_of(out@) + with_head(cur@, split(s@, sep)) =~= split(s@, sep)) by {
            assert(cur@ + split(s@, sep)[0] =~= split(s@, sep)[0]);
        }
    }
    while i < s.len()
        invariant
            i <= s@.len(),
            split(s@, sep) == parts_of(out@) + with_head(cur@, split(s@.skip(i as int), sep)),
        decreases s@.len() - i,
    {
        let ghost rest = s@.skip(i as int);
        let ghost before = parts_of(out@);
        proof {
            assert(rest.skip(1) =~= s@.skip(i as int + 1));
            lemma_split_nonempty(rest.skip(1), sep);
        }
        let ghost tail = split(rest.skip(1), sep);
        if s[i] == sep {
            let ghost c = cur@;
            out.push(cur);
            cur = Vec::new();
            proof {
                assert(parts_of(out@) =~= before.push(c));
                assert(cur@ + tail[0] =~= tail[0]);
                assert(with_head(cur@, tail) =~= tail);
                assert(with_head(c, seq![Seq::<char>::empty()] + tail) =~= seq![c] + tail) by {
                    assert(c + Seq::<char>::empty() =~= c);
                }
                assert(before + (seq![c] + tail) =~= before.push(c) + tail);
            }
        } else {
            let ghost c = cur@;
            cur.push(s[i]);
            proof {
                let one = seq![rest[0]];
                assert(c + (one + tail[0]) =~= cur@ + tail[0]);
                assert(with_head(c, with_head(one, tail)) =~= with_head(cur@, tail));
            }
        }
        i = i + 1;
    }
    let ghost before = parts_of(out@);
    let ghost c = cur@;
    out.push(cur);
    proof {
        assert(s@.skip(i as int) =~= Seq::<char>::empty());
        assert(parts_of(out@) =~= before.push(c));
        assert(c + Seq::<char>::empty() =~= c);
        assert(with_head(c, seq![Seq::<char>::empty()]) =~= seq![c]);
        assert(before + seq![c] =~= before.push(c));
    }
    out
}

/// Splitting texts joined by a separator splits each of them.
pub proof fn lemma_split_join(a: Seq<char>, b: Seq<char>, sep: char)
    ensures
        split(a.push(sep) + b, sep) == split(a, sep) + split(b, sep),
    decreases a.len(),
{
    let whole = a.push(sep) + b;
    lemma_split_nonempty(b, sep);
    if a.len() == 0 {
        assert(whole[0] == sep);
        assert(whole.skip(1) =~= b);
        assert(split(a, sep) =~= seq![Seq::<char>::empty()]);
    } else {
        let rest = a.skip(1);
        lemma_split_join(rest, b, sep);
        lemma_split_nonempty(rest, sep);
        assert(whole[0] == a[0]);
        assert(whole.skip(1) =~= rest.push(sep) + b);
        let tail = split(rest, sep);
        let more = split(b, sep);
        if a[0] == sep {
            assert(split(whole, sep) =~= split(a, sep) + more);
        } else {
            assert((tail + more)[0] == tail[0]);
            assert((tail + more).skip(1) =~= tail.skip(1) + more);
            assert(split(whole, sep) =~= split(a, sep) + more);
        }
    }
}

/// A text without the separator is one piece.
pub proof fn lemma_split_one(a: Seq<char>, sep: char)
    requires
        !a.contains(sep),
    ensures
        split(a, sep) == seq![a],
    decreases a.len(),
{
    if a.len() > 0 {
        assert(a.contains(a[0]));
        let rest = a.skip(1);
        assert forall|i: int| 0 <= i < rest.len() implies rest[i] != sep by {
            assert(a.contains(a[i + 1]));
        }
        lemma_split_one(rest, sep);
        assert(seq![a[0]] + rest =~= a);
        assert(split(a, sep) =~= seq![a]);
    } else {
        assert(a =~= Seq::<char>::empty());
        assert(split(a, sep) =~= seq![a]);
    }
}

/// `s` without one trailing carriage return.
pub open spec fn without_cr(s: Seq<char>) -> Seq<char> {
    if s.len() > 0 && s.last() == '\r' {
        s.drop_last()
    } else {
        s
    }
}

/// The lines of `s`: each newline ends a line, together with a carriage return
/// right before it; text after the last newline is a line if there is any.
pub open spec fn lines(s: Seq<char>) -> Seq<Seq<char>> {
    let parts = split(s, '\n');
    let ended = parts.drop_last().map_values(|p: Seq<char>| without_cr(p));
    if parts.last().len() == 0 {
        ended
    } else {
        ended.push(parts.last())
    }
}

/// The lines of `s`.
pub fn lines_of(s: &[char]) -> (out: Vec<Vec<char>>)
    ensures
        parts_of(out@) == lines(s@),
{
    let mut parts = split_chars(s, '\n');
    let ghost all = parts_of(parts@);
    proof {
        lemma_split_nonempty(s@, '\n');
        assert(all.len() == parts@.len());
    }
    let last = parts.pop().unwrap();
    assert(last@ == all.last());
    let mut out: Vec<Vec<char>> = Vec::new();
    let mut i: usize = 0;
    let ghost ended = all.drop_last().map_values(|p: Seq<char>| without_cr(p));
    while i < parts.len()
        invariant
            i <= parts@.len(),
            parts@.len() == all.len() - 1,
            forall|j: int| 0 <= j < parts@.len() ==> #[trigger] parts@[j]@ == all[j],
            ended == all.drop_last().map_values(|p: Seq<char>| without_cr(p)),
            parts_of(out@) == ended.take(i as int),
        decreases parts@.len() - i,
    {
        let p = parts[i].as_slice();
        let n = p.len();
        let line: Vec<char> = if n > 0 && p[n - 1] == '\r' {
            let q = slice_subrange(p, 0, n - 1);
            assert(q@ =~= p@.drop_last());
            vstd::slice::slice_to_vec(q)
        } else {
            vstd::slice::slice_to_vec(p)
        };
        assert(line@ == without_cr(all[i as int]));
        let ghost was = parts_of(out@);
        let ghost piece = line@;
        assert(piece == ended[i as int]);
        out.push(line);
        assert(parts_of(out@) =~= was.push(piece));
        i = i + 1;
        assert(ended.take(i as int) =~= ended.take(i as int - 1).push(ended[i as int - 1]));
    }
    assert(ended.take(i as int) =~= ended);
    if last.len() > 0 {
        out.push(last);
        assert(parts_of(out@) =~= ended.push(all.last()));
    }
    out
}

// --- searching -----------------------------------------------------------------

/// Whether `pat` stands in `s` at index `i`.
pub open spec fn occurs_at(s: Seq<char>, pat: Seq<char>, i: int) -> bool {
    0 <= i && i + pat.len() <= s.len() && s.subrange(i, i + pat.len()) == pat
}

/// The first index at or after `i` at which `pat` stands in `s`.
pub open spec fn find_from(s: Seq<char>, pat: Seq<char>, i: int) -> Option<int>
    decreases s.len() - i + 1,
{
    if i < 0 || i + pat.len() > s.len() {
        None
    } else if occurs_at(s, pat, i) {
        Some(i)
    } else {
        find_from(s, pat, i + 1)
    }
}

/// Whether `pat` stands anywhere in `s`.
pub open spec fn holds(s: Seq<char>, pat: Seq<char>) -> bool {
    exists|i: int| occurs_at(s, pat, i)
}

/// `find_from` finds the least index at or after `from` at which `pat` stands.
pub proof fn lemma_find_from(s: Seq<char>, pat: Seq<char>, from: int)
    requires
        0 <= from,
    ensures
        match find_from(s, pat, from) {
            Some(k) => from <= k && occurs_at(s, pat, k) && forall|j: int|
                from <= j < k ==> !occurs_at(s, pat, j),
            None => forall|j: int| from <= j ==> !occurs_at(s, pat, j),
        },
    decreases s.len() - from + 1,
{
    if from + pat.len() <= s.len() && !occurs_at(s, pat, from) {
        lemma_find_from(s, pat, from + 1);
    }
}

/// The first index at which `pat` stands in `s`.
pub fn find(s: &[char], pat: &[char]) -> (r: Option<usize>)
    ensures
        r matches Some(i) ==> find_from(s@, pat@, 0) == Some(i as int) && occurs_at(
            s@,
            pat@,
            i as int,
        ),
        r is None ==> find_from(s@, pat@, 0) is None,
        r is Some <==> holds(s@, pat@),
{
    proof {
        lemma_find_from(s@, pat@, 0);
    }
    if pat.len() > s.len() {
        return None;
    }
    let n = s.len();
    let last = n - pat.len();
    let mut i: usize = 0;
    loop
        invariant
            n == s@.len(),
            last == s@.len() - pat@.len(),
            i <= last,
            match find_from(s@, pat@, 0) {
                Some(k) => occurs_at(s@, pat@, k),
                None => forall|j: int| 0 <= j ==> !occurs_at(s@, pat@, j),
            },
            find_from(s@, pat@, 0) == find_from(s@, pat@, i as int),
        decreases last - i,
    {
        let here = slice_subrange(s, i, i + pat.len());
        if same_chars(here, pat) {
            return Some(i);
        }
        if i == last {
            assert(find_from(s@, pat@, i + 1) is None);
            return None;
        }
        i = i + 1;
    }
}

/// Whether `pat` stands anywhere in `s`.
pub fn contains(s: &[char], pat: &[char]) -> (r: bool)
    ensures
        r == holds(s@, pat@),
{
    find(s, pat).is_some()
}

/// What stands in `s` before and after the first `sep`.
pub open spec fn cut(s: Seq<char>, sep: char) -> Option<(Seq<char>, Seq<char>)> {
    match find_from(s, seq![sep], 0) {
        Some(i) => Some((s.take(i), s.skip(i + 1))),
        None => None,
    }
}

/// What stands in `s` before and after the first `sep`.
pub fn cut_chars(s: &[char], sep: char) -> (r: Option<(&[char], &[char])>)
    ensures
        match r {
            Some((a, b)) => cut(s@, sep) == Some((a@, b@)),
            None => cut(s@, sep) is None,
        },
{
    let n = s.len();
    let pat = vec![sep];
    assert(pat@ =~= seq![sep]);
    match find(s, pat.as_slice()) {
        Some(i) => {
            proof {
                lemma_find_from(s@, seq![sep], 0);
                assert(occurs_at(s@, seq![sep], i as int));
            }
            let a = slice_subrange(s, 0, i);
            let b = slice_subrange(s, i + 1, n);
            assert(a@ =~= s@.take(i as int));
            assert(b@ =~= s@.skip(i + 1));
            Some((a, b))
        },
        None => None,
    }
}

/// The last index at or before `i` at which `pat` stands in `s`.
pub open spec fn rfind_from(s: Seq<char>, pat: Seq<char>, i: int) -> Option<int>
    decreases i + 1,
{
    if i < 0 {
        None
    } else if occurs_at(s, pat, i) {
        Some(i)
    } else {
        rfind_from(s, pat, i - 1)
    }
}

/// The position of the last `pat` in `s`.
pub open spec fn last_found(s: Seq<char>, pat: Seq<char>) -> Option<int> {
    rfind_from(s, pat, s.len() - pat.len())
}

/// The position of the last `pat` in `s`.
pub fn rfind(s: &[char], pat: &[char]) -> (r: Option<usize>)
    ensures
        match r {
            Some(i) => last_found(s@, pat@) == Some(i as int) && i + pat@.len() <= s@.len(),
            None => last_found(s@, pat@) is None,
        },
{
    let n = s.len();
    let m = pat.len();
    if n < m {
        return None;
    }
    let mut i: usize = n - m;
    loop
        invariant
            n == s@.len(),
            m == pat@.len(),
            m <= n,
            i <= n - m,
            last_found(s@, pat@) == rfind_from(s@, pat@, i as int),
        decreases i,
    {
        let here = slice_subrange(s, i, i + m);
        assert(here@ =~= s@.subrange(i as int, i + m));
        if same_chars(here, pat) {
            assert(occurs_at(s@, pat@, i as int));
            return Some(i);
        }
        assert(!occurs_at(s@, pat@, i as int));
        if i == 0 {
            assert(rfind_from(s@, pat@, -1) is None);
            return None;
        }
        i = i - 1;
    }
}

/// The first `n` parts that hold anything.
pub open spec fn nonempty_upto(parts: Seq<Seq<char>>, n: int) -> Seq<Seq<char>>
    decreases n,
{
    if n <= 0 {
        Seq::empty()
    } else if parts[n - 1].len() > 0 {
        nonempty_upto(parts, n - 1).push(parts[n - 1])
    } else {
        nonempty_upto(parts, n - 1)
    }
}

/// The pieces of `s` between the `sep`s that hold anything.
pub open spec fn fields(s: Seq<char>, sep: char) -> Seq<Seq<char>> {
    nonempty_upto(split(s, sep), split(s, sep).len() as int)
}

/// The pieces of `s` between the `sep`s that hold anything.
pub fn fields_of(s: &[char], sep: char) -> (out: Vec<Vec<char>>)
    ensures
        parts_of(out@) == fields(s@, sep),
{
    let parts = split_chars(s, sep);
    let ghost all = parts_of(parts@);
    let mut out: Vec<Vec<char>> = Vec::new();
    let mut i: usize = 0;
    assert(parts_of(out@) =~= Seq::<Seq<char>>::empty());
    while i < parts.len()
        invariant
            i <= parts@.len(),
            all == parts_of(parts@),
            parts_of(out@) == nonempty_upto(all, i as int),
        decreases parts@.len() - i,
    {
        assert(all[i as int] == parts@[i as int]@);
        if parts[i].len() > 0 {
            let ghost was = parts_of(out@);
            out.push(vstd::slice::slice_to_vec(parts[i].as_slice()));
            assert(parts_of(out@) =~= was.push(all[i as int]));
        }
        i = i + 1;
    }
    assert(all.len() == parts@.len());
    out
}

/// Whether `c` is one of the characters of `s`.
pub fn contains_char(s: &[char], c: char) -> (r: bool)
    ensures
        r == s@.contains(c),
{
    let mut i: usize = 0;
    while i < s.len()
        invariant
            i <= s@.len(),
            forall|j: int| 0 <= j < i ==> s@[j] != c,
        decreases s@.len() - i,
    {
        if s[i] == c {
            return true;
        }
        i = i + 1;
    }
    false
}

/// `s` with every `c` replaced by `with`.
pub open spec fn replaced(s: Seq<char>, c: char, with: Seq<char>) -> Seq<char>
    decreases s.len(),
{
    if s.len() == 0 {
        Seq::<char>::empty()
    } else {
        replaced(s.drop_last(), c, with) + if s.last() == c {
            with
        } else {
            seq![s.last()]
        }
    }
}

/// `s` with every `c` replaced by `with`.
pub fn replace(s: &[char], c: char, with: &[char]) -> (out: Vec<char>)
    ensures
        out@ == replaced(s@, c, with@),
{
    let mut out: Vec<char> = Vec::new();
    let mut i: usize = 0;
    while i < s.len()
        invariant
            i <= s@.len(),
            out@ == replaced(s@.take(i as int), c, with@),
        decreases s@.len() - i,
    {
        assert(s@.take(i as int + 1).drop_last() =~= s@.take(i as int));
        if s[i] == c {
            extend(&mut out, with);
        } else {
            let ghost was = out@;
            out.push(s[i]);
            assert(out@ =~= was + seq![s@[i as int]]);
        }
        i = i + 1;
    }
    assert(s@.take(i as int) =~= s@);
    out
}

/// Appends `more` to `out`.
pub fn extend(out: &mut Vec<char>, more: &[char])
    ensures
        final(out)@ == old(out)@ + more@,
{
    let ghost start = out@;
    let mut i: usize = 0;
    assert(out@ =~= start + more@.take(0));
    while i < more.len()
        invariant
            i <= more@.len(),
            out@ == start + more@.take(i as int),
        decreases more@.len() - i,
    {
        out.push(more[i]);
        i = i + 1;
        assert(out@ =~= start + more@.take(i as int));
    }
    assert(more@.take(more@.len() as int) =~= more@);
}

/// `n` copies of `c`.
pub open spec fn repeated(c: char, n: nat) -> Seq<char> {
    Seq::new(n, |i: int| c)
}

/// `n` copies of `c`.
pub fn repeat(c: char, n: usize) -> (out: Vec<char>)
    ensures
        out@ == repeated(c, n as nat),
{
    let mut out: Vec<char> = Vec::new();
    let mut i: usize = 0;
    while i < n
        invariant
            i <= n,
            out@ == repeated(c, i as nat),
        decreases n - i,
    {
        out.push(c);
        i = i + 1;
        assert(out@ =~= repeated(c, i as nat));
    }
    out
}

// --- ASCII case ----------------------------------------------------------------

/// The ASCII lower-case form of `c`; other characters stand for themselves.
pub open spec fn ascii_lower(c: char) -> char {
    if 'A' <= c <= 'Z' {
        (c as u32 + 32) as char
    } else {
        c
    }
}

/// Whether two characters are equal up to ASCII case.
pub fn same_ascii_case(a: char, b: char) -> (r: bool)
    ensures
        r == (ascii_lower(a) == ascii_lower(b)),
{
    let x: u32 = if 'A' <= a && a <= 'Z' {
        a as u32 + 32
    } else {
        a as u32
    };
    let y: u32 = if 'A' <= b && b <= 'Z' {
        b as u32 + 32
    } else {
        b as u32
    };
    x == y
}

/// The ASCII lower-case form of every character of `s`.
pub open spec fn ascii_lowered(s: Seq<char>) -> Seq<char> {
    s.map_values(|c: char| ascii_lower(c))
}

// --- Unicode case --------------------------------------------------------------

/// What `str::to_lowercase` makes of text that is not all ASCII.
pub uninterp spec fn lowercase(s: Seq<char>) -> Seq<char>;

/// `s` in lower case.
pub open spec fn lowered(s: Seq<char>) -> Seq<char> {
    if is_ascii_chars(s) {
        ascii_lowered(s)
    } else {
        lowercase(s)
    }
}

/// `str::to_lowercase` is Unicode lower-casing; on ASCII text it maps `A`-`Z` to
/// `a`-`z` and leaves the rest alone, and what it makes of any other is named
/// `lowercase`.
pub assume_specification[ str::to_lowercase ](s: &str) -> (r: String)
    ensures
        is_ascii_chars(s@) ==> r@ == ascii_lowered(s@),
        !is_ascii_chars(s@) ==> r@ == lowercase(s@),
;

/// Whether `char::is_uppercase` finds a character outside ASCII to have the Unicode
/// property `Uppercase`.
pub uninterp spec fn is_upper(c: char) -> bool;

/// Whether a character is upper case.
pub open spec fn upper(c: char) -> bool {
    if (c as u32) < 128 {
        'A' <= c <= 'Z'
    } else {
        is_upper(c)
    }
}

/// `char::is_uppercase` decides the Unicode `Uppercase` property; among ASCII
/// characters exactly `A`-`Z` have it, and its answer for any other is named
/// `is_upper`.
pub assume_specification[ char::is_uppercase ](c: char) -> (r: bool)
    ensures
        (c as u32) < 128 ==> r == ('A' <= c <= 'Z'),
        (c as u32) >= 128 ==> r == is_upper(c),
;

/// Whether any character of `s` is upper case.
pub open spec fn has_upper(s: Seq<char>) -> bool {
    exists|i: int| 0 <= i < s.len() && upper(#[trigger] s[i])
}

/// Whether any character of `s` is upper case.
pub fn any_uppercase(s: &[char]) -> (r: bool)
    ensures
        r == has_upper(s@),
{
    let mut i: usize = 0;
    while i < s.len()
        invariant
            i <= s@.len(),
            forall|j: int| 0 <= j < i ==> !upper(#[trigger] s@[j]),
        decreases s@.len() - i,
    {
        if s[i].is_uppercase() {
            assert(upper(s@[i as int]));
            return true;
        }
        i = i + 1;
    }
    false
}

// --- decimal numbers -----------------------------------------------------------

/// The decimal digit for `d`.
pub open spec fn digit(d: nat) -> char {
    (48 + d) as char
}

/// `n` in decimal, without leading zeros.
pub open spec fn decimal(n: nat) -> Seq<char>
    decreases n,
{
    if n < 10 {
        seq![digit(n)]
    } else {
        decimal(n / 10).push(digit(n % 10))
    }
}

/// Appends `n` in decimal to `out`.
pub fn push_decimal(out: &mut String, n: u64)
    ensures
        final(out)@ == old(out)@ + decimal(n as nat),
    decreases n,
{
    let ghost start = out@;
    if n >= 10 {
        push_decimal(out, n / 10);
    }
    let d = (n % 10) as u8;
    out.push((48u8 + d) as char);
    assert(out@ =~= start + decimal(n as nat));
}

/// Appends `n` in decimal to `out`.
pub fn push_big_decimal(out: &mut String, n: u128)
    ensures
        final(out)@ == old(out)@ + decimal(n as nat),
    decreases n,
{
    let ghost was = out@;
    if n >= 10 {
        push_big_decimal(out, n / 10);
    }
    out.push(((n % 10) as u8 + 48) as char);
    assert(out@ =~= was + decimal(n as nat));
}

/// `n` in decimal.
pub fn decimal_string(n: u64) -> (r: String)
    ensures
        r@ == decimal(n as nat),
{
    let mut s = String::new();
    push_decimal(&mut s, n);
    assert(s@ =~= decimal(n as nat));
    s
}

/// `prefix`, then `n` in decimal.
pub fn numbered(prefix: &str, n: u64) -> (r: String)
    ensures
        r@ == prefix@ + decimal(n as nat),
{
    let mut s = prefix.to_owned();
    push_decimal(&mut s, n);
    s
}

/// Whether `c` is a decimal digit.
pub open spec fn is_digit(c: char) -> bool {
    '0' <= c <= '9'
}

/// The number written by a sequence of decimal digits.
pub open spec fn digits_value(s: Seq<char>) -> nat
    decreases s.len(),
{
    if s.len() == 0 {
        0
    } else {
        digits_value(s.drop_last()) * 10 + ((s.last() as u32 - 48) as nat)
    }
}

/// `s` without one leading `+`.
pub open spec fn without_plus(s: Seq<char>) -> Seq<char> {
    if s.len() > 0 && s[0] == '+' {
        s.skip(1)
    } else {
        s
    }
}

/// Whether every character of `s` is a decimal digit.
pub open spec fn all_digits(s: Seq<char>) -> bool {
    forall|i: int| 0 <= i < s.len() ==> is_digit(#[trigger] s[i])
}

/// The unsigned number that `s` writes: an optional `+` followed by decimal
/// digits, no larger than `max`.
pub open spec fn parsed(s: Seq<char>, max: nat) -> Option<nat> {
    let t = without_plus(s);
    if t.len() == 0 || !all_digits(t) || digits_value(t) > max {
        None
    } else {
        Some(digits_value(t))
    }
}

/// Parses an unsigned decimal number no larger than `max`.
pub fn parse_unsigned(s: &[char], max: u64) -> (r: Option<u64>)
    ensures
        r matches Some(n) ==> parsed(s@, max as nat) == Some(n as nat),
        r is None ==> parsed(s@, max as nat) is None,
{
    let start: usize = if s.len() > 0 && s[0] == '+' {
        1
    } else {
        0
    };
    let t = slice_subrange(s, start, s.len());
    proof {
        if start == 1 {
            assert(t@ =~= s@.skip(1));
        } else {
            assert(t@ =~= s@);
        }
    }
    if t.len() == 0 {
        return None;
    }
    let mut i: usize = 0;
    let mut value: u64 = 0;
    let mut fits: bool = true;
    while i < t.len()
        invariant
            t@ == without_plus(s@),
            i <= t@.len(),
            forall|j: int| 0 <= j < i ==> is_digit(#[trigger] t@[j]),
            fits ==> value == digits_value(t@.take(i as int)) && value <= max,
            !fits ==> digits_value(t@.take(i as int)) > max,
        decreases t@.len() - i,
    {
        let c = t[i];
        if !('0' <= c && c <= '9') {
            assert(!is_digit(t@[i as int]));
            return None;
        }
        let d: u64 = (c as u32 - 48) as u64;
        assert(t@.take(i as int + 1).drop_last() =~= t@.take(i as int));
        if fits {
            if value > u64::MAX / 10 || value * 10 > u64::MAX - d || value * 10 + d > max {
                fits = false;
            } else {
                value = value * 10 + d;
            }
        }
        i = i + 1;
    }
    assert(t@.take(i as int) =~= t@);
    if fits {
        Some(value)
    } else {
        None
    }
}

pub proof fn lemma_decimal_digits(n: nat)
    ensures
        decimal(n).len() >= 1,
        all_digits(decimal(n)),
        digits_value(decimal(n)) == n,
    decreases n,
{
    if n < 10 {
        let s = decimal(n);
        assert(s.drop_last() =~= Seq::<char>::empty());
        assert(digits_value(s.drop_last()) == 0);
    } else {
        lemma_decimal_digits(n / 10);
        assert(decimal(n).drop_last() =~= decimal(n / 10));
    }
}

/// Writing a number in decimal and parsing it gives the number back.
pub proof fn law_decimal_round_trip(n: nat, max: nat)
    requires
        n <= max,
    ensures
        parsed(decimal(n), max) == Some(n),
{
    lemma_decimal_digits(n);
    assert(is_digit(decimal(n)[0]));
}

// --- laws ----------------------------------------------------------------------

/// Two texts of which the first ends its last line have, together, the lines of each.
pub proof fn law_lines_of_joined_texts(a: Seq<char>, b: Seq<char>)
    requires
        a.len() == 0 || a.last() == '\n',
    ensures
        lines(a + b) == lines(a) + lines(b),
{
    let q = split(b, '\n');
    lemma_split_nonempty(b, '\n');
    if a.len() == 0 {
        assert(a + b =~= b);
        assert(lines(a) =~= Seq::<Seq<char>>::empty());
        assert(lines(a + b) =~= lines(a) + lines(b));
    } else {
        let init = a.drop_last();
        let p = split(init, '\n');
        assert(a =~= init.push('\n'));
        assert(a =~= init.push('\n') + Seq::<char>::empty());
        lemma_split_join(init, b, '\n');
        lemma_split_join(init, Seq::empty(), '\n');
        let nothing = split(Seq::<char>::empty(), '\n');
        assert(nothing =~= seq![Seq::<char>::empty()]);
        assert((p + nothing).drop_last() =~= p);
        assert((p + q).drop_last() =~= p + q.drop_last());
        assert(lines(a + b) =~= lines(a) + lines(b));
    }
}

/// One line, ended.
pub proof fn lemma_one_line(line: Seq<char>)
    requires
        !line.contains('\n'),
    ensures
        lines(line.push('\n')) == seq![without_cr(line)],
{
    let nothing = Seq::<char>::empty();
    assert(line.push('\n') =~= line.push('\n') + nothing);
    lemma_split_join(line, nothing, '\n');
    lemma_split_one(line, '\n');
    assert(split(nothing, '\n') =~= seq![nothing]);
    assert((seq![line] + seq![nothing]).drop_last() =~= seq![line]);
    assert(lines(line.push('\n')) =~= seq![without_cr(line)]);
}

/// The first piece of a text starts as the text does, up to the separator.
pub proof fn lemma_first_piece(s: Seq<char>, sep: char, pat: Seq<char>)
    requires
        has_prefix(s, pat),
        !pat.contains(sep),
    ensures
        has_prefix(split(s, sep)[0], pat),
    decreases pat.len(),
{
    let piece = split(s, sep)[0];
    lemma_split_nonempty(s, sep);
    if pat.len() > 0 {
        assert(s.take(pat.len() as int)[0] == pat[0]);
        assert(s[0] == pat[0]);
        assert(pat.contains(pat[0]));
        let (rest, more) = (s.skip(1), pat.skip(1));
        lemma_split_nonempty(rest, sep);
        assert(rest.take(more.len() as int) =~= s.take(pat.len() as int).skip(1));
        assert(more =~= s.take(pat.len() as int).skip(1));
        assert forall|i: int| 0 <= i < more.len() implies more[i] != sep by {
            assert(pat.contains(pat[i + 1]));
        }
        lemma_first_piece(rest, sep, more);
        let next = split(rest, sep)[0];
        assert(piece =~= seq![s[0]] + next);
        assert(piece.take(pat.len() as int) =~= seq![s[0]] + next.take(more.len() as int));
        assert(pat =~= seq![pat[0]] + more);
    } else {
        assert(piece.take(0) =~= pat);
    }
}

/// Trimming the end of a text that ends in whitespace, then the text, is trimming it.
proof fn lemma_trimmed_last(t: Seq<char>)
    requires
        t.len() > 0,
        is_space(t.last()),
    ensures
        trimmed(t.drop_last()) == trimmed(t),
    decreases t.len(),
{
    if is_space(t[0]) {
        if t.len() == 1 {
            assert(t.skip(1) =~= t.drop_last());
            assert(trimmed_start(t) == trimmed_start(t.skip(1)));
        } else {
            lemma_trimmed_last(t.skip(1));
            assert(t.drop_last().skip(1) =~= t.skip(1).drop_last());
            assert(t.drop_last()[0] == t[0]);
        }
    } else {
        assert(t.drop_last()[0] == t[0]);
    }
}

/// Trimming the end of a text first makes no difference.
pub proof fn lemma_trimmed_end_first(t: Seq<char>)
    ensures
        trimmed(trimmed_end(t)) == trimmed(t),
    decreases t.len(),
{
    if t.len() > 0 && is_space(t.last()) {
        lemma_trimmed_end_first(t.drop_last());
        lemma_trimmed_last(t);
    }
}

/// Trimming the end leaves a first character that is no whitespace.
pub proof fn lemma_trimmed_end_keeps(c: char, t: Seq<char>)
    requires
        !is_space(c),
    ensures
        trimmed_end(seq![c] + t) == seq![c] + trimmed_end(t),
    decreases t.len(),
{
    let s = seq![c] + t;
    if t.len() > 0 {
        assert(s.last() == t.last());
        if is_space(t.last()) {
            assert(s.drop_last() =~= seq![c] + t.drop_last());
            lemma_trimmed_end_keeps(c, t.drop_last());
        }
    } else {
        assert(s.last() == c);
        assert(s =~= seq![c] + trimmed_end(t));
    }
}

} // verus!
