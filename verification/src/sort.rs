//! Orders: the file list's sort fields, and the chips' list of file types.

use vstd::prelude::*;
use vstd::slice::slice_subrange;
use crate::git;
use crate::git::{Entry, FileEntry};
use crate::txt;

verus! {

/// What the file list is sorted by.
#[derive(Debug, Clone, Copy, PartialEq, Eq, Structural)]
pub enum SortField {
    /// Alphabetical by path (a tree-ish grouping).
    Tree,
    /// By worktree modification time.
    Modified,
    /// By total changed lines (added + removed).
    Size,
}

/// The name of a sort field, shown and persisted.
pub open spec fn field_name(field: SortField) -> Seq<char> {
    match field {
        SortField::Tree => "tree"@,
        SortField::Modified => "modified"@,
        SortField::Size => "size"@,
    }
}

/// The arrow that shows a sort direction.
pub open spec fn arrow(desc: bool) -> Seq<char> {
    if desc {
        "▼"@
    } else {
        "▲"@
    }
}

/// The arrow that shows a sort direction.
pub fn arrow_text(desc: bool) -> (r: &'static str)
    ensures
        r@ == arrow(desc),
{
    if desc {
        "▼"
    } else {
        "▲"
    }
}

/// The field after `field`.
pub open spec fn next_field(field: SortField) -> SortField {
    match field {
        SortField::Tree => SortField::Modified,
        SortField::Modified => SortField::Size,
        SortField::Size => SortField::Tree,
    }
}

/// The field that a persisted name stands for.
pub open spec fn named_field(s: Seq<char>) -> Option<SortField> {
    if s == "tree"@ {
        Some(SortField::Tree)
    } else if s == "modified"@ {
        Some(SortField::Modified)
    } else if s == "size"@ {
        Some(SortField::Size)
    } else {
        None
    }
}

impl SortField {
    pub fn label(self) -> (r: &'static str)
        ensures
            r@ == field_name(self),
    {
        match self {
            SortField::Tree => "tree",
            SortField::Modified => "modified",
            SortField::Size => "size",
        }
    }

    pub fn as_key(self) -> (r: &'static str)
        ensures
            r@ == field_name(self),
    {
        match self {
            SortField::Tree => "tree",
            SortField::Modified => "modified",
            SortField::Size => "size",
        }
    }

    /// The file-list header's right-aligned sort text, e.g. `"tree ▼"`, shared by
    /// rendering and click hit-testing so the two can never disagree on width.
    pub fn indicator(self, desc: bool) -> (r: String)
        ensures
            r@ == field_name(self).push(' ') + arrow(desc),
    {
        let mut s = self.label().to_owned();
        s.push(' ');
        s.append(arrow_text(desc));
        s
    }

    pub fn from_key(s: &str) -> (r: Option<SortField>)
        ensures
            r == named_field(s@),
    {
        if txt::same(s, "tree") {
            Some(SortField::Tree)
        } else if txt::same(s, "modified") {
            Some(SortField::Modified)
        } else if txt::same(s, "size") {
            Some(SortField::Size)
        } else {
            None
        }
    }

    /// The field after this one.
    pub fn next(self) -> (r: SortField)
        ensures
            r == next_field(self),
    {
        match self {
            SortField::Tree => SortField::Modified,
            SortField::Modified => SortField::Size,
            SortField::Size => SortField::Tree,
        }
    }
}

// --- comparing -----------------------------------------------------------------

/// Whether `a` stands before `b` in the order of texts.
pub open spec fn text_less(a: Seq<char>, b: Seq<char>) -> bool
    decreases a.len(),
{
    if b.len() == 0 {
        false
    } else if a.len() == 0 {
        true
    } else if a[0] != b[0] {
        (a[0] as u32) < (b[0] as u32)
    } else {
        text_less(a.skip(1), b.skip(1))
    }
}

fn chars_less(a: &[char], b: &[char]) -> (r: bool)
    ensures
        r == text_less(a@, b@),
{
    let n = a.len();
    let m = b.len();
    let mut i: usize = 0;
    assert(a@.skip(0) =~= a@);
    assert(b@.skip(0) =~= b@);
    loop
        invariant
            n == a@.len(),
            m == b@.len(),
            i <= n,
            i <= m,
            text_less(a@, b@) == text_less(a@.skip(i as int), b@.skip(i as int)),
        decreases n - i,
    {
        if i == m {
            return false;
        }
        if i == n {
            return true;
        }
        if a[i] != b[i] {
            return (a[i] as u32) < (b[i] as u32);
        }
        assert(a@.skip(i as int).skip(1) =~= a@.skip(i as int + 1));
        assert(b@.skip(i as int).skip(1) =~= b@.skip(i as int + 1));
        i = i + 1;
    }
}

/// Whether `a` stands before `b` in the order of texts.
pub fn str_less(a: &str, b: &str) -> (r: bool)
    ensures
        r == text_less(a@, b@),
{
    let x = txt::chars_of(a);
    let y = txt::chars_of(b);
    chars_less(x.as_slice(), y.as_slice())
}

/// The changed lines of a file; unknown stats (binary files) count as 0.
pub open spec fn size_of_entry(f: Entry) -> nat {
    (match f.added {
        Some(a) => a as nat,
        None => 0,
    }) + (match f.removed {
        Some(r) => r as nat,
        None => 0,
    })
}

/// Total changed lines for size sorting; unknown stats (binary files) count as 0.
pub fn size_key(f: &FileEntry) -> (n: u64)
    ensures
        n == size_of_entry(f@),
{
    let added: u64 = match f.added {
        Some(a) => a as u64,
        None => 0,
    };
    let removed: u64 = match f.removed {
        Some(r) => r as u64,
        None => 0,
    };
    added + removed
}

/// Whether `a` has to stand before `b` when sorted by `field`.
pub open spec fn stands_before(a: Entry, b: Entry, field: SortField) -> bool {
    match field {
        SortField::Tree => text_less(a.path, b.path),
        SortField::Modified => a.mtime < b.mtime,
        SortField::Size => size_of_entry(a) < size_of_entry(b) || size_of_entry(a) == size_of_entry(
            b,
        ) && text_less(a.path, b.path),
    }
}

fn goes_before(a: &FileEntry, b: &FileEntry, field: SortField) -> (r: bool)
    ensures
        r == stands_before(a@, b@, field),
{
    match field {
        SortField::Tree => str_less(a.path.as_str(), b.path.as_str()),
        SortField::Modified => a.mtime < b.mtime,
        SortField::Size => {
            let x = size_key(a);
            let y = size_key(b);
            x < y || x == y && str_less(a.path.as_str(), b.path.as_str())
        },
    }
}

// --- sorting -------------------------------------------------------------------

/// The sorted list `s` with `e` in its place: behind everything that `e` need not
/// stand before.
pub open spec fn placed(s: Seq<Entry>, e: Entry, field: SortField) -> Seq<Entry>
    decreases s.len(),
{
    if s.len() > 0 && stands_before(e, s.last(), field) {
        placed(s.drop_last(), e, field).push(s.last())
    } else {
        s.push(e)
    }
}

/// The first `n` entries sorted by `field`, equals in their given order.
pub open spec fn sorted_upto(files: Seq<Entry>, field: SortField, n: int) -> Seq<Entry>
    decreases n,
{
    if n <= 0 {
        Seq::empty()
    } else {
        placed(sorted_upto(files, field, n - 1), files[n - 1], field)
    }
}

/// The entries sorted by `field`, equals in their given order.
pub open spec fn sorted(files: Seq<Entry>, field: SortField) -> Seq<Entry> {
    sorted_upto(files, field, files.len() as int)
}

/// The entries sorted by `field` in the given direction.
pub open spec fn in_order(files: Seq<Entry>, field: SortField, desc: bool) -> Seq<Entry> {
    if desc {
        sorted(files, field).reverse()
    } else {
        sorted(files, field)
    }
}

proof fn lemma_placed_len(s: Seq<Entry>, e: Entry, field: SortField)
    ensures
        placed(s, e, field).len() == s.len() + 1,
    decreases s.len(),
{
    if s.len() > 0 && stands_before(e, s.last(), field) {
        lemma_placed_len(s.drop_last(), e, field);
    }
}

proof fn lemma_sorted_len(files: Seq<Entry>, field: SortField, n: int)
    requires
        0 <= n <= files.len(),
    ensures
        sorted_upto(files, field, n).len() == n,
    decreases n,
{
    if n > 0 {
        lemma_sorted_len(files, field, n - 1);
        lemma_placed_len(sorted_upto(files, field, n - 1), files[n - 1], field);
    }
}

/// Sorts `files` by `field`, ascending.
pub fn sort_entries(files: &mut Vec<FileEntry>, field: SortField)
    ensures
        git::entries(final(files)@) == sorted(git::entries(old(files)@), field),
{
    let ghost first = git::entries(files@);
    let n = files.len();
    let mut i: usize = 0;
    assert(sorted_upto(first, field, 0) + first.skip(0) =~= first);
    while i < n
        invariant
            i <= n,
            n == files@.len(),
            first.len() == n,
            git::entries(files@) == sorted_upto(first, field, i as int) + first.skip(i as int),
        decreases n - i,
    {
        let ghost done = sorted_upto(first, field, i as int);
        proof {
            lemma_sorted_len(first, field, i as int);
        }
        let ghost all = git::entries(files@);
        assert(all[i as int] == first[i as int]);
        let e = files.remove(i);
        let ghost new = first[i as int];
        assert(git::entries(files@) =~= all.remove(i as int));
        let ghost rest = git::entries(files@);
        let mut j: usize = i;
        assert(done.take(i as int) =~= done);
        assert(done.skip(i as int) =~= Seq::<Entry>::empty());
        assert(placed(done, new, field) + Seq::<Entry>::empty() =~= placed(done, new, field));
        while j > 0 && goes_before(&e, &files[j - 1], field)
            invariant
                j <= i < n,
                files@.len() == n - 1,
                e@ == new,
                rest == git::entries(files@),
                done.len() == i,
                forall|k: int| 0 <= k < i ==> #[trigger] rest[k] == done[k],
                placed(done, new, field) == placed(done.take(j as int), new, field) + done.skip(
                    j as int,
                ),
            decreases j,
        {
            let ghost left = done.take(j as int);
            assert(rest[j - 1] == files@[j - 1]@);
            assert(left.last() == done[j - 1]);
            assert(left.drop_last() =~= done.take(j - 1));
            assert(placed(left, new, field) + done.skip(j as int) =~= placed(
                done.take(j - 1),
                new,
                field,
            ) + done.skip(j - 1));
            j = j - 1;
        }
        proof {
            let left = done.take(j as int);
            if j > 0 {
                assert(rest[j - 1] == files@[j - 1]@);
                assert(left.last() == done[j - 1]);
            }
            assert(placed(left, new, field) =~= left.push(new));
        }
        files.insert(j, e);
        proof {
            let now = sorted_upto(first, field, i as int + 1);
            assert(now == placed(done, new, field));
            assert(git::entries(files@) =~= rest.insert(j as int, new));
            assert(git::entries(files@) =~= now + first.skip(i as int + 1));
        }
        i = i + 1;
    }
    proof {
        lemma_sorted_len(first, field, n as int);
        assert(sorted_upto(first, field, n as int) + first.skip(n as int) =~= sorted(first, field));
    }
}

/// Reverses a list of entries.
pub fn reverse_entries(files: &mut Vec<FileEntry>)
    ensures
        git::entries(final(files)@) == git::entries(old(files)@).reverse(),
{
    let ghost first = git::entries(files@);
    let n = files.len();
    let mut out: Vec<FileEntry> = Vec::new();
    let mut i: usize = 0;
    while i < n
        invariant
            i <= n,
            first.len() == n,
            files@.len() == n - i,
            out@.len() == i,
            git::entries(files@) == first.take(n - i),
            forall|k: int| 0 <= k < i ==> git::entries(out@)[k] == first[n - 1 - k],
        decreases n - i,
    {
        let ghost all = git::entries(files@);
        let ghost was = git::entries(out@);
        let e = files.pop().unwrap();
        assert(all.last() == e@);
        assert(git::entries(files@) =~= all.drop_last());
        assert(all.drop_last() =~= first.take(n - i - 1));
        out.push(e);
        assert(git::entries(out@) =~= was.push(first[n - 1 - i]));
        i = i + 1;
    }
    *files = out;
    assert(git::entries(files@) =~= first.reverse());
}

/// Sorts `files` by `field` in the given direction.
pub fn order_entries(files: &mut Vec<FileEntry>, field: SortField, desc: bool)
    ensures
        git::entries(final(files)@) == in_order(git::entries(old(files)@), field, desc),
{
    sort_entries(files, field);
    if desc {
        reverse_entries(files);
    }
}

// --- file types ----------------------------------------------------------------

/// The last part of a path that is neither empty nor `.`, looking back from part
/// `n`.
pub open spec fn last_part(parts: Seq<Seq<char>>, n: int) -> Option<Seq<char>>
    decreases n,
{
    if n <= 0 {
        None
    } else if parts[n - 1].len() > 0 && parts[n - 1] != "."@ {
        Some(parts[n - 1])
    } else {
        last_part(parts, n - 1)
    }
}

/// What stands behind the last dot of a file name, unless that dot starts it.
pub open spec fn suffix(name: Seq<char>) -> Option<Seq<char>> {
    match txt::rfind_from(name, "."@, name.len() - 1) {
        Some(i) => if i == 0 {
            None
        } else {
            Some(name.skip(i + 1))
        },
        None => None,
    }
}

/// The extension of the file at `path`, as it is written.
pub open spec fn written_extension(path: Seq<char>) -> Option<Seq<char>> {
    let parts = txt::split(path, '/');
    match last_part(parts, parts.len() as int) {
        None => None,
        Some(name) => if name == ".."@ {
            None
        } else {
            suffix(name)
        },
    }
}

/// The lowercased extension of the file at `path`.
pub open spec fn extension(path: Seq<char>) -> Option<Seq<char>> {
    match written_extension(path) {
        Some(e) => Some(txt::lowered(e)),
        None => None,
    }
}

fn suffix_chars(name: &[char]) -> (r: Option<&[char]>)
    ensures
        match r {
            Some(e) => suffix(name@) == Some(e@),
            None => suffix(name@) is None,
        },
{
    let n = name.len();
    let mut i: usize = n;
    proof {
        reveal_strlit(".");
        assert("."@ =~= seq!['.']);
    }
    while i > 0
        invariant
            n == name@.len(),
            i <= n,
            "."@ == seq!['.'],
            txt::rfind_from(name@, "."@, n - 1) == txt::rfind_from(name@, "."@, i - 1),
        decreases i,
    {
        assert(name@.subrange(i - 1, i as int) =~= seq![name@[i - 1]]);
        if name[i - 1] == '.' {
            assert(txt::occurs_at(name@, "."@, i - 1));
            if i == 1 {
                return None;
            }
            let rest = slice_subrange(name, i, n);
            assert(rest@ =~= name@.skip(i as int));
            return Some(rest);
        }
        assert(seq![name@[i - 1]][0] != seq!['.'][0]);
        i = i - 1;
    }
    None
}

/// The extension of the file at `path`, as it is written (no leading dot); `None`
/// for extensionless files and dotfiles with no further suffix (e.g.
/// `.gitignore`, `Makefile`).
pub fn extension_written(path: &str) -> (r: Option<String>)
    ensures
        txt::opt_text(r) == written_extension(path@),
{
    let chars = txt::chars_of(path);
    let parts = txt::split_chars(chars.as_slice(), '/');
    let ghost all = txt::parts_of(parts@);
    let dot = txt::chars_of(".");
    let dots = txt::chars_of("..");
    let mut i: usize = parts.len();
    assert(all.len() == parts@.len());
    while i > 0
        invariant
            i <= parts@.len(),
            all == txt::parts_of(parts@),
            all == txt::split(path@, '/'),
            all.len() == parts@.len(),
            dot@ == "."@,
            dots@ == ".."@,
            last_part(all, all.len() as int) == last_part(all, i as int),
        decreases i,
    {
        let part = parts[i - 1].as_slice();
        assert(all[i - 1] == part@);
        if part.len() > 0 && !txt::same_chars(part, dot.as_slice()) {
            if txt::same_chars(part, dots.as_slice()) {
                return None;
            }
            return match suffix_chars(part) {
                Some(e) => Some(txt::string_of(e)),
                None => None,
            };
        }
        i = i - 1;
    }
    None
}

/// The lowercased extension of `path` (no leading dot).
pub fn file_extension(path: &str) -> (r: Option<String>)
    ensures
        txt::opt_text(r) == extension(path@),
{
    match extension_written(path) {
        Some(e) => Some(e.as_str().to_lowercase()),
        None => None,
    }
}

/// The ascending list `s` with `x` in its place, unless it is there already.
pub open spec fn with_name(s: Seq<Seq<char>>, x: Seq<char>) -> Seq<Seq<char>>
    decreases s.len(),
{
    if s.len() == 0 {
        seq![x]
    } else if s.last() == x {
        s
    } else if text_less(x, s.last()) {
        with_name(s.drop_last(), x).push(s.last())
    } else {
        s.push(x)
    }
}

/// Puts `x` into its place in the ascending list, unless it is there already.
pub fn add_name(list: &mut Vec<String>, x: String)
    ensures
        txt::texts(final(list)@) == with_name(txt::texts(old(list)@), x@),
{
    let ghost s = txt::texts(list@);
    let mut j: usize = list.len();
    assert(s.take(j as int) =~= s);
    assert(s.skip(j as int) =~= Seq::<Seq<char>>::empty());
    assert(with_name(s, x@) + Seq::<Seq<char>>::empty() =~= with_name(s, x@));
    while j > 0
        invariant
            j <= list@.len(),
            s == txt::texts(list@),
            *list == *old(list),
            with_name(s, x@) == with_name(s.take(j as int), x@) + s.skip(j as int),
        ensures
            j > 0 ==> s[j - 1] != x@ && !text_less(x@, s[j - 1]),
        decreases j,
    {
        let ghost left = s.take(j as int);
        assert(left.last() == list@[j - 1]@);
        if txt::same(list[j - 1].as_str(), x.as_str()) {
            assert(left + s.skip(j as int) =~= s);
            return;
        }
        if !str_less(x.as_str(), list[j - 1].as_str()) {
            break;
        }
        assert(left.drop_last() =~= s.take(j - 1));
        assert(with_name(left, x@) + s.skip(j as int) =~= with_name(s.take(j - 1), x@) + s.skip(
            j - 1,
        ));
        j = j - 1;
    }
    let ghost left = s.take(j as int);
    proof {
        if j > 0 {
            assert(left.last() == s[j - 1]);
        }
        assert(with_name(left, x@) =~= left.push(x@));
    }
    let ghost new = x@;
    list.insert(j, x);
    assert(txt::texts(list@) =~= left.push(new) + s.skip(j as int));
}

} // verus!
