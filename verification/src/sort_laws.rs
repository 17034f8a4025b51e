//! What sorting keeps and establishes.

use vstd::prelude::*;
use crate::git::Entry;
use crate::sort;
use crate::sort::SortField;
use crate::txt;

verus! {

// --- the order of texts --------------------------------------------------------

/// No text stands before itself.
pub proof fn law_text_order_is_irreflexive(a: Seq<char>)
    ensures
        !sort::text_less(a, a),
    decreases a.len(),
{
    if a.len() > 0 {
        law_text_order_is_irreflexive(a.skip(1));
    }
}

/// The order of texts is transitive.
pub proof fn law_text_order_is_transitive(a: Seq<char>, b: Seq<char>, c: Seq<char>)
    requires
        sort::text_less(a, b),
        sort::text_less(b, c),
    ensures
        sort::text_less(a, c),
    decreases a.len(),
{
    if a.len() > 0 && b.len() > 0 && c.len() > 0 && a[0] == b[0] && b[0] == c[0] {
        law_text_order_is_transitive(a.skip(1), b.skip(1), c.skip(1));
    }
}

proof fn lemma_chars_differ(x: char, y: char)
    requires
        x != y,
    ensures
        (x as u32) < (y as u32) || (y as u32) < (x as u32),
{
}

/// Of two different texts one stands before the other.
pub proof fn law_text_order_is_total(a: Seq<char>, b: Seq<char>)
    requires
        a != b,
    ensures
        sort::text_less(a, b) || sort::text_less(b, a),
    decreases a.len(),
{
    if a.len() == 0 {
        if b.len() == 0 {
            assert(a =~= b);
        }
    } else if b.len() > 0 && a[0] == b[0] {
        if a.skip(1) == b.skip(1) {
            assert(a =~= seq![a[0]] + a.skip(1));
            assert(b =~= seq![b[0]] + b.skip(1));
        }
        law_text_order_is_total(a.skip(1), b.skip(1));
    } else if b.len() > 0 {
        lemma_chars_differ(a[0], b[0]);
    } else {
        assert(sort::text_less(b, a));
    }
}

proof fn lemma_text_asymmetric(a: Seq<char>, b: Seq<char>)
    requires
        sort::text_less(a, b),
    ensures
        !sort::text_less(b, a),
{
    if sort::text_less(b, a) {
        law_text_order_is_transitive(a, b, a);
        law_text_order_is_irreflexive(a);
    }
}

// --- the order of entries ------------------------------------------------------

/// Whether neither entry has to stand before the other.
pub open spec fn tied(a: Entry, b: Entry, field: SortField) -> bool {
    !sort::stands_before(a, b, field) && !sort::stands_before(b, a, field)
}

proof fn lemma_before_asymmetric(a: Entry, b: Entry, field: SortField)
    requires
        sort::stands_before(a, b, field),
    ensures
        !sort::stands_before(b, a, field),
{
    if sort::text_less(a.path, b.path) {
        lemma_text_asymmetric(a.path, b.path);
    }
}

/// If `a` stands before `b`, any third entry stands behind `a` or before `b`.
proof fn lemma_before_splits(a: Entry, b: Entry, c: Entry, field: SortField)
    requires
        sort::stands_before(a, b, field),
    ensures
        sort::stands_before(a, c, field) || sort::stands_before(c, b, field),
{
    if sort::text_less(a.path, b.path) {
        if c.path != a.path {
            law_text_order_is_total(a.path, c.path);
            if sort::text_less(c.path, a.path) {
                law_text_order_is_transitive(c.path, a.path, b.path);
            }
        }
    }
}

// --- sorting -------------------------------------------------------------------

/// Whether no entry has to stand before an earlier one.
pub open spec fn ordered(s: Seq<Entry>, field: SortField) -> bool {
    forall|i: int, j: int|
        0 <= i < j < s.len() ==> !sort::stands_before(#[trigger] s[j], #[trigger] s[i], field)
}

proof fn lemma_placed(s: Seq<Entry>, e: Entry, field: SortField)
    requires
        ordered(s, field),
    ensures
        ordered(sort::placed(s, e, field), field),
        sort::placed(s, e, field).to_multiset() == s.to_multiset().insert(e),
        forall|x: Entry|
            #[trigger] sort::placed(s, e, field).contains(x) ==> x == e || s.contains(x),
    decreases s.len(),
{
    broadcast use vstd::seq_lib::group_to_multiset_ensures;

    let r = sort::placed(s, e, field);
    if s.len() > 0 && sort::stands_before(e, s.last(), field) {
        let init = s.drop_last();
        let inner = sort::placed(init, e, field);
        lemma_placed(init, e, field);
        assert(init.push(s.last()) =~= s);
        assert forall|x: Entry| inner.contains(x) implies !sort::stands_before(
            s.last(),
            x,
            field,
        ) by {
            if x == e {
                lemma_before_asymmetric(e, s.last(), field);
            } else {
                let i = choose|i: int| 0 <= i < init.len() && init[i] == x;
                assert(s[i] == x);
            }
        }
        assert forall|i: int, j: int| 0 <= i < j < r.len() implies !sort::stands_before(
            #[trigger] r[j],
            #[trigger] r[i],
            field,
        ) by {
            if j == inner.len() {
                assert(inner.contains(inner[i]));
            }
        }
        assert forall|x: Entry| #[trigger] r.contains(x) implies x == e || s.contains(x) by {
            let i = choose|i: int| 0 <= i < r.len() && r[i] == x;
            if i < inner.len() {
                assert(inner.contains(x));
                if x != e {
                    let k = choose|k: int| 0 <= k < init.len() && init[k] == x;
                    assert(s[k] == x);
                }
            } else {
                assert(s[s.len() - 1] == x);
            }
        }
        assert(r.to_multiset() =~= s.to_multiset().insert(e));
    } else {
        assert forall|i: int, j: int| 0 <= i < j < r.len() implies !sort::stands_before(
            #[trigger] r[j],
            #[trigger] r[i],
            field,
        ) by {
            if j == s.len() && sort::stands_before(e, s[i], field) {
                // The last entry need not stand behind `e`, nor before `s[i]`.
                lemma_before_splits(e, s[i], s.last(), field);
            }
        }
        assert forall|x: Entry| #[trigger] r.contains(x) implies x == e || s.contains(x) by {
            let i = choose|i: int| 0 <= i < r.len() && r[i] == x;
            if i < s.len() {
                assert(s[i] == x);
            }
        }
    }
}

proof fn lemma_sorted(files: Seq<Entry>, field: SortField, n: int)
    requires
        0 <= n <= files.len(),
    ensures
        ordered(sort::sorted_upto(files, field, n), field),
        sort::sorted_upto(files, field, n).to_multiset() == files.take(n).to_multiset(),
    decreases n,
{
    broadcast use vstd::seq_lib::group_to_multiset_ensures;

    if n > 0 {
        lemma_sorted(files, field, n - 1);
        lemma_placed(sort::sorted_upto(files, field, n - 1), files[n - 1], field);
        assert(files.take(n - 1).push(files[n - 1]) =~= files.take(n));
    } else {
        assert(files.take(0) =~= Seq::<Entry>::empty());
    }
}

/// Sorting puts no entry behind one that has to follow it.
pub proof fn law_sorting_orders(files: Seq<Entry>, field: SortField)
    ensures
        ordered(sort::sorted(files, field), field),
{
    lemma_sorted(files, field, files.len() as int);
}

/// Sorting loses, adds and changes no entry.
pub proof fn law_sorting_permutes(files: Seq<Entry>, field: SortField, desc: bool)
    ensures
        sort::in_order(files, field, desc).to_multiset() == files.to_multiset(),
{
    lemma_sorted(files, field, files.len() as int);
    assert(files.take(files.len() as int) =~= files);
    let s = sort::sorted(files, field);
    s.lemma_reverse_to_multiset();
}

proof fn lemma_placed_stable(s: Seq<Entry>, e: Entry, k: Entry, field: SortField)
    requires
        ordered(s, field),
    ensures
        sort::placed(s, e, field).filter(|x: Entry| tied(x, k, field)) == s.push(e).filter(
            |x: Entry| tied(x, k, field),
        ),
    decreases s.len(),
{
    reveal(Seq::filter);
    let p = |x: Entry| tied(x, k, field);
    if s.len() > 0 && sort::stands_before(e, s.last(), field) {
        let init = s.drop_last();
        lemma_placed_stable(init, e, k, field);
        let r = sort::placed(s, e, field);
        assert(r.drop_last() =~= sort::placed(init, e, field));
        assert(r.last() == s.last());
        assert(s.push(e).drop_last() =~= s);
        assert(init.push(e).drop_last() =~= init);
        // Both cannot be tied with `k`: one has to stand before the other.
        if p(e) && p(s.last()) {
            lemma_before_splits(e, s.last(), k, field);
        }
        let kept = init.filter(p);
        assert(init.push(e).filter(p) == if p(e) {
            kept.push(e)
        } else {
            kept
        });
        assert(s.filter(p) == if p(s.last()) {
            kept.push(s.last())
        } else {
            kept
        });
        assert(s.push(e).filter(p) == if p(e) {
            s.filter(p).push(e)
        } else {
            s.filter(p)
        });
        assert(r.filter(p) == if p(r.last()) {
            r.drop_last().filter(p).push(r.last())
        } else {
            r.drop_last().filter(p)
        });
    }
}

proof fn lemma_sorted_stable(files: Seq<Entry>, field: SortField, k: Entry, n: int)
    requires
        0 <= n <= files.len(),
    ensures
        sort::sorted_upto(files, field, n).filter(|x: Entry| tied(x, k, field)) == files.take(
            n,
        ).filter(|x: Entry| tied(x, k, field)),
    decreases n,
{
    reveal(Seq::filter);
    let p = |x: Entry| tied(x, k, field);
    if n > 0 {
        lemma_sorted_stable(files, field, k, n - 1);
        lemma_sorted(files, field, n - 1);
        let s = sort::sorted_upto(files, field, n - 1);
        lemma_placed_stable(s, files[n - 1], k, field);
        assert(s.push(files[n - 1]).drop_last() =~= s);
        assert(files.take(n).drop_last() =~= files.take(n - 1));
        assert(sort::sorted_upto(files, field, n).filter(p) =~= files.take(n).filter(p));
    } else {
        assert(files.take(0) =~= Seq::<Entry>::empty());
    }
}

/// Sorting is stable: the entries tied with any given one keep their order.
pub proof fn law_sorting_is_stable(files: Seq<Entry>, field: SortField, k: Entry)
    ensures
        sort::sorted(files, field).filter(|x: Entry| tied(x, k, field)) == files.filter(
            |x: Entry| tied(x, k, field),
        ),
{
    lemma_sorted_stable(files, field, k, files.len() as int);
    assert(files.take(files.len() as int) =~= files);
}

/// The descending order is the ascending one read backwards.
pub proof fn law_directions_mirror(files: Seq<Entry>, field: SortField)
    ensures
        sort::in_order(files, field, true) == sort::in_order(files, field, false).reverse(),
        sort::in_order(files, field, false) == sort::in_order(files, field, true).reverse(),
{
    let s = sort::sorted(files, field);
    assert(s.reverse().reverse() =~= s);
}

/// Cycling the sort field three times comes back to it.
pub proof fn law_fields_cycle(field: SortField)
    ensures
        sort::next_field(sort::next_field(sort::next_field(field))) == field,
        sort::next_field(field) != field,
        sort::next_field(sort::next_field(field)) != field,
{
}

/// A persisted sort field is read back.
pub proof fn law_field_keys_round_trip(field: SortField)
    ensures
        sort::named_field(sort::field_name(field)) == Some(field),
{
    reveal_strlit("tree");
    reveal_strlit("modified");
    reveal_strlit("size");
    assert("tree"@[0] == 't' && "modified"@[0] == 'm' && "size"@[0] == 's');
}

// --- file types ----------------------------------------------------------------

/// Whether each name stands before every later one.
pub open spec fn ascending(s: Seq<Seq<char>>) -> bool {
    forall|i: int, j: int|
        0 <= i < j < s.len() ==> sort::text_less(#[trigger] s[i], #[trigger] s[j])
}

/// Adding a name keeps the list ascending (so nothing stands in it twice) and
/// adds just that name.
pub proof fn law_file_types_are_ascending_and_distinct(s: Seq<Seq<char>>, x: Seq<char>)
    requires
        ascending(s),
    ensures
        ascending(sort::with_name(s, x)),
        forall|y: Seq<char>|
            #[trigger] sort::with_name(s, x).contains(y) <==> y == x || s.contains(y),
    decreases s.len(),
{
    let r = sort::with_name(s, x);
    if s.len() == 0 {
        assert(r[0] == x);
        assert forall|y: Seq<char>| #[trigger] r.contains(y) <==> y == x || s.contains(y) by {
            if y == x {
                assert(r[0] == y);
            }
        }
    } else if s.last() == x {
        assert(s.contains(s[s.len() - 1]));
    } else if sort::text_less(x, s.last()) {
        let init = s.drop_last();
        let inner = sort::with_name(init, x);
        law_file_types_are_ascending_and_distinct(init, x);
        assert forall|y: Seq<char>| inner.contains(y) implies sort::text_less(y, s.last()) by {
            if y != x {
                let i = choose|i: int| 0 <= i < init.len() && init[i] == y;
                assert(sort::text_less(s[i], s[s.len() - 1]));
            }
        }
        assert forall|i: int, j: int| 0 <= i < j < r.len() implies sort::text_less(
            #[trigger] r[i],
            #[trigger] r[j],
        ) by {
            if j == inner.len() {
                assert(inner.contains(inner[i]));
            }
        }
        assert forall|y: Seq<char>| #[trigger] r.contains(y) <==> y == x || s.contains(y) by {
            if r.contains(y) {
                let i = choose|i: int| 0 <= i < r.len() && r[i] == y;
                if i < inner.len() {
                    assert(inner.contains(y));
                    if y != x {
                        let k = choose|k: int| 0 <= k < init.len() && init[k] == y;
                        assert(s[k] == y);
                    }
                } else {
                    assert(s[s.len() - 1] == y);
                }
            }
            if y == x {
                assert(inner.contains(x));
                let k = choose|k: int| 0 <= k < inner.len() && inner[k] == x;
                assert(r[k] == x);
            }
            if s.contains(y) {
                let k = choose|k: int| 0 <= k < s.len() && s[k] == y;
                if k < init.len() {
                    assert(init[k] == y);
                    assert(inner.contains(y));
                    let m = choose|m: int| 0 <= m < inner.len() && inner[m] == y;
                    assert(r[m] == y);
                } else {
                    assert(r[inner.len() as int] == y);
                }
            }
        }
    } else {
        law_text_order_is_total(s.last(), x);
        assert forall|i: int, j: int| 0 <= i < j < r.len() implies sort::text_less(
            #[trigger] r[i],
            #[trigger] r[j],
        ) by {
            if j == s.len() && i < s.len() - 1 {
                assert(sort::text_less(s[i], s[s.len() - 1]));
                law_text_order_is_transitive(s[i], s.last(), x);
            }
        }
        assert forall|y: Seq<char>| #[trigger] r.contains(y) <==> y == x || s.contains(y) by {
            if y == x {
                assert(r[s.len() as int] == y);
            }
            if s.contains(y) {
                let k = choose|k: int| 0 <= k < s.len() && s[k] == y;
                assert(r[k] == y);
            }
            if r.contains(y) {
                let k = choose|k: int| 0 <= k < r.len() && r[k] == y;
                if k < s.len() {
                    assert(s[k] == y);
                }
            }
        }
    }
}

// --- which order it is ---------------------------------------------------------------

/// The order of texts goes by the first character in which they differ, whatever their
/// lengths; a text stands before every longer one that it starts.
pub proof fn law_the_first_difference_decides(a: Seq<char>, b: Seq<char>, k: int)
    requires
        0 <= k <= a.len(),
        k <= b.len(),
        forall|i: int| 0 <= i < k ==> #[trigger] a[i] == b[i],
    ensures
        k < a.len() && k < b.len() && (a[k] as u32) < (b[k] as u32) ==> sort::text_less(a, b)
            && !sort::text_less(b, a),
        k == a.len() && k < b.len() ==> sort::text_less(a, b) && !sort::text_less(b, a),
        k == a.len() && k == b.len() ==> !sort::text_less(a, b),
    decreases k,
{
    if k > 0 {
        let (x, y) = (a.skip(1), b.skip(1));
        assert(a[0] == b[0]);
        assert forall|i: int| 0 <= i < k - 1 implies #[trigger] x[i] == y[i] by {
            assert(a[i + 1] == b[i + 1]);
        }
        law_the_first_difference_decides(x, y, k - 1);
    }
}

/// A directory's files stand together: between two paths that start alike stand only
/// paths that start so too.
pub proof fn law_files_of_a_directory_stand_together(
    dir: Seq<char>,
    a: Seq<char>,
    b: Seq<char>,
    other: Seq<char>,
)
    requires
        sort::text_less(dir + a, other),
        sort::text_less(other, dir + b),
    ensures
        other.len() >= dir.len(),
        forall|i: int| 0 <= i < dir.len() ==> #[trigger] other[i] == dir[i],
    decreases dir.len(),
{
    if dir.len() > 0 {
        let rest = dir.skip(1);
        let (x, y) = (dir + a, dir + b);
        assert(x[0] == dir[0] && y[0] == dir[0]);
        assert(other.len() > 0);
        assert(other[0] == dir[0]);
        assert(x.skip(1) =~= rest + a);
        assert(y.skip(1) =~= rest + b);
        law_files_of_a_directory_stand_together(rest, a, b, other.skip(1));
        assert forall|i: int| 0 <= i < dir.len() implies #[trigger] other[i] == dir[i] by {
            if i > 0 {
                assert(other.skip(1)[i - 1] == rest[i - 1]);
            }
        }
    }
}

/// Which of two files stands first: by path, the alphabetically smaller; by time, the one
/// modified earlier; by size, the one with fewer changed lines, added and removed, and of
/// two of the same size the alphabetically smaller. Counts that are not known are none.
pub proof fn law_what_files_are_sorted_by(a: Entry, b: Entry)
    ensures
        sort::stands_before(a, b, SortField::Tree) == sort::text_less(a.path, b.path),
        sort::stands_before(a, b, SortField::Modified) == (a.mtime < b.mtime),
        ({
            let count = |n: Option<u32>| if n is Some {
                n->0 as int
            } else {
                0
            };
            let (x, y) = (count(a.added) + count(a.removed), count(b.added) + count(b.removed));
            &&& x < y ==> sort::stands_before(a, b, SortField::Size)
            &&& x > y ==> !sort::stands_before(a, b, SortField::Size)
            &&& x == y ==> sort::stands_before(a, b, SortField::Size) == sort::text_less(
                a.path,
                b.path,
            )
        }),
{
}

/// In the sorted list, of any two files the one that has to stand first does: earlier in
/// the ascending order, later in the descending one.
pub proof fn law_positions_follow_the_order(
    files: Seq<Entry>,
    field: SortField,
    desc: bool,
    i: int,
    j: int,
)
    requires
        0 <= i < files.len(),
        0 <= j < files.len(),
        sort::stands_before(
            sort::in_order(files, field, desc)[i],
            sort::in_order(files, field, desc)[j],
            field,
        ),
    ensures
        sort::in_order(files, field, desc).len() == files.len(),
        !desc ==> i < j,
        desc ==> j < i,
{
    law_sorting_permutes(files, field, desc);
    law_sorting_orders(files, field);
    let list = sort::in_order(files, field, desc);
    list.to_multiset_ensures();
    files.to_multiset_ensures();
    let up = sort::sorted(files, field);
    lemma_before_asymmetric(list[i], list[j], field);
    assert(up.len() == list.len());
    if desc {
        assert(list[i] == up[up.len() - 1 - i] && list[j] == up[up.len() - 1 - j]);
    }
}

/// The sort fields in turn, with the names they are shown and kept under.
pub proof fn law_sort_fields_in_turn()
    ensures
        sort::next_field(SortField::Tree) == SortField::Modified,
        sort::next_field(SortField::Modified) == SortField::Size,
        sort::next_field(SortField::Size) == SortField::Tree,
        sort::field_name(SortField::Tree) == "tree"@,
        sort::field_name(SortField::Modified) == "modified"@,
        sort::field_name(SortField::Size) == "size"@,
        sort::arrow(true) == "▼"@,
        sort::arrow(false) == "▲"@,
{
}

// --- extensions ----------------------------------------------------------------------

proof fn lemma_last_dot(stem: Seq<char>, ext: Seq<char>, i: int)
    requires
        forall|k: int| 0 <= k < ext.len() ==> #[trigger] ext[k] != '.',
        stem.len() <= i <= stem.len() + ext.len(),
    ensures
        txt::rfind_from(stem.push('.') + ext, seq!['.'], i) == Some(stem.len() as int),
    decreases i,
{
    let s = stem.push('.') + ext;
    assert(s.subrange(stem.len() as int, stem.len() as int + 1) =~= seq!['.']);
    if i > stem.len() {
        assert(s[i] == ext[i - stem.len() - 1]);
        assert(!txt::occurs_at(s, seq!['.'], i)) by {
            if txt::occurs_at(s, seq!['.'], i) {
                assert(s.subrange(i, i + 1)[0] == seq!['.'][0]);
            }
        }
        lemma_last_dot(stem, ext, i - 1);
    }
}

proof fn lemma_no_dot(s: Seq<char>, i: int)
    requires
        i < s.len(),
        forall|k: int| 0 <= k < s.len() ==> #[trigger] s[k] != '.',
    ensures
        txt::rfind_from(s, seq!['.'], i) is None,
    decreases i + 1,
{
    if i >= 0 {
        assert(!txt::occurs_at(s, seq!['.'], i)) by {
            if txt::occurs_at(s, seq!['.'], i) {
                assert(s.subrange(i, i + 1)[0] == seq!['.'][0]);
                assert(s[i] == '.');
            }
        }
        lemma_no_dot(s, i - 1);
    }
}

/// The extension of a file is what stands behind the last dot of its name, in lower case,
/// whatever directory it is in. A dot in front of the name makes no extension, nor does a
/// dot in a directory's name.
pub proof fn law_extensions(dir: Seq<char>, stem: Seq<char>, ext: Seq<char>, plain: Seq<char>)
    requires
        dir.len() == 0 || dir.last() == '/',
        forall|k: int| 0 <= k < stem.len() ==> #[trigger] stem[k] != '/',
        forall|k: int| 0 <= k < ext.len() ==> #[trigger] ext[k] != '/' && ext[k] != '.',
        forall|k: int| 0 <= k < plain.len() ==> #[trigger] plain[k] != '/' && plain[k] != '.',
    ensures
        stem.len() > 0 && (stem != "."@ || ext.len() > 0) ==> sort::extension(
            dir + (stem.push('.') + ext),
        ) == Some(txt::lowered(ext)),
        plain.len() > 0 ==> sort::extension(dir + plain) is None,
        ext.len() > 0 ==> sort::extension(dir + (seq!['.'] + ext)) is None,
{
    reveal_strlit(".");
    reveal_strlit("..");
    let dot = seq!['.'];
    assert("."@ =~= dot);
    let name = stem.push('.') + ext;
    let hidden = dot + ext;
    assert forall|k: int| 0 <= k < name.len() implies #[trigger] name[k] != '/' by {
        if k < stem.len() {
            assert(name[k] == stem[k]);
        } else if k > stem.len() {
            assert(name[k] == ext[k - stem.len() - 1]);
        }
    }
    assert forall|k: int| 0 <= k < hidden.len() implies #[trigger] hidden[k] != '/' by {
        if k > 0 {
            assert(hidden[k] == ext[k - 1]);
        }
    }
    if stem.len() > 0 && (stem != "."@ || ext.len() > 0) {
        assert(name[stem.len() as int] == '.');
        assert(name != dot) by {
            if name == dot {
                assert(name.len() == 1);
            }
        }
        assert(name != ".."@) by {
            if name == ".."@ {
                assert(name.len() == 2);
                if ext.len() == 1 {
                    assert(name[1] == '.');
                    assert(name[1] == ext[0] || stem.len() == 1);
                    assert(stem.len() + 1 + ext.len() == 2);
                }
                assert(ext.len() == 0 && stem.len() == 1);
                assert(stem[0] == name[0]);
                assert(stem =~= dot);
            }
        }
        lemma_name_of_path(dir, name);
        lemma_last_dot(stem, ext, name.len() - 1);
        assert(name.skip(stem.len() as int + 1) =~= ext);
    }
    if plain.len() > 0 {
        assert(plain != dot && plain != ".."@) by {
            assert(plain[0] != '.');
        }
        lemma_name_of_path(dir, plain);
        lemma_no_dot(plain, plain.len() - 1);
    }
    if ext.len() > 0 {
        assert(hidden != dot);
        assert(hidden != ".."@) by {
            assert(hidden[1] == ext[0]);
        }
        lemma_name_of_path(dir, hidden);
        lemma_last_dot(Seq::empty(), ext, hidden.len() - 1);
        assert(Seq::<char>::empty().push('.') + ext =~= hidden);
    }
}

/// The last part of a path is the name behind its last slash.
proof fn lemma_name_of_path(dir: Seq<char>, name: Seq<char>)
    requires
        dir.len() == 0 || dir.last() == '/',
        forall|k: int| 0 <= k < name.len() ==> #[trigger] name[k] != '/',
        name.len() > 0,
        name != "."@,
    ensures
        ({
            let parts = txt::split(dir + name, '/');
            sort::last_part(parts, parts.len() as int) == Some(name)
        }),
{
    txt::lemma_split_one(name, '/');
    if dir.len() == 0 {
        assert(dir + name =~= name);
    } else {
        let up = dir.drop_last();
        assert(up.push('/') =~= dir);
        txt::lemma_split_join(up, name, '/');
        let parts = txt::split(dir + name, '/');
        assert(parts.last() == name);
    }
}

} // verus!
