//! What holds of the file list: its filters, its order, and what it draws attention to.

use vstd::prelude::*;
use crate::config;
use crate::git::{ChangeKind, Entry};
use crate::listing;
use crate::search;
use crate::sort;
use crate::state;
use crate::state::{Found, State};

verus! {

/// Whether file `i` passes every filter.
pub open spec fn shown(s: State, i: int) -> bool {
    &&& 0 <= i < s.list.files.len()
    &&& s.passes_but_type(i)
    &&& s.passes_type(i as usize)
}

/// Whether a list of positions is in order, without repeats.
pub open spec fn ascending(list: Seq<usize>) -> bool {
    forall|a: int, b: int| 0 <= a < b < list.len() ==> #[trigger] list[a] < #[trigger] list[b]
}

pub proof fn lemma_passing(s: State, n: int)
    requires
        0 <= n <= s.list.files.len(),
        s.list.files.len() <= usize::MAX,
    ensures
        ascending(s.passing_upto(n)),
        forall|k: int|
            0 <= k < s.passing_upto(n).len() ==> (#[trigger] s.passing_upto(n)[k]) < n
                && s.passes_but_type(s.passing_upto(n)[k] as int),
        forall|i: int|
            0 <= i < n && #[trigger] s.passes_but_type(i) ==> s.passing_upto(n).contains(i as usize),
    decreases n,
{
    if n > 0 {
        lemma_passing(s, n - 1);
        let before = s.passing_upto(n - 1);
        let now = s.passing_upto(n);
        assert forall|i: int| 0 <= i < n && #[trigger] s.passes_but_type(i) implies now.contains(
            i as usize,
        ) by {
            if i < n - 1 {
                assert(before.contains(i as usize));
                let k = choose|k: int| 0 <= k < before.len() && before[k] == i as usize;
                assert(now[k] == i as usize);
            } else {
                assert(now[now.len() - 1] == i as usize);
            }
        }
    }
}

pub proof fn lemma_typed(s: State, picked: Seq<usize>, n: int)
    requires
        0 <= n <= picked.len(),
        ascending(picked),
    ensures
        ascending(s.typed_upto(picked, n)),
        forall|k: int|
            0 <= k < s.typed_upto(picked, n).len() ==> s.passes_type(
                #[trigger] s.typed_upto(picked, n)[k],
            ) && picked.contains(s.typed_upto(picked, n)[k]) && (n < picked.len()
                ==> s.typed_upto(picked, n)[k] < picked[n]),
        forall|k: int|
            0 <= k < n && s.passes_type(#[trigger] picked[k]) ==> s.typed_upto(picked, n).contains(
                picked[k],
            ),
    decreases n,
{
    if n > 0 {
        lemma_typed(s, picked, n - 1);
        let before = s.typed_upto(picked, n - 1);
        let now = s.typed_upto(picked, n);
        if n < picked.len() {
            assert(picked[n - 1] < picked[n]);
        }
        assert forall|k: int| 0 <= k < now.len() implies s.passes_type(#[trigger] now[k])
            && picked.contains(now[k]) && (n < picked.len() ==> now[k] < picked[n]) by {
            if k < before.len() {
                assert(now[k] == before[k]);
            } else {
                assert(now[k] == picked[n - 1]);
            }
        }
        assert forall|k: int| 0 <= k < n && s.passes_type(#[trigger] picked[k]) implies now.contains(
            picked[k],
        ) by {
            if k < n - 1 {
                assert(before.contains(picked[k]));
                let j = choose|j: int| 0 <= j < before.len() && before[j] == picked[k];
                assert(now[j] == picked[k]);
            } else {
                assert(now[now.len() - 1] == picked[k]);
            }
        }
    }
}

/// The filters compose: the list shows exactly the files that pass every one of
/// them, each once, in the order of the files.
pub proof fn law_filters_compose(s: State)
    requires
        s.list.files.len() <= usize::MAX,
    ensures
        ({
            let filtered = s.rebuild_filter().list.filtered;
            &&& ascending(filtered)
            &&& forall|i: int| #[trigger] shown(s, i) ==> filtered.contains(i as usize)
            &&& forall|k: int| 0 <= k < filtered.len() ==> shown(s, #[trigger] filtered[k] as int)
        }),
{
    reveal(State::rebuild_filter);
    let n = s.list.files.len() as int;
    let picked = s.passing();
    lemma_passing(s, n);
    lemma_typed(s, picked, picked.len() as int);
    let filtered = s.rebuild_filter().list.filtered;
    assert(filtered == s.typed_upto(picked, picked.len() as int));
    assert forall|i: int| #[trigger] shown(s, i) implies filtered.contains(i as usize) by {
        assert(picked.contains(i as usize));
        let k = choose|k: int| 0 <= k < picked.len() && picked[k] == i as usize;
        assert(s.passes_type(picked[k]));
    }
    assert forall|k: int| 0 <= k < filtered.len() implies shown(s, #[trigger] filtered[k] as int) by {
        assert(picked.contains(filtered[k]));
        let j = choose|j: int| 0 <= j < picked.len() && picked[j] == filtered[k];
        assert(s.passes_but_type(picked[j] as int));
    }
}

/// Without a search and without filters, every file is shown.
pub proof fn law_no_filter_shows_everything(s: State, i: int)
    requires
        s.list.files.len() <= usize::MAX,
        s.find.search.len() == 0,
        s.find.kind_filter == state::no_kinds(),
        s.find.file_type_filter == Set::<Seq<char>>::empty(),
        0 <= i < s.list.files.len(),
    ensures
        shown(s, i),
{
    reveal(State::passes_but_type);
    reveal(State::passes_type);
    let query = search::filename_query(s.find.search);
    lemma_empty_query(s.find.search);
    crate::filter::law_blank_query_passes_everything(query, s.list.files[i].path);
}

/// An empty search box neither searches nor filters.
proof fn lemma_empty_query(q: Seq<char>)
    requires
        q.len() == 0,
    ensures
        search::content_needle(q) is None,
        search::filename_query(q).len() == 0,
{
    reveal_strlit("file:");
}

/// With a content search, only files with matches stay.
pub proof fn law_search_drops_files_without_matches(s: State, i: int, needle: Seq<char>)
    requires
        search::content_needle(s.find.search) == Some(needle),
        shown(s, i),
    ensures
        s.content_matches(i, needle) > 0,
{
    reveal(State::passes_but_type);
}

/// With change kinds chosen, only files of those kinds stay.
pub proof fn law_kind_filter_keeps_those_kinds(s: State, i: int)
    requires
        s.find.kind_filter != state::no_kinds(),
        shown(s, i),
    ensures
        state::has_kind(s.find.kind_filter, s.list.files[i].kind),
{
    reveal(State::passes_but_type);
}

/// With file types chosen, only files of those types stay.
pub proof fn law_type_filter_keeps_those_types(s: State, i: int)
    requires
        s.list.files.len() <= usize::MAX,
        s.find.file_type_filter != Set::<Seq<char>>::empty(),
        shown(s, i),
    ensures
        sort::extension(s.list.files[i].path) matches Some(e)
            && s.find.file_type_filter.contains(e),
{
    reveal(State::passes_type);
}

/// What the choice of file types does not change.
pub open spec fn same_but_types(a: State, b: State) -> bool {
    &&& a.list.files == b.list.files
    &&& a.find.search == b.find.search
    &&& a.find.search_scope == b.find.search_scope
    &&& a.find.kind_filter == b.find.kind_filter
    &&& a.source.cache == b.source.cache
}

proof fn lemma_same_passing(a: State, b: State, n: int)
    requires
        same_but_types(a, b),
    ensures
        a.passing_upto(n) == b.passing_upto(n),
    decreases n,
{
    if n > 0 {
        lemma_same_passing(a, b, n - 1);
        reveal(State::passes_but_type);
        assert(a.passes_but_type(n - 1) == b.passes_but_type(n - 1));
    }
}

proof fn lemma_same_types(a: State, b: State, picked: Seq<usize>, n: int)
    requires
        a.list.files == b.list.files,
    ensures
        a.types_upto(picked, n) == b.types_upto(picked, n),
    decreases n,
{
    if n > 0 {
        lemma_same_types(a, b, picked, n - 1);
    }
}

proof fn lemma_same_typed(a: State, b: State, picked: Seq<usize>, n: int)
    requires
        a.list.files == b.list.files,
        a.find.file_type_filter == b.find.file_type_filter,
    ensures
        a.typed_upto(picked, n) == b.typed_upto(picked, n),
    decreases n,
{
    if n > 0 {
        lemma_same_typed(a, b, picked, n - 1);
        reveal(State::passes_type);
        assert(a.passes_type(picked[n - 1]) == b.passes_type(picked[n - 1]));
    }
}

/// The file types offered do not depend on those chosen.
proof fn lemma_types_offered(a: State, b: State)
    requires
        same_but_types(a, b),
    ensures
        a.rebuild_filter().list.file_types == b.rebuild_filter().list.file_types,
{
    reveal(State::rebuild_filter);
    lemma_same_passing(a, b, a.list.files.len() as int);
    lemma_same_types(a, b, a.passing(), a.passing().len() as int);
}

proof fn lemma_types(s: State, picked: Seq<usize>, n: int)
    requires
        0 <= n <= picked.len(),
    ensures
        crate::sort_laws::ascending(s.types_upto(picked, n)),
        forall|e: Seq<char>|
            #[trigger] s.types_upto(picked, n).contains(e) <==> exists|k: int|
                0 <= k < n && s.extension_at(#[trigger] picked[k]) == Some(e),
    decreases n,
{
    if n > 0 {
        lemma_types(s, picked, n - 1);
        let before = s.types_upto(picked, n - 1);
        let now = s.types_upto(picked, n);
        if let Some(x) = s.extension_at(picked[n - 1]) {
            crate::sort_laws::law_file_types_are_ascending_and_distinct(before, x);
        }
        assert forall|e: Seq<char>| #[trigger] now.contains(e) <==> exists|k: int|
            0 <= k < n && s.extension_at(#[trigger] picked[k]) == Some(e) by {
            if now.contains(e) {
                if s.extension_at(picked[n - 1]) != Some(e) {
                    assert(before.contains(e));
                }
            }
            if exists|k: int| 0 <= k < n && s.extension_at(#[trigger] picked[k]) == Some(e) {
                let k = choose|k: int| 0 <= k < n && s.extension_at(#[trigger] picked[k]) == Some(e);
                if k < n - 1 {
                    assert(before.contains(e));
                }
            }
        }
    }
}

/// The file types offered as chips are ascending (so none is there twice) and are
/// exactly the extensions of the files that pass the filename, kind and content
/// filters; which types are chosen makes no difference.
pub proof fn law_the_types_offered(a: State, b: State, e: Seq<char>)
    requires
        same_but_types(a, b),
        a.list.files.len() <= usize::MAX,
    ensures
        a.rebuild_filter().list.file_types == b.rebuild_filter().list.file_types,
        crate::sort_laws::ascending(a.rebuild_filter().list.file_types),
        a.rebuild_filter().list.file_types.contains(e) <==> exists|i: int|
            0 <= i < a.list.files.len() && #[trigger] a.passes_but_type(i) && sort::extension(
                a.list.files[i].path,
            ) == Some(e),
{
    reveal(State::rebuild_filter);
    lemma_types_offered(a, b);
    let picked = a.passing();
    let types = a.types_upto(picked, picked.len() as int);
    lemma_passing(a, a.list.files.len() as int);
    lemma_types(a, picked, picked.len() as int);
    if types.contains(e) {
        let k = choose|k: int|
            0 <= k < picked.len() && a.extension_at(#[trigger] picked[k]) == Some(e);
        assert(a.passes_but_type(picked[k] as int));
    }
    if exists|i: int|
        0 <= i < a.list.files.len() && #[trigger] a.passes_but_type(i) && sort::extension(
            a.list.files[i].path,
        ) == Some(e) {
        let i = choose|i: int|
            0 <= i < a.list.files.len() && #[trigger] a.passes_but_type(i) && sort::extension(
                a.list.files[i].path,
            ) == Some(e);
        assert(picked.contains(i as usize));
        let k = choose|k: int| 0 <= k < picked.len() && picked[k] == i as usize;
        assert(a.extension_at(picked[k]) == Some(e));
    }
}

/// Selecting or deselecting a file type never removes a chip, its own included: it
/// can always be turned back on.
pub proof fn law_type_chips_stay(s: State, ext: Seq<char>)
    ensures
        s.toggle_file_type(ext).list.file_types == s.rebuild_filter().list.file_types,
{
    reveal(State::toggle_file_type);
    reveal(State::apply_filter);
    let t = State {
        find: state::FindState {
            file_type_filter: if s.find.file_type_filter.contains(ext) {
                s.find.file_type_filter.remove(ext)
            } else {
                s.find.file_type_filter.insert(ext)
            },
            ..s.find
        },
        history: None,
        ..s
    };
    lemma_types_offered(t, s);
}

/// Filtering anew changes nothing but the list, and depends on nothing but the files,
/// the filters and the searchable texts.
proof fn lemma_same_filtered(a: State, b: State)
    requires
        same_but_types(a, b),
        a.find.file_type_filter == b.find.file_type_filter,
    ensures
        a.rebuild_filter().list.filtered == b.rebuild_filter().list.filtered,
{
    reveal(State::rebuild_filter);
    lemma_same_passing(a, b, a.list.files.len() as int);
    lemma_same_typed(a, b, a.passing(), a.passing().len() as int);
}

/// The list is filtered alike where the files, the filters and the searchable texts are
/// the same.
pub proof fn lemma_same_lists(a: State, b: State)
    requires
        same_but_types(a, b),
        a.find.file_type_filter == b.find.file_type_filter,
        a.list == b.list,
    ensures
        a.rebuild_filter().list == b.rebuild_filter().list,
{
    lemma_same_filtered(a, b);
    lemma_types_offered(a, b);
    reveal(State::rebuild_filter);
}

/// Toggling a file type twice leaves the filter and the list as they were.
pub proof fn law_toggling_a_type_twice(s: State, ext: Seq<char>)
    ensures
        s.toggle_file_type(ext).toggle_file_type(ext).find.file_type_filter
            == s.find.file_type_filter,
        s.toggle_file_type(ext).toggle_file_type(ext).list.filtered
            == s.rebuild_filter().list.filtered,
{
    let once = s.toggle_file_type(ext);
    let twice = once.toggle_file_type(ext);
    lemma_toggled_type(s, ext);
    lemma_toggled_type(once, ext);
    assert(twice.find.file_type_filter =~= s.find.file_type_filter);
    lemma_same_filtered(twice, s);
}

/// What toggling a file type changes.
proof fn lemma_toggled_type(s: State, ext: Seq<char>)
    ensures
        ({
            let t = s.toggle_file_type(ext);
            &&& same_but_types(t, s)
            &&& t.find.file_type_filter == (if s.find.file_type_filter.contains(ext) {
                s.find.file_type_filter.remove(ext)
            } else {
                s.find.file_type_filter.insert(ext)
            })
            &&& t.list.filtered == t.rebuild_filter().list.filtered
        }),
{
    reveal(State::toggle_file_type);
    reveal(State::apply_filter);
    let u = State {
        find: state::FindState {
            file_type_filter: if s.find.file_type_filter.contains(ext) {
                s.find.file_type_filter.remove(ext)
            } else {
                s.find.file_type_filter.insert(ext)
            },
            ..s.find
        },
        history: None,
        ..s
    };
    let t = s.toggle_file_type(ext);
    assert(same_but_types(t, u)) by {
        reveal(State::rebuild_filter);
    }
    assert(t.find.file_type_filter == u.find.file_type_filter) by {
        reveal(State::rebuild_filter);
    }
    lemma_same_filtered(t, u);
}

/// What toggling a kind changes.
proof fn lemma_toggled_kind(s: State, kind: ChangeKind)
    ensures
        ({
            let t = s.toggle_kind(kind);
            &&& t.find.kind_filter == state::toggled_kind(s.find.kind_filter, kind)
            &&& t.find.file_type_filter == s.find.file_type_filter
            &&& t.find.search == s.find.search
            &&& t.find.search_scope == s.find.search_scope
            &&& t.list.files == s.list.files
            &&& t.source.cache == s.source.cache
            &&& t.list.filtered == t.rebuild_filter().list.filtered
        }),
{
    reveal(State::toggle_kind);
    reveal(State::apply_filter);
    let u = State {
        find: state::FindState {
            kind_filter: state::toggled_kind(s.find.kind_filter, kind),
            ..s.find
        },
        history: None,
        ..s
    };
    let t = s.toggle_kind(kind);
    assert(same_but_types(t, u) && t.find.file_type_filter == u.find.file_type_filter) by {
        reveal(State::rebuild_filter);
    }
    lemma_same_filtered(t, u);
}

/// Toggling a change kind twice leaves the filter and the list as they were.
pub proof fn law_toggling_a_kind_twice(s: State, kind: ChangeKind)
    ensures
        s.toggle_kind(kind).toggle_kind(kind).find.kind_filter == s.find.kind_filter,
        s.toggle_kind(kind).toggle_kind(kind).list.filtered == s.rebuild_filter().list.filtered,
{
    let once = s.toggle_kind(kind);
    let twice = once.toggle_kind(kind);
    lemma_toggled_kind(s, kind);
    lemma_toggled_kind(once, kind);
    lemma_same_filtered(twice, s);
}

/// Every way of reshaping the list returns to the live view by itself: a history
/// belongs to the file it was opened on.
pub proof fn law_reshaping_leaves_the_history(s: State, kind: ChangeKind, ext: Seq<char>, i: int)
    ensures
        s.cycle_sort_field().history is None,
        s.toggle_sort_dir().history is None,
        s.toggle_kind(kind).history is None,
        s.toggle_file_type(ext).history is None,
        s.select(i).history is None,
{
    reveal(State::cycle_sort_field);
    reveal(State::toggle_sort_dir);
    reveal(State::toggle_kind);
    reveal(State::toggle_file_type);
    reveal(State::apply_filter);
    reveal(State::rebuild_filter);
}

/// Editing a filter focuses the top of the new diff, and a content search jumps to
/// its first match once the diff is built.
pub proof fn law_filtering_starts_at_the_top(s: State)
    ensures
        ({
            let t = s.apply_filter();
            &&& t.list.selected == 0 && t.pane.diff_scroll == 0 && t.find.current_match == 0
            &&& t.pane.needs_rebuild
            &&& t.find.pending_match_jump == s.is_content_search()
        }),
{
    reveal(State::apply_filter);
    reveal(State::rebuild_filter);
}

/// Reversing the sort direction twice gives the order back.
pub proof fn law_reversing_twice(s: State)
    ensures
        s.toggle_sort_dir().toggle_sort_dir().list.sort_desc == s.list.sort_desc,
        s.toggle_sort_dir().toggle_sort_dir().list.sort_field == s.list.sort_field,
{
    reveal(State::toggle_sort_dir);
    reveal(State::rebuild_filter);
}

/// Sorting is by the chosen field and direction, and loses no file.
pub proof fn law_the_list_is_sorted(s: State, files: Seq<Entry>)
    ensures
        s.load(files).list.files == sort::in_order(files, s.list.sort_field, s.list.sort_desc),
        s.load(files).list.files.to_multiset() == files.to_multiset(),
        s.load(files).list.filtered == s.load(files).rebuild_filter().list.filtered,
{
    reveal(State::rebuild_filter);
    crate::sort_laws::law_sorting_permutes(files, s.list.sort_field, s.list.sort_desc);
    let u = State { list: state::ListState { files, ..s.list }, ..s }.sort_files();
    lemma_same_filtered(s.load(files), u);
}

// --- what changed on disk --------------------------------------------------------

/// Whether no two files have the same path.
pub open spec fn distinct(files: Seq<Entry>) -> bool {
    forall|a: int, b: int|
        0 <= a < b < files.len() ==> (#[trigger] files[a]).path != (#[trigger] files[b]).path
}

/// Whether every file's modification time is one that fits its field.
pub open spec fn times_fit(files: Seq<Entry>) -> bool {
    forall|a: int|
        0 <= a < files.len() ==> i128::MIN <= (#[trigger] files[a]).mtime <= i128::MAX
}

pub proof fn lemma_seen(files: Seq<Entry>, n: int, k: int)
    requires
        distinct(files),
        times_fit(files),
        0 <= k < n <= files.len(),
    ensures
        listing::mtimes_upto(files, n).contains_key(files[k].path),
        listing::mtimes_upto(files, n)[files[k].path] == files[k].mtime,
    decreases n,
{
    if k < n - 1 {
        lemma_seen(files, n - 1, k);
        assert(files[k].path != files[n - 1].path);
    }
}

proof fn lemma_untouched(files: Seq<Entry>, seen: Map<Seq<char>, i128>, n: int)
    requires
        0 <= n <= files.len(),
        forall|k: int| 0 <= k < n ==> !listing::is_touched(#[trigger] files[k], seen),
    ensures
        listing::touched_upto(files, seen, n).len() == 0,
    decreases n,
{
    if n > 0 {
        lemma_untouched(files, seen, n - 1);
        assert(!listing::is_touched(files[n - 1], seen));
    }
}

/// Files that are as they were last seen are not reported as changed.
pub proof fn law_unchanged_files_are_not_reported(files: Seq<Entry>)
    requires
        distinct(files),
        times_fit(files),
    ensures
        listing::touched(files, listing::mtimes_of(files)).len() == 0,
{
    let seen = listing::mtimes_of(files);
    assert forall|k: int| 0 <= k < files.len() implies !listing::is_touched(
        #[trigger] files[k],
        seen,
    ) by {
        lemma_seen(files, files.len() as int, k);
    }
    lemma_untouched(files, seen, files.len() as int);
}

proof fn lemma_touched_member(files: Seq<Entry>, seen: Map<Seq<char>, i128>, n: int, k: int)
    requires
        0 <= k < n <= files.len(),
        listing::is_touched(files[k], seen),
    ensures
        listing::touched_upto(files, seen, n).contains(files[k].path),
    decreases n,
{
    let now = listing::touched_upto(files, seen, n);
    if k == n - 1 {
        assert(now[now.len() - 1] == files[k].path);
    } else {
        lemma_touched_member(files, seen, n - 1, k);
        let before = listing::touched_upto(files, seen, n - 1);
        let j = choose|j: int| 0 <= j < before.len() && before[j] == files[k].path;
        assert(now[j] == files[k].path);
    }
}

/// A file that is new, or newer than it was last seen, is marked as changed until it
/// is viewed; and only files in the changeset carry a mark.
pub proof fn law_changes_are_marked_until_viewed(s: State, k: int, path: Seq<char>)
    requires
        0 <= k < s.list.files.len(),
        listing::is_touched(s.list.files[k], s.cues.last_mtimes),
    ensures
        s.note_changes().cues.recently_changed.contains(s.list.files[k].path),
        s.note_changes().cues.recently_changed.contains(path) ==> listing::paths(
            s.list.files,
        ).contains(path),
        !s.mark_viewed(path).cues.recently_changed.contains(path),
{
    let files = s.list.files;
    let changed = listing::touched(files, s.cues.last_mtimes);
    lemma_touched_member(files, s.cues.last_mtimes, files.len() as int, k);
    assert(changed.to_set().contains(files[k].path));
    assert(listing::paths(files)[k] == files[k].path);
    assert(listing::paths(files).contains(files[k].path));
}

/// What is there when the program starts is not marked as changed.
pub proof fn law_nothing_is_marked_at_the_start(c: config::Settings, found: Found)
    ensures
        listing::started(c, found).cues.recently_changed == Set::<Seq<char>>::empty(),
        listing::started(c, found).history is None,
        !listing::started(c, found).control.should_quit,
{
    reveal(State::rebuild_filter);
}

pub proof fn lemma_newest(files: Seq<Entry>, among: Seq<Seq<char>>, n: int)
    requires
        0 <= n <= files.len(),
    ensures
        match listing::newest_upto(files, among, n) {
            Some(i) => {
                &&& 0 <= i < n
                &&& among.contains(files[i].path)
                &&& forall|k: int|
                    0 <= k < n && among.contains((#[trigger] files[k]).path) ==> files[k].mtime
                        <= files[i].mtime
            },
            None => forall|k: int| 0 <= k < n ==> !among.contains((#[trigger] files[k]).path),
        },
    decreases n,
{
    if n > 0 {
        lemma_newest(files, among, n - 1);
    }
}

/// Follow-latest aims at the most recently modified of the files that changed.
pub proof fn law_follow_aims_at_the_newest_change(s: State, k: int)
    requires
        s.control.follow,
        0 <= k < s.list.files.len(),
        listing::is_touched(s.list.files[k], s.cues.last_mtimes),
    ensures
        ({
            let files = s.list.files;
            let changed = listing::touched(files, s.cues.last_mtimes);
            exists|i: int|
                0 <= i < files.len() && changed.contains((#[trigger] files[i]).path)
                    && files[i].mtime >= files[k].mtime && s.note_changes().pane.restore_anchor
                    == Some((files[i].path, 0int))
        }),
{
    let files = s.list.files;
    let changed = listing::touched(files, s.cues.last_mtimes);
    lemma_touched_member(files, s.cues.last_mtimes, files.len() as int, k);
    lemma_newest(files, changed, files.len() as int);
}

/// Outside follow-latest, changes on disk leave the viewport anchored where it was.
pub proof fn law_changes_keep_the_viewport(s: State)
    requires
        !s.control.follow,
    ensures
        s.note_changes().pane == s.pane,
{
}

/// A refresh that fails keeps the files that were there.
pub proof fn law_a_failed_refresh_keeps_the_files(s: State, found: Found)
    requires
        found.files is Err,
    ensures
        s.refresh(found).list == s.list,
        s.refresh(found).note.status == "git error: "@ + found.files->Err_0,
{
}

/// Base-branch mode without a base branch falls back to the working changes.
pub proof fn law_base_branch_mode_falls_back(s: State, found: Found)
    ensures
        found.branch is None ==> s.refresh(found).source.diff_mode == config::DiffMode::Working,
        found.branch is Some ==> s.refresh(found).source.diff_mode == s.source.diff_mode,
{
    reveal(State::rebuild_filter);
}

} // verus!
