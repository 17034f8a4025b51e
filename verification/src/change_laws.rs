//! What the file list shows, and what changes on disk do to it, stated on the files
//! themselves.

use vstd::prelude::*;
use crate::config;
use crate::config::DiffMode;
use crate::delta::Cached;
use crate::filter;
use crate::git::{ChangeKind, Entry, EMPTY_TREE};
use crate::list_laws;
use crate::listing;
use crate::search;
use crate::sort;
use crate::state;
use crate::state::{Found, KindSet, State};

verus! {

// --- changes on disk -----------------------------------------------------------------

/// Whether the list has a file at `path` that was not there when last seen, or that was
/// modified since.
pub open spec fn changed_since(
    files: Seq<Entry>,
    seen: Map<Seq<char>, i128>,
    path: Seq<char>,
) -> bool {
    exists|k: int|
        0 <= k < files.len() && (#[trigger] files[k]).path == path && (!seen.dom().contains(path)
            || seen[path] < files[k].mtime)
}

proof fn lemma_touched(files: Seq<Entry>, seen: Map<Seq<char>, i128>, n: int, path: Seq<char>)
    requires
        0 <= n <= files.len(),
    ensures
        listing::touched_upto(files, seen, n).contains(path) <==> changed_since(
            files.take(n),
            seen,
            path,
        ),
    decreases n,
{
    let (was, now) = (files.take(n - 1), files.take(n));
    if n > 0 {
        lemma_touched(files, seen, n - 1, path);
        let before = listing::touched_upto(files, seen, n - 1);
        let list = listing::touched_upto(files, seen, n);
        let f = files[n - 1];
        assert(now[n - 1] == f);
        if changed_since(was, seen, path) {
            let k = choose|k: int|
                0 <= k < was.len() && (#[trigger] was[k]).path == path && (!seen.dom().contains(
                    path,
                ) || seen[path] < was[k].mtime);
            assert(now[k] == was[k]);
            assert(changed_since(now, seen, path));
            let i = choose|i: int| 0 <= i < before.len() && before[i] == path;
            assert(list[i] == path);
        }
        if changed_since(now, seen, path) {
            let k = choose|k: int|
                0 <= k < now.len() && (#[trigger] now[k]).path == path && (!seen.dom().contains(
                    path,
                ) || seen[path] < now[k].mtime);
            if k < n - 1 {
                assert(was[k] == now[k]);
            } else {
                assert(list.last() == path);
            }
        }
        if list.contains(path) {
            let i = choose|i: int| 0 <= i < list.len() && list[i] == path;
            if i < before.len() {
                assert(before[i] == path);
            } else {
                assert(now[n - 1].path == path);
            }
        }
    } else {
        assert(now.len() == 0);
    }
}

proof fn lemma_all_touched(s: State, path: Seq<char>)
    ensures
        listing::touched(s.list.files, s.cues.last_mtimes).contains(path) <==> changed_since(
            s.list.files,
            s.cues.last_mtimes,
            path,
        ),
{
    let files = s.list.files;
    lemma_touched(files, s.cues.last_mtimes, files.len() as int, path);
    assert(files.take(files.len() as int) =~= files);
}

/// A file that appeared, or that was modified since it was last seen, is marked; so is
/// one that was marked before and is still there; nothing else is.
pub proof fn law_new_and_newer_files_are_marked(s: State, path: Seq<char>)
    ensures
        s.note_changes().cues.recently_changed.contains(path) <==> {
            &&& exists|k: int| 0 <= k < s.list.files.len() && (#[trigger] s.list.files[k]).path
                == path
            &&& s.cues.recently_changed.contains(path) || changed_since(
                s.list.files,
                s.cues.last_mtimes,
                path,
            )
        },
{
    let files = s.list.files;
    let changed = listing::touched(files, s.cues.last_mtimes);
    lemma_all_touched(s, path);
    let all = listing::paths(files);
    if all.contains(path) {
        let k = choose|k: int| 0 <= k < all.len() && all[k] == path;
        assert(files[k].path == path);
    }
    if exists|k: int| 0 <= k < files.len() && (#[trigger] files[k]).path == path {
        let k = choose|k: int| 0 <= k < files.len() && (#[trigger] files[k]).path == path;
        assert(all[k] == path);
    }
    assert(changed.to_set().contains(path) == changed.contains(path));
}

/// The same, file by file: a file that is new, or newer than it was, is marked.
pub proof fn law_each_changed_file_is_marked(s: State, k: int)
    requires
        0 <= k < s.list.files.len(),
        !s.cues.last_mtimes.dom().contains(s.list.files[k].path)
            || s.cues.last_mtimes[s.list.files[k].path] < s.list.files[k].mtime,
    ensures
        s.note_changes().cues.recently_changed.contains(s.list.files[k].path),
{
    law_new_and_newer_files_are_marked(s, s.list.files[k].path);
    assert(changed_since(s.list.files, s.cues.last_mtimes, s.list.files[k].path));
}

proof fn lemma_seen_paths(files: Seq<Entry>, n: int, path: Seq<char>)
    requires
        0 <= n <= files.len(),
    ensures
        listing::mtimes_upto(files, n).contains_key(path) <==> exists|k: int|
            0 <= k < n && (#[trigger] files[k]).path == path,
    decreases n,
{
    if n > 0 {
        lemma_seen_paths(files, n - 1, path);
        if files[n - 1].path != path {
            if exists|k: int| 0 <= k < n && (#[trigger] files[k]).path == path {
                let k = choose|k: int| 0 <= k < n && (#[trigger] files[k]).path == path;
                assert(0 <= k < n - 1 && files[k].path == path);
            }
        }
    }
}

/// What was seen of the files is remembered: each file's own modification time, and
/// nothing of files that are gone. The same holds at the start.
pub proof fn law_what_was_seen_is_remembered(
    s: State,
    c: config::Settings,
    found: Found,
    path: Seq<char>,
    k: int,
)
    requires
        list_laws::distinct(s.list.files),
        list_laws::times_fit(s.list.files),
        0 <= k < s.list.files.len(),
    ensures
        s.note_changes().cues.last_mtimes.dom().contains(s.list.files[k].path),
        s.note_changes().cues.last_mtimes[s.list.files[k].path] == s.list.files[k].mtime,
        s.note_changes().cues.last_mtimes.dom().contains(path) <==> exists|k: int|
            0 <= k < s.list.files.len() && (#[trigger] s.list.files[k]).path == path,
        ({
            let t = listing::started(c, found);
            t.cues.last_mtimes.dom().contains(path) <==> exists|k: int|
                0 <= k < t.list.files.len() && (#[trigger] t.list.files[k]).path == path
        }),
{
    let files = s.list.files;
    list_laws::lemma_seen(files, files.len() as int, k);
    lemma_seen_paths(files, files.len() as int, path);
    let t = listing::started(c, found);
    lemma_seen_paths(t.list.files, t.list.files.len() as int, path);
}

proof fn lemma_dropped(
    c: Cached,
    paths: Seq<Seq<char>>,
    n: int,
    path: Seq<char>,
    sig: u64,
    width: u16,
)
    requires
        0 <= n <= paths.len(),
    ensures
        ({
            let d = listing::dropped_upto(c, paths, n);
            let gone = exists|i: int| 0 <= i < n && #[trigger] paths[i] == path;
            &&& d.raw_text(path, sig) == if gone {
                None
            } else {
                c.raw_text(path, sig)
            }
            &&& d.contains(path, sig, width) == (!gone && c.contains(path, sig, width))
        }),
    decreases n,
{
    if n > 0 {
        lemma_dropped(c, paths, n - 1, path, sig, width);
        let gone = exists|i: int| 0 <= i < n && #[trigger] paths[i] == path;
        let was = exists|i: int| 0 <= i < n - 1 && #[trigger] paths[i] == path;
        if paths[n - 1] == path {
            assert(gone);
        } else if gone {
            let i = choose|i: int| 0 <= i < n && #[trigger] paths[i] == path;
            assert(0 <= i < n - 1 && paths[i] == path);
            assert(was);
        }
    }
}

/// A changed file's diff is made anew, rendered and searched; those of the others stay.
pub proof fn law_only_changed_files_are_made_anew(s: State, path: Seq<char>, sig: u64, width: u16)
    ensures
        ({
            let t = s.note_changes().source.cache;
            let changed = changed_since(s.list.files, s.cues.last_mtimes, path);
            &&& changed ==> t.raw_text(path, sig) is None && !t.contains(path, sig, width)
            &&& !changed ==> t.raw_text(path, sig) == s.source.cache.raw_text(path, sig)
                && t.contains(path, sig, width) == s.source.cache.contains(path, sig, width)
        }),
{
    let list = listing::touched(s.list.files, s.cues.last_mtimes);
    lemma_all_touched(s, path);
    lemma_dropped(s.source.cache, list, list.len() as int, path, sig, width);
    if list.contains(path) {
        let i = choose|i: int| 0 <= i < list.len() && list[i] == path;
        assert(list[i] == path);
    }
    if exists|i: int| 0 <= i < list.len() && #[trigger] list[i] == path {
        assert(list.contains(path));
    }
}

/// Following, the view goes to a file that changed and that none of those that changed is
/// newer than, at its start; when nothing changed, or not following, it stays.
pub proof fn law_follow_goes_to_the_latest(s: State)
    ensures
        ({
            let files = s.list.files;
            let seen = s.cues.last_mtimes;
            let t = s.note_changes();
            let some = exists|k: int|
                0 <= k < files.len() && changed_since(files, seen, (#[trigger] files[k]).path);
            &&& s.control.follow && some ==> exists|i: int|
                {
                    &&& 0 <= i < files.len()
                    &&& changed_since(files, seen, (#[trigger] files[i]).path)
                    &&& t.pane.restore_anchor == Some((files[i].path, 0int))
                    &&& forall|k: int|
                        0 <= k < files.len() && changed_since(
                            files,
                            seen,
                            (#[trigger] files[k]).path,
                        ) ==> files[k].mtime <= files[i].mtime
                }
            &&& !s.control.follow || !some ==> t.pane == s.pane
        }),
{
    let files = s.list.files;
    let seen = s.cues.last_mtimes;
    let changed = listing::touched(files, seen);
    list_laws::lemma_newest(files, changed, files.len() as int);
    assert forall|p: Seq<char>| #[trigger] changed.contains(p) <==> changed_since(
        files,
        seen,
        p,
    ) by {
        lemma_all_touched(s, p);
    }
    let newest = listing::newest_upto(files, changed, files.len() as int);
    match newest {
        Some(i) => {
            assert(changed_since(files, seen, files[i].path)) by {
                assert(changed.contains(files[i].path));
            }
            assert forall|k: int|
                0 <= k < files.len() && changed_since(
                    files,
                    seen,
                    (#[trigger] files[k]).path,
                ) implies files[k].mtime <= files[i].mtime by {
                assert(changed.contains(files[k].path));
            }
        },
        None => {
            assert forall|k: int| 0 <= k < files.len() implies !changed_since(
                files,
                seen,
                (#[trigger] files[k]).path,
            ) by {
                assert(!changed.contains(files[k].path));
            }
        },
    }
}

/// Viewing a file takes its mark away, and no other.
pub proof fn law_viewing_takes_one_mark(s: State, path: Seq<char>, other: Seq<char>)
    ensures
        s.mark_viewed(path).cues.recently_changed.contains(other) == (other != path
            && s.cues.recently_changed.contains(other)),
{
}

// --- what is listed --------------------------------------------------------------------

/// A kind is chosen exactly if it was toggled: each toggle turns one kind over and leaves
/// the others.
pub proof fn law_kinds_are_chosen_one_by_one(set: KindSet, kind: ChangeKind, other: ChangeKind)
    ensures
        state::has_kind(state::toggled_kind(set, kind), kind) == !state::has_kind(set, kind),
        other != kind ==> state::has_kind(state::toggled_kind(set, kind), other)
            == state::has_kind(set, other),
        !state::has_kind(state::no_kinds(), kind),
        set == state::no_kinds() <==> forall|k: ChangeKind| !#[trigger] state::has_kind(set, k),
{
    if forall|k: ChangeKind| !#[trigger] state::has_kind(set, k) {
        assert(!state::has_kind(set, ChangeKind::Modified));
        assert(!state::has_kind(set, ChangeKind::Added));
        assert(!state::has_kind(set, ChangeKind::Deleted));
        assert(!state::has_kind(set, ChangeKind::Renamed));
        assert(!state::has_kind(set, ChangeKind::Untracked));
    }
}

/// Whether file `i` is to be listed: its path passes the filename query, its kind is one
/// of those chosen, its diff holds the needle, and its type is one of those chosen; where
/// nothing is asked for or chosen, everything passes.
pub open spec fn to_be_listed(s: State, i: int) -> bool {
    let f = s.list.files[i];
    let query = search::filename_query(s.find.search);
    &&& 0 <= i < s.list.files.len()
    &&& filter::passes(
        filter::query_patterns(query, false),
        filter::query_patterns(query, true),
        f.path,
    )
    &&& (exists|k: ChangeKind| #[trigger] state::has_kind(s.find.kind_filter, k))
        ==> state::has_kind(s.find.kind_filter, f.kind)
    &&& search::content_needle(s.find.search) is Some ==> {
        let text = s.source.cache.raw_text(f.path, listing::signature_of(f));
        text is Some && search::match_count(
            text->0,
            search::content_needle(s.find.search)->0,
            s.find.search_scope,
        ) > 0
    }
    &&& (exists|e: Seq<char>| #[trigger] s.find.file_type_filter.contains(e)) ==> {
        let e = sort::extension(f.path);
        e is Some && s.find.file_type_filter.contains(e->0)
    }
}

/// A file's text is fetched when a search needs it and it is not at hand.
pub proof fn law_when_texts_are_fetched(s: State, f: Entry)
    ensures
        s.lacks_text(f) <==> {
            &&& s.find.mode == state::Mode::Search || search::content_needle(s.find.search) is Some
            &&& !s.source.cache.raw.dom().contains((f.path, listing::signature_of(f)))
        },
{
}

/// The list shows exactly the files to be listed, in their order.
pub proof fn law_what_is_listed(s: State, i: int)
    requires
        s.list.files.len() <= usize::MAX,
        0 <= i < s.list.files.len(),
    ensures
        s.rebuild_filter().list.filtered.contains(i as usize) <==> to_be_listed(s, i),
        s.apply_filter().list.filtered == s.rebuild_filter().list.filtered,
        forall|a: int, b: int|
            0 <= a < b < s.rebuild_filter().list.filtered.len()
                ==> #[trigger] s.rebuild_filter().list.filtered[a]
                < #[trigger] s.rebuild_filter().list.filtered[b],
        s.rebuild_filter().list.files == s.list.files,
{
    list_laws::law_filters_compose(s);
    reveal(State::apply_filter);
    reveal(State::rebuild_filter);
    reveal(State::passes_but_type);
    reveal(State::passes_type);
    law_kinds_are_chosen_one_by_one(s.find.kind_filter, ChangeKind::Added, ChangeKind::Added);
    let filtered = s.rebuild_filter().list.filtered;
    let none = Set::<Seq<char>>::empty();
    if s.find.file_type_filter != none {
        assert(exists|e: Seq<char>| #[trigger] s.find.file_type_filter.contains(e)) by {
            if forall|e: Seq<char>| !#[trigger] s.find.file_type_filter.contains(e) {
                assert(s.find.file_type_filter =~= none);
            }
        }
    }
    assert(list_laws::shown(s, i) == to_be_listed(s, i));
    if filtered.contains(i as usize) {
        let k = choose|k: int| 0 <= k < filtered.len() && filtered[k] == i as usize;
        assert(list_laws::shown(s, filtered[k] as int));
    }
}

/// The selection stays where it was as long as that many files are listed; else it is on
/// the last one.
pub proof fn law_the_selection_stays_in_the_list(s: State)
    ensures
        ({
            let t = s.rebuild_filter();
            let n = t.list.filtered.len() as int;
            &&& s.list.selected < n ==> t.list.selected == s.list.selected
            &&& s.list.selected >= n && n > 0 ==> t.list.selected == n - 1
            &&& n == 0 && s.list.selected >= 0 ==> t.list.selected == 0
        }),
{
    reveal(State::rebuild_filter);
}

/// Choosing or dropping a type, and a kind, is done in the filter and then in the list.
pub proof fn law_choosing(s: State, ext: Seq<char>, other: Seq<char>, kind: ChangeKind)
    ensures
        s.toggle_file_type(ext).find.file_type_filter.contains(other) == if other == ext {
            !s.find.file_type_filter.contains(ext)
        } else {
            s.find.file_type_filter.contains(other)
        },
        s.toggle_kind(kind).find.kind_filter == state::toggled_kind(s.find.kind_filter, kind),
        s.toggle_file_type(ext).find.kind_filter == s.find.kind_filter,
        s.toggle_kind(kind).find.file_type_filter == s.find.file_type_filter,
        s.toggle_kind(kind).find.search == s.find.search,
        s.toggle_file_type(ext).find.search == s.find.search,
{
    reveal(State::toggle_file_type);
    reveal(State::toggle_kind);
    reveal(State::apply_filter);
    reveal(State::rebuild_filter);
}

// --- sorting and refreshing ------------------------------------------------------------

/// What the sort keys do: the next field, or the other direction; the files are sorted
/// anew, and the new order is announced and remembered.
pub proof fn law_sorting_anew(s: State)
    ensures
        ({
            let t = s.cycle_sort_field();
            let u = s.toggle_sort_dir();
            &&& t.list.sort_field == sort::next_field(s.list.sort_field)
            &&& t.list.sort_desc == s.list.sort_desc
            &&& t.list.files == sort::in_order(s.list.files, t.list.sort_field, t.list.sort_desc)
            &&& t.note.status == "sort: "@ + (sort::field_name(t.list.sort_field) + seq![' ']
                + sort::arrow(t.list.sort_desc))
            &&& u.list.sort_field == s.list.sort_field
            &&& u.list.sort_desc == !s.list.sort_desc
            &&& u.list.files == sort::in_order(s.list.files, u.list.sort_field, u.list.sort_desc)
            &&& u.note.status == "sort: "@ + (sort::field_name(u.list.sort_field) + seq![' ']
                + sort::arrow(u.list.sort_desc))
            &&& t.queue.save_pending && u.queue.save_pending
            &&& t.pane.needs_rebuild && u.pane.needs_rebuild
        }),
{
    reveal(State::cycle_sort_field);
    reveal(State::toggle_sort_dir);
    reveal(State::rebuild_filter);
    assert forall|f: sort::SortField| #[trigger] sort::field_name(f).push(' ') =~= sort::field_name(f)
        + seq![' '] by {}
}

/// What a refresh takes over: the files found, in the order of the list, and the base
/// that fits the diff mode.
pub proof fn law_refreshing(s: State, found: Found)
    ensures
        ({
            let t = s.refresh(found);
            let files = sort::in_order(found.files->Ok_0, s.list.sort_field, s.list.sort_desc);
            &&& found.files is Ok ==> t.list.files == files && t.pane.needs_rebuild
            &&& !t.queue.scan_pending
            &&& s.source.diff_mode == DiffMode::BaseBranch && found.branch is Some ==> t.source.base
                == (found.branch->Some_0).1 && t.source.base_label == (found.branch->Some_0).0
            &&& s.source.diff_mode == DiffMode::Working || found.branch is None ==> {
                &&& t.source.base_label == "HEAD"@
                &&& t.source.base == if found.has_head {
                    "HEAD"@
                } else {
                    EMPTY_TREE@
                }
                &&& t.source.diff_mode == DiffMode::Working
            }
        }),
{
    reveal(State::rebuild_filter);
}

/// Changes on disk are taken over like a refresh, and then noted.
pub proof fn law_changes_are_taken_over(s: State, found: Found)
    ensures
        s.on_fs_change(found).list.files == s.refresh(found).list.files,
        s.on_fs_change(found).list.filtered == s.refresh(found).list.filtered,
        s.on_fs_change(found).cues.behind_dirty,
        s.on_fs_change(found).source.base == s.refresh(found).source.base,
{
    reveal(State::rebuild_filter);
    let t = State { cues: state::CueState { behind_dirty: true, ..s.cues }, ..s };
    assert(t.begin_refresh().with_base(found.has_head, found.branch).list == s.list);
    if found.files is Ok {
        lemma_filter_ignores_cues(s, found);
    }
}

proof fn lemma_filter_ignores_cues(s: State, found: Found)
    requires
        found.files is Ok,
    ensures
        ({
            let t = State { cues: state::CueState { behind_dirty: true, ..s.cues }, ..s };
            t.refresh(found).list == s.refresh(found).list
        }),
{
    reveal(State::rebuild_filter);
    let t = State { cues: state::CueState { behind_dirty: true, ..s.cues }, ..s };
    let a = s.begin_refresh().with_base(found.has_head, found.branch);
    let b = t.begin_refresh().with_base(found.has_head, found.branch);
    let files = found.files->Ok_0;
    let x = State { list: state::ListState { files, ..a.list }, ..a }.sort_files();
    let y = State { list: state::ListState { files, ..b.list }, ..b }.sort_files();
    list_laws::lemma_same_lists(x, y);
}

/// The program starts with the settings it was given, and with what was found.
pub proof fn law_starting(c: config::Settings, found: Found)
    ensures
        ({
            let s = listing::started(c, found);
            &&& s.list.sort_field == c.sort_field && s.list.sort_desc == c.sort_desc
            &&& s.source.theme == c.theme
            &&& s.control.follow == c.follow && s.control.auto_update == c.auto_update
            &&& s.screen.sidebar_collapsed == c.sidebar_collapsed
            &&& 15 <= c.split_pct <= 85 ==> s.screen.split_pct == c.split_pct
            &&& s.source.diff_mode == c.diff_mode || found.branch is None
            &&& s.find.search.len() == 0
            &&& s.find.kind_filter == state::no_kinds()
            &&& s.find.file_type_filter == Set::<Seq<char>>::empty()
            &&& s.find.mode == state::Mode::Normal
            &&& s.list.selected == 0 && s.pane.diff_scroll == 0
            &&& found.files is Ok ==> s.list.files == sort::in_order(
                found.files->Ok_0,
                c.sort_field,
                c.sort_desc,
            )
            &&& found.files is Err ==> s.list.files.len() == 0
        }),
{
    reveal(State::rebuild_filter);
}

// --- signatures --------------------------------------------------------------------------

/// A file that was modified, or whose kind of change became another, is told from what it
/// was.
pub proof fn law_signatures_tell_versions_apart(a: Entry, b: Entry)
    requires
        0 <= a.mtime <= u64::MAX,
        0 <= b.mtime <= u64::MAX,
    ensures
        a.kind == b.kind && a.mtime != b.mtime ==> listing::signature_of(a)
            != listing::signature_of(b),
        a.mtime == b.mtime && a.kind != b.kind ==> listing::signature_of(a)
            != listing::signature_of(b),
        a.mtime == b.mtime && a.kind == b.kind ==> listing::signature_of(a)
            == listing::signature_of(b),
{
    let (x, y) = (listing::stamp(a.mtime), listing::stamp(b.mtime));
    let (p, q) = (listing::kind_salt(a.kind), listing::kind_salt(b.kind));
    assert(x == a.mtime && y == b.mtime);
    assert(x != y ==> x ^ p != y ^ p) by (bit_vector);
    assert(p != q ==> x ^ p != x ^ q) by (bit_vector);
    assert(a.kind != b.kind ==> p != q) by {
        lemma_salts();
    }
}

proof fn lemma_salts()
    ensures
        forall|a: ChangeKind, b: ChangeKind|
            a != b ==> #[trigger] listing::kind_salt(a) != #[trigger] listing::kind_salt(b),
{
    let m = 0x9E37_79B9_7F4A_7C15int;
    let w = 0x1_0000_0000_0000_0000int;
    assert(0 * m % w == 0);
    assert(1 * m % w == m);
    assert(2 * m % w == 2 * m - w);
    assert(3 * m % w == 3 * m - w);
    assert(4 * m % w == 4 * m - 2 * w);
}

// --- all of it together --------------------------------------------------------------------

/// The place in the diff is kept over a refresh, and over sorting anew: the viewport is to
/// be put back on the file and the line it is on.
pub proof fn law_the_place_is_kept(s: State, found: Found)
    ensures
        s.refresh(found).pane.restore_anchor == s.current_anchor(),
        s.cycle_sort_field().pane.restore_anchor == s.current_anchor(),
        s.toggle_sort_dir().pane.restore_anchor == s.current_anchor(),
        !s.control.follow ==> s.on_fs_change(found).pane.restore_anchor == s.current_anchor(),
{
    reveal(State::rebuild_filter);
    reveal(State::cycle_sort_field);
    reveal(State::toggle_sort_dir);
    let t = State { cues: state::CueState { behind_dirty: true, ..s.cues }, ..s };
    assert(t.current_anchor() == s.current_anchor());
    if !s.control.follow {
        assert(t.refresh(found).control.follow == s.control.follow);
        law_follow_goes_to_the_latest(t.refresh(found));
    }
}

/// A change on disk marks, in the list as it then is, what is new or newer than it was
/// last seen, and keeps the marks of what is still there.
pub proof fn law_changes_on_disk_are_marked(s: State, found: Found, path: Seq<char>)
    ensures
        ({
            let files = s.refresh(found).list.files;
            s.on_fs_change(found).cues.recently_changed.contains(path) <==> {
                &&& exists|k: int| 0 <= k < files.len() && (#[trigger] files[k]).path == path
                &&& s.cues.recently_changed.contains(path) || changed_since(
                    files,
                    s.cues.last_mtimes,
                    path,
                )
            }
        }),
{
    reveal(State::rebuild_filter);
    let t = State { cues: state::CueState { behind_dirty: true, ..s.cues }, ..s };
    let r = t.refresh(found);
    assert(r.cues.recently_changed == s.cues.recently_changed);
    assert(r.cues.last_mtimes == s.cues.last_mtimes);
    assert(r.list.files == s.refresh(found).list.files);
    law_new_and_newer_files_are_marked(r, path);
}

/// What a theme change does to what was rendered: nothing of it is used again, live or in
/// a history.
pub proof fn law_a_theme_renders_anew(s: State, dir: int)
    ensures
        ({
            let t = s.cycle_theme(dir);
            &&& t.source.cache.map == Map::<(Seq<char>, u64, u16), Seq<crate::rich::Row>>::empty()
            &&& t.source.cache.raw == s.source.cache.raw
            &&& s.history is Some ==> t.history is Some && t.history->0.cache == Map::<
                Seq<char>,
                Seq<crate::rich::Row>,
            >::empty() && t.history->0.built_width == 0
            &&& s.history is None ==> t.history is None
        }),
{
    reveal(State::cycle_theme);
}

} // verus!
