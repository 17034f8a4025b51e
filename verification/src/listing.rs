//! The file list: loading, sorting, filtering, and what changes with them.

use vstd::prelude::*;
use crate::app::{App, Cues, FileList, Finder, Note, Pane, Queue, Source};
use crate::commits;
use crate::config::{Config, DiffMode};
use crate::config;
use crate::delta::{Cached, DiffCache};
use crate::filter;
use crate::filter::Query;
use crate::geometry;
use crate::geometry::Rect;
use crate::git;
use crate::git::{ChangeKind, Entry, FileEntry};
use crate::rich::Text;
use crate::search;
use crate::search::Scope;
use crate::sort;
use crate::state;
use crate::state::{
    Control, CueState, FindState, Found, KindSet, ListState, Marquee, Mode, PaneState, Pointer,
    QueueState, Screen, SourceState, State,
};
use crate::table::{NameSet, Table};
use crate::txt;

verus! {

// --- signatures ----------------------------------------------------------------

/// The number that tells a change kind apart.
pub open spec fn kind_index(kind: ChangeKind) -> int {
    match kind {
        ChangeKind::Modified => 0,
        ChangeKind::Added => 1,
        ChangeKind::Deleted => 2,
        ChangeKind::Renamed => 3,
        ChangeKind::Untracked => 4,
    }
}

/// The low 64 bits of a modification time; times before the epoch count as it.
pub open spec fn stamp(mtime: int) -> u64 {
    if mtime < 0 {
        0
    } else {
        (mtime % 0x1_0000_0000_0000_0000) as u64
    }
}

/// The bits that a change kind contributes.
pub open spec fn kind_salt(kind: ChangeKind) -> u64 {
    (kind_index(kind) * 0x9E37_79B9_7F4A_7C15 % 0x1_0000_0000_0000_0000) as u64
}

/// The content signature of an entry.
pub open spec fn signature_of(e: Entry) -> u64 {
    stamp(e.mtime) ^ kind_salt(e.kind)
}

/// Content signature for cache keying: worktree mtime combined with the change
/// kind. An edit bumps the mtime, producing a fresh signature and re-render.
pub fn signature(entry: &FileEntry) -> (r: u64)
    ensures
        r == signature_of(entry@),
{
    let nanos: u64 = if entry.mtime < 0 {
        0
    } else {
        (entry.mtime as u128 % 0x1_0000_0000_0000_0000) as u64
    };
    let index: u128 = match entry.kind {
        ChangeKind::Modified => 0,
        ChangeKind::Added => 1,
        ChangeKind::Deleted => 2,
        ChangeKind::Renamed => 3,
        ChangeKind::Untracked => 4,
    };
    let salt: u64 = (index * 0x9E37_79B9_7F4A_7C15 % 0x1_0000_0000_0000_0000) as u64;
    nanos ^ salt
}

// --- the model -----------------------------------------------------------------

/// The curated set of delta/bat syntax themes cycled by the theme hotkey. These
/// ship with delta, so they're always available.
pub open spec fn themes() -> Seq<Seq<char>> {
    seq![
        "Dracula"@,
        "Monokai Extended"@,
        "Nord"@,
        "gruvbox-dark"@,
        "gruvbox-light"@,
        "Solarized (dark)"@,
        "Solarized (light)"@,
        "OneHalfDark"@,
        "OneHalfLight"@,
        "TwoDark"@,
        "Coldark-Dark"@,
        "Coldark-Cold"@,
        "Sublime Snazzy"@,
        "zenburn"@,
        "ansi"@,
    ]
}

/// The first position at or after `i` at which `name` stands in `list`.
pub open spec fn position_from(list: Seq<Seq<char>>, name: Seq<char>, i: int) -> Option<int>
    decreases list.len() - i,
{
    if i < 0 || i >= list.len() {
        None
    } else if list[i] == name {
        Some(i)
    } else {
        position_from(list, name, i + 1)
    }
}

/// The theme `dir` steps on from `theme`; from any other, the first.
pub open spec fn theme_after(theme: Option<Seq<char>>, dir: int) -> Seq<char> {
    match theme {
        Some(t) => match position_from(themes(), t, 0) {
            Some(i) => themes()[(i + dir) % 15],
            None => themes()[0],
        },
        None => themes()[0],
    }
}

/// The last-seen mtimes after seeing the first `n` files.
pub open spec fn mtimes_upto(files: Seq<Entry>, n: int) -> Map<Seq<char>, i128>
    decreases n,
{
    if n <= 0 {
        Map::empty()
    } else {
        mtimes_upto(files, n - 1).insert(files[n - 1].path, files[n - 1].mtime as i128)
    }
}

/// The last-seen mtimes after seeing `files`.
pub open spec fn mtimes_of(files: Seq<Entry>) -> Map<Seq<char>, i128> {
    mtimes_upto(files, files.len() as int)
}

/// Whether a file is new or newer than it was last seen.
pub open spec fn is_touched(f: Entry, seen: Map<Seq<char>, i128>) -> bool {
    !seen.contains_key(f.path) || f.mtime > seen[f.path]
}

/// The paths of those of the first `n` files that are new or newer.
pub open spec fn touched_upto(files: Seq<Entry>, seen: Map<Seq<char>, i128>, n: int) -> Seq<
    Seq<char>,
>
    decreases n,
{
    if n <= 0 {
        Seq::empty()
    } else if is_touched(files[n - 1], seen) {
        touched_upto(files, seen, n - 1).push(files[n - 1].path)
    } else {
        touched_upto(files, seen, n - 1)
    }
}

/// The paths of the files that are new or newer than they were last seen.
pub open spec fn touched(files: Seq<Entry>, seen: Map<Seq<char>, i128>) -> Seq<Seq<char>> {
    touched_upto(files, seen, files.len() as int)
}

/// The cache without anything stored for the first `n` paths.
pub open spec fn dropped_upto(c: Cached, paths: Seq<Seq<char>>, n: int) -> Cached
    decreases n,
{
    if n <= 0 {
        c
    } else {
        dropped_upto(c, paths, n - 1).invalidate_path(paths[n - 1])
    }
}

/// The paths of `files`.
pub open spec fn paths(files: Seq<Entry>) -> Seq<Seq<char>> {
    files.map_values(|f: Entry| f.path)
}

/// The last of the most recently modified ones among the first `n` files whose
/// path is one of `among`.
pub open spec fn newest_upto(files: Seq<Entry>, among: Seq<Seq<char>>, n: int) -> Option<int>
    decreases n,
{
    if n <= 0 {
        None
    } else {
        let before = newest_upto(files, among, n - 1);
        if among.contains(files[n - 1].path) && (before matches Some(i) ==> files[i].mtime
            <= files[n - 1].mtime) {
            Some(n - 1)
        } else {
            before
        }
    }
}

/// The state before anything was loaded.
pub open spec fn blank(c: config::Settings) -> State {
    State {
        source: SourceState {
            base: Seq::empty(),
            base_label: Seq::empty(),
            diff_mode: c.diff_mode,
            theme: c.theme,
            tab_width: c.tab_width,
            saved_tab_width: config::kept_tab_width(c),
            cache: Cached::empty(),
        },
        list: ListState {
            files: Seq::empty(),
            filtered: Seq::empty(),
            selected: 0,
            sort_field: c.sort_field,
            sort_desc: c.sort_desc,
            file_types: Seq::empty(),
        },
        find: FindState {
            mode: Mode::Normal,
            search: Seq::empty(),
            kind_filter: state::no_kinds(),
            file_type_filter: Set::empty(),
            search_scope: Scope::Both,
            matches: Seq::empty(),
            current_match: 0,
            pending_match_jump: false,
        },
        pane: PaneState {
            combined: Seq::empty(),
            offsets: Seq::empty(),
            diff_scroll: 0,
            diff_width: 80,
            diff_viewport_height: 20,
            needs_rebuild: true,
            built_width: 0,
            restore_anchor: None,
        },
        screen: Screen {
            split_pct: config::split_within(c.split_pct as int),
            sidebar_collapsed: c.sidebar_collapsed,
            area_main: geometry::no_area(),
            area_left: geometry::no_area(),
            area_right: geometry::no_area(),
            list_offset: 0,
        },
        pointer: Pointer {
            dragging_divider: false,
            hover_pos: None,
            selection: None,
            selecting: false,
            sel_autoscroll: 0,
        },
        cues: CueState {
            recently_changed: Set::empty(),
            last_mtimes: Map::empty(),
            behind: None,
            behind_dirty: true,
            update_ready: false,
        },
        marquee: Marquee { active_path_overflow: false, offset: 0, sel: 0, last: None },
        note: state::NoteState { status: Seq::empty(), since: None },
        history: None,
        control: Control {
            follow: c.follow,
            auto_update: c.auto_update,
            show_help: false,
            should_quit: false,
            clock: 0,
        },
        queue: QueueState {
            pending_copy: None,
            save_pending: false,
            scan_pending: false,
            history_request: None,
            history_stale: false,
        },
    }
}

/// The state that the application starts in.
pub open spec fn started(c: config::Settings, found: Found) -> State {
    let s = blank(c).refresh(found);
    State { cues: CueState { last_mtimes: mtimes_of(s.list.files), ..s.cues }, ..s }
}

impl State {
    // --- filtering -------------------------------------------------------------

    /// Whether the searchable text of `f` is needed and not at hand: something is being
    /// typed into the search box, or searched for.
    pub open spec fn lacks_text(self, f: Entry) -> bool {
        (self.find.mode == Mode::Search || self.is_content_search())
            && self.source.cache.raw_text(f.path, signature_of(f)) is None
    }

    /// Whether the search box holds a content query (as opposed to being empty or a
    /// filename filter).
    pub open spec fn is_content_search(self) -> bool {
        search::content_needle(self.find.search) is Some
    }

    /// Scope-filtered content-match count of file `i`; a file whose diff is not at
    /// hand has none.
    pub open spec fn content_matches(self, i: int, needle: Seq<char>) -> nat {
        let e = self.list.files[i];
        match self.source.cache.raw_text(e.path, signature_of(e)) {
            Some(raw) => search::match_count(raw, needle, self.find.search_scope),
            None => 0,
        }
    }

    /// Whether file `i` passes every filter but that on file types.
    #[verifier::opaque]
    pub open spec fn passes_but_type(self, i: int) -> bool {
        let query = search::filename_query(self.find.search);
        let f = self.list.files[i];
        &&& filter::passes(
            filter::query_patterns(query, false),
            filter::query_patterns(query, true),
            f.path,
        )
        &&& self.find.kind_filter == state::no_kinds() || state::has_kind(
            self.find.kind_filter,
            f.kind,
        )
        &&& search::content_needle(self.find.search) matches Some(needle)
            ==> self.content_matches(i, needle) > 0
    }

    /// Those of the first `n` files that pass every filter but that on file types.
    pub open spec fn passing_upto(self, n: int) -> Seq<usize>
        decreases n,
    {
        if n <= 0 {
            Seq::empty()
        } else if self.passes_but_type(n - 1) {
            self.passing_upto(n - 1).push((n - 1) as usize)
        } else {
            self.passing_upto(n - 1)
        }
    }

    /// The files that pass every filter but that on file types.
    pub open spec fn passing(self) -> Seq<usize> {
        self.passing_upto(self.list.files.len() as int)
    }

    /// The extension of file `i`.
    pub open spec fn extension_at(self, i: usize) -> Option<Seq<char>> {
        sort::extension(self.list.files[i as int].path)
    }

    /// The extensions of the first `n` of the files `picked`.
    pub open spec fn types_upto(self, picked: Seq<usize>, n: int) -> Seq<Seq<char>>
        decreases n,
    {
        if n <= 0 {
            Seq::empty()
        } else {
            match self.extension_at(picked[n - 1]) {
                Some(e) => sort::with_name(self.types_upto(picked, n - 1), e),
                None => self.types_upto(picked, n - 1),
            }
        }
    }

    /// Whether file `i` passes the filter on file types.
    #[verifier::opaque]
    pub open spec fn passes_type(self, i: usize) -> bool {
        ||| self.find.file_type_filter == Set::<Seq<char>>::empty()
        ||| self.extension_at(i) matches Some(e) && self.find.file_type_filter.contains(e)
    }

    /// Those of the first `n` of the files `picked` that pass the filter on file
    /// types.
    pub open spec fn typed_upto(self, picked: Seq<usize>, n: int) -> Seq<usize>
        decreases n,
    {
        if n <= 0 {
            Seq::empty()
        } else if self.passes_type(picked[n - 1]) {
            self.typed_upto(picked, n - 1).push(picked[n - 1])
        } else {
            self.typed_upto(picked, n - 1)
        }
    }

    /// With the filters applied anew. The file types offered come from the files
    /// that pass every other filter, so deselecting one never makes its own chip
    /// disappear.
    #[verifier::opaque]
    pub open spec fn rebuild_filter(self) -> State {
        let picked = self.passing();
        let filtered = self.typed_upto(picked, picked.len() as int);
        State {
            list: ListState {
                filtered,
                file_types: self.types_upto(picked, picked.len() as int),
                selected: if self.list.selected >= filtered.len() {
                    geometry::minus(filtered.len() as int, 1)
                } else {
                    self.list.selected
                },
                ..self.list
            },
            ..self
        }
    }

    /// With the filters applied after an edit, focusing the top of the new diff.
    #[verifier::opaque]
    pub open spec fn apply_filter(self) -> State {
        let s = self.rebuild_filter();
        State {
            list: ListState { selected: 0, ..s.list },
            find: FindState {
                current_match: 0,
                pending_match_jump: s.is_content_search(),
                ..s.find
            },
            pane: PaneState {
                diff_scroll: 0,
                restore_anchor: None,
                needs_rebuild: true,
                ..s.pane
            },
            ..s
        }
    }

    /// With `kind` included in the kind filter, or no longer.
    #[verifier::opaque]
    pub open spec fn toggle_kind(self, kind: ChangeKind) -> State {
        State {
            find: FindState {
                kind_filter: state::toggled_kind(self.find.kind_filter, kind),
                ..self.find
            },
            history: None,
            ..self
        }.apply_filter()
    }

    /// With `ext` included in the file-type filter, or no longer.
    #[verifier::opaque]
    pub open spec fn toggle_file_type(self, ext: Seq<char>) -> State {
        State {
            find: FindState {
                file_type_filter: if self.find.file_type_filter.contains(ext) {
                    self.find.file_type_filter.remove(ext)
                } else {
                    self.find.file_type_filter.insert(ext)
                },
                ..self.find
            },
            history: None,
            ..self
        }.apply_filter()
    }

    /// With the search text `text`.
    pub open spec fn with_search(self, text: Seq<char>) -> State {
        State { find: FindState { search: text, ..self.find }, ..self }
    }

    /// In mode `mode`.
    pub open spec fn with_mode(self, mode: Mode) -> State {
        State { find: FindState { mode, ..self.find }, ..self }
    }

    /// With content search of scope `scope`.
    pub open spec fn with_scope(self, scope: Scope) -> State {
        State { find: FindState { search_scope: scope, ..self.find }, ..self }
    }

    // --- sorting ---------------------------------------------------------------

    /// With the files in their order.
    pub open spec fn sort_files(self) -> State {
        State {
            list: ListState {
                files: sort::in_order(self.list.files, self.list.sort_field, self.list.sort_desc),
                ..self.list
            },
            ..self
        }
    }

    /// With the files sorted anew, the viewport to be restored.
    pub open spec fn resort_preserving(self) -> State {
        self.with_anchor(
            self.current_anchor(),
        ).sort_files().rebuild_filter().with_rebuild().save_config()
    }

    /// With the new sort order announced.
    pub open spec fn announce_sort(self) -> State {
        self.set_status(
            "sort: "@ + (sort::field_name(self.list.sort_field).push(' ') + sort::arrow(
                self.list.sort_desc,
            )),
        )
    }

    /// With the next sort field.
    #[verifier::opaque]
    pub open spec fn cycle_sort_field(self) -> State {
        State {
            list: ListState { sort_field: sort::next_field(self.list.sort_field), ..self.list },
            history: None,
            ..self
        }.resort_preserving().announce_sort()
    }

    /// With the sort direction reversed.
    #[verifier::opaque]
    pub open spec fn toggle_sort_dir(self) -> State {
        State {
            list: ListState { sort_desc: !self.list.sort_desc, ..self.list },
            history: None,
            ..self
        }.resort_preserving().announce_sort()
    }

    // --- theme & diff mode -----------------------------------------------------

    /// With the theme `dir` steps on; every diff is to be rendered anew.
    #[verifier::opaque]
    pub open spec fn cycle_theme(self, dir: int) -> State {
        let theme = theme_after(self.source.theme, dir);
        let s = State {
            source: SourceState {
                theme: Some(theme),
                cache: self.source.cache.clear(),
                ..self.source
            },
            history: match self.history {
                Some(h) => Some(state::Past { cache: Map::empty(), built_width: 0, ..h }),
                None => None,
            },
            ..self
        }.set_status("theme: "@ + theme);
        s.with_anchor(s.current_anchor()).with_rebuild().save_config()
    }

    /// With the other diff mode; the repository is to be looked at again.
    pub open spec fn toggle_diff_mode(self) -> State {
        State {
            source: SourceState {
                diff_mode: config::other_mode(self.source.diff_mode),
                ..self.source
            },
            list: ListState { selected: 0, ..self.list },
            pane: PaneState { diff_scroll: 0, restore_anchor: None, ..self.pane },
            cues: CueState { behind_dirty: true, ..self.cues },
            queue: QueueState { scan_pending: true, save_pending: true, ..self.queue },
            ..self
        }
    }

    // --- loading ---------------------------------------------------------------

    /// With the diff base that was found for the current mode. Without a base
    /// branch (no remote, a single branch) base-branch mode falls back.
    pub open spec fn with_base(
        self,
        has_head: bool,
        branch: Option<(Seq<char>, Seq<char>)>,
    ) -> State {
        match (self.source.diff_mode, branch) {
            (DiffMode::BaseBranch, Some((branch, merge_base))) => State {
                source: SourceState { base: merge_base, base_label: branch, ..self.source },
                ..self
            },
            (DiffMode::BaseBranch, None) => State {
                source: SourceState {
                    diff_mode: DiffMode::Working,
                    base: commits::working_base(has_head),
                    base_label: "HEAD"@,
                    ..self.source
                },
                ..self
            }.set_status("no base branch found — showing working changes"@),
            (DiffMode::Working, _) => State {
                source: SourceState {
                    base: commits::working_base(has_head),
                    base_label: "HEAD"@,
                    ..self.source
                },
                ..self
            },
        }
    }

    /// With the viewport to be restored, and no further look at the repository
    /// asked for.
    pub open spec fn begin_refresh(self) -> State {
        State {
            queue: QueueState { scan_pending: false, ..self.queue },
            ..self.with_anchor(self.current_anchor())
        }
    }

    /// With `files` as the changed files, sorted and filtered.
    pub open spec fn load(self, files: Seq<Entry>) -> State {
        State {
            list: ListState { files, ..self.list },
            ..self
        }.sort_files().rebuild_filter().with_rebuild()
    }

    /// With the changed files that were found, the viewport to be restored.
    pub open spec fn refresh(self, found: Found) -> State {
        let s = self.begin_refresh().with_base(found.has_head, found.branch);
        match found.files {
            Ok(files) => s.load(files),
            Err(message) => s.set_status("git error: "@ + message),
        }
    }

    /// With the files that really changed (by mtime) marked, what was cached of
    /// them dropped, and, when following, the most recent one to be jumped to.
    pub open spec fn note_changes(self) -> State {
        let files = self.list.files;
        let changed = touched(files, self.cues.last_mtimes);
        let s = State {
            source: SourceState {
                cache: dropped_upto(self.source.cache, changed, changed.len() as int),
                ..self.source
            },
            cues: CueState {
                last_mtimes: mtimes_of(files),
                recently_changed: self.cues.recently_changed.union(changed.to_set()).filter(
                    |p: Seq<char>| paths(files).contains(p),
                ),
                ..self.cues
            },
            ..self
        };
        match newest_upto(files, changed, files.len() as int) {
            Some(i) if self.control.follow => s.with_anchor(Some((files[i].path, 0))),
            _ => s,
        }
    }

    /// With what changed on disk loaded and noted.
    pub open spec fn on_fs_change(self, found: Found) -> State {
        State {
            cues: CueState { behind_dirty: true, ..self.cues },
            ..self
        }.refresh(found).note_changes()
    }
}

// --- the application -----------------------------------------------------------

/// What a look at the repository found: asked of git by the surrounding program,
/// for the application's current diff mode.
pub struct Scan {
    /// Whether there is a commit.
    pub has_head: bool,
    /// The base branch and the merge base with it, looked for in base-branch mode.
    pub branch: Option<(String, String)>,
    /// The changed files, or git's error: against the merge base where one was
    /// found, else those of the working tree.
    pub files: Result<Vec<FileEntry>, String>,
}

impl View for Scan {
    type V = Found;

    open spec fn view(&self) -> Found {
        Found {
            has_head: self.has_head,
            branch: match self.branch {
                Some((branch, base)) => Some((branch@, base@)),
                None => None,
            },
            files: git::listing(self.files),
        }
    }
}

/// The curated set of syntax themes.
pub fn theme_names() -> (r: Vec<String>)
    ensures
        txt::texts(r@) == themes(),
        r@.len() == 15,
{
    let mut r: Vec<String> = Vec::new();
    assert(txt::texts(r@) =~= Seq::<Seq<char>>::empty());
    txt::push_text(&mut r, "Dracula".to_owned());
    txt::push_text(&mut r, "Monokai Extended".to_owned());
    txt::push_text(&mut r, "Nord".to_owned());
    txt::push_text(&mut r, "gruvbox-dark".to_owned());
    txt::push_text(&mut r, "gruvbox-light".to_owned());
    txt::push_text(&mut r, "Solarized (dark)".to_owned());
    txt::push_text(&mut r, "Solarized (light)".to_owned());
    txt::push_text(&mut r, "OneHalfDark".to_owned());
    txt::push_text(&mut r, "OneHalfLight".to_owned());
    txt::push_text(&mut r, "TwoDark".to_owned());
    txt::push_text(&mut r, "Coldark-Dark".to_owned());
    txt::push_text(&mut r, "Coldark-Cold".to_owned());
    txt::push_text(&mut r, "Sublime Snazzy".to_owned());
    txt::push_text(&mut r, "zenburn".to_owned());
    txt::push_text(&mut r, "ansi".to_owned());
    assert(txt::texts(r@) =~= themes());
    assert(txt::texts(r@).len() == r@.len());
    r
}

/// Whether stepping `dir` themes on from `theme` stays within machine numbers.
pub open spec fn theme_step_fits(theme: Option<Seq<char>>, dir: int) -> bool {
    theme matches Some(t) ==> (position_from(themes(), t, 0) matches Some(i) ==> i + dir
        <= i32::MAX)
}

/// The theme `dir` steps on from `theme`; from any other, the first.
pub fn next_theme(theme: &Option<String>, dir: i32) -> (r: String)
    requires
        theme_step_fits(txt::opt_text(*theme), dir as int),
    ensures
        r@ == theme_after(txt::opt_text(*theme), dir as int),
{
    let names = theme_names();
    let ghost all = txt::texts(names@);
    assert(all[0] == names@[0]@);
    if let Some(t) = theme {
        let mut i: usize = 0;
        while i < names.len()
            invariant
                i <= names@.len(),
                names@.len() == 15,
                all == txt::texts(names@),
                all == themes(),
                txt::opt_text(*theme) == Some(t@),
                position_from(all, t@, 0) == position_from(all, t@, i as int),
            decreases names@.len() - i,
        {
            assert(all[i as int] == names@[i as int]@);
            if txt::same(names[i].as_str(), t.as_str()) {
                let at: i64 = i as i64 + dir as i64;
                let rem: i64 = if at >= 0 {
                    at % 15
                } else {
                    14 - (-(at + 1)) % 15
                };
                assert(rem == (i + dir) % 15);
                let next = rem as usize;
                assert(all[next as int] == names@[next as int]@);
                return names[next].clone();
            }
            i = i + 1;
        }
    }
    names[0].clone()
}

/// The last-seen mtimes after seeing `files`.
fn mtimes(files: &Vec<FileEntry>) -> (r: Table<String, i128>)
    ensures
        r@ == mtimes_of(git::entries(files@)),
{
    let ghost all = git::entries(files@);
    let mut map: Table<String, i128> = Table::new();
    let mut i: usize = 0;
    while i < files.len()
        invariant
            i <= files@.len(),
            all == git::entries(files@),
            map@ == mtimes_upto(all, i as int),
        decreases files@.len() - i,
    {
        assert(all[i as int] == files@[i as int]@);
        map.insert(files[i].path.clone(), files[i].mtime);
        i = i + 1;
    }
    assert(all.len() == files@.len());
    map
}

impl App {
    pub fn new(config: Config, scan: Scan) -> (app: App)
        ensures
            app@ == started(config@, scan@),
            app@.wf(),
    {
        proof {
            reveal(State::wf);
            reveal(State::steady);
        }
        let saved_tab_width = config.kept_tabs();
        let mut app = App {
            source: Source {
                base: String::new(),
                base_label: String::new(),
                diff_mode: config.diff_mode,
                theme: config.theme,
                tab_width: config.tab_width,
                saved_tab_width,
                cache: DiffCache::new(),
            },
            list: FileList {
                files: Vec::new(),
                filtered: Vec::new(),
                selected: 0,
                sort_field: config.sort_field,
                sort_desc: config.sort_desc,
                file_types: Vec::new(),
            },
            find: Finder {
                mode: Mode::Normal,
                search: String::new(),
                kind_filter: KindSet::none(),
                file_type_filter: NameSet::new(),
                search_scope: Scope::Both,
                matches: Vec::new(),
                current_match: 0,
                pending_match_jump: false,
            },
            pane: Pane {
                combined: Text { lines: Vec::new() },
                offsets: Vec::new(),
                diff_scroll: 0,
                diff_width: 80,
                diff_viewport_height: 20,
                needs_rebuild: true,
                built_width: 0,
                restore_anchor: None,
            },
            screen: Screen {
                split_pct: config::clamp_split(config.split_pct),
                sidebar_collapsed: config.sidebar_collapsed,
                area_main: Rect::default(),
                area_left: Rect::default(),
                area_right: Rect::default(),
                list_offset: 0,
            },
            pointer: Pointer {
                dragging_divider: false,
                hover_pos: None,
                selection: None,
                selecting: false,
                sel_autoscroll: 0,
            },
            cues: Cues {
                recently_changed: NameSet::new(),
                last_mtimes: Table::new(),
                behind: None,
                behind_dirty: true,
                update_ready: false,
            },
            marquee: Marquee { active_path_overflow: false, offset: 0, sel: 0, last: None },
            note: Note { status: String::new(), since: None },
            history: None,
            control: Control {
                follow: config.follow,
                auto_update: config.auto_update,
                show_help: false,
                should_quit: false,
                clock: 0,
            },
            queue: Queue {
                pending_copy: None,
                save_pending: false,
                scan_pending: false,
                history_request: None,
                history_stale: false,
            },
        };
        proof {
            assert(app.source.base@ =~= Seq::<char>::empty());
            assert(app.source.base_label@ =~= Seq::<char>::empty());
            assert(app.find.search@ =~= Seq::<char>::empty());
            assert(app.note.status@ =~= Seq::<char>::empty());
            assert(git::entries(app.list.files@) =~= Seq::<Entry>::empty());
            assert(txt::texts(app.list.file_types@) =~= Seq::<Seq<char>>::empty());
            assert(app.pane.combined@ =~= Seq::empty());
            assert(app@ == blank(config@));
        }
        app.refresh(scan);
        // Prime mtimes from the initial changeset so nothing is flagged as
        // "recently changed" at startup.
        app.cues.last_mtimes = mtimes(&app.list.files);
        app
    }

    // --- filtering -------------------------------------------------------------

    /// Whether the search box currently holds a content query (as opposed to being
    /// empty or a `file:` filename filter).
    pub fn is_content_search(&self) -> (r: bool)
        ensures
            r == self@.is_content_search(),
    {
        let (needle, _) = search::split_query(self.find.search.as_str());
        match needle {
            Some(_) => true,
            None => false,
        }
    }

    /// Scope-filtered content-match count for file `i`, from its retained raw diff.
    fn count_content_matches(&self, i: usize, needle: &str) -> (r: usize)
        requires
            i < self.list.files@.len(),
        ensures
            r == self@.content_matches(i as int, needle@),
    {
        let entry = &self.list.files[i];
        assert(self@.list.files[i as int] == entry@);
        match self.source.cache.raw_text(entry.path.as_str(), signature(entry)) {
            Some(raw) => search::count_matches(raw, needle, self.find.search_scope),
            None => 0,
        }
    }

    /// The files whose raw diff content search will need and that is not retained,
    /// of the `files` about to be filtered. The surrounding program fetches these
    /// before it hands over an edit of the query, or a scan, while one is searched
    /// for; a file whose diff can't be fetched counts no matches.
    pub fn missing_raw(&self, files: &Vec<FileEntry>) -> (r: Vec<usize>)
        ensures
            forall|i: int|
                0 <= i < files@.len() ==> (r@.contains(i as usize) <==> self@.lacks_text(
                    (#[trigger] files@[i])@,
                )),
            forall|k: int| 0 <= k < r@.len() ==> (#[trigger] r@[k]) < files@.len(),
            forall|a: int, b: int| 0 <= a < b < r@.len() ==> #[trigger] r@[a] < #[trigger] r@[b],
    {
        let mut out: Vec<usize> = Vec::new();
        let searching = match self.find.mode {
            Mode::Search => true,
            _ => self.is_content_search(),
        };
        let mut i: usize = 0;
        while i < files.len()
            invariant
                i <= files@.len(),
                searching == (self@.find.mode == Mode::Search || self@.is_content_search()),
                forall|j: int|
                    0 <= j < i ==> (out@.contains(j as usize) <==> (searching
                        && self@.source.cache.raw_text(
                        (#[trigger] files@[j])@.path,
                        signature_of(files@[j]@),
                    ) is None)),
                forall|k: int| 0 <= k < out@.len() ==> (#[trigger] out@[k]) < i,
                forall|a: int, b: int|
                    0 <= a < b < out@.len() ==> #[trigger] out@[a] < #[trigger] out@[b],
            decreases files@.len() - i,
        {
            let ghost was = out@;
            let missing = searching && match self.source.cache.raw_text(
                files[i].path.as_str(),
                signature(&files[i]),
            ) {
                Some(_) => false,
                None => true,
            };
            if missing {
                out.push(i);
            }
            proof {
                assert forall|j: int| 0 <= j < i + 1 implies (out@.contains(j as usize) <==> (
                searching && self@.source.cache.raw_text(
                    (#[trigger] files@[j])@.path,
                    signature_of(files@[j]@),
                ) is None)) by {
                    if missing {
                        assert(out@[was.len() as int] == i);
                        if was.contains(j as usize) {
                            let k = choose|k: int| 0 <= k < was.len() && was[k] == j as usize;
                            assert(out@[k] == j as usize);
                        }
                        if out@.contains(j as usize) && j < i {
                            let k = choose|k: int| 0 <= k < out@.len() && out@[k] == j as usize;
                            assert(was[k] == j as usize);
                        }
                    }
                }
            }
            i = i + 1;
        }
        out
    }

    /// Whether file `i` passes every filter but that on file types.
    fn passes_but_type(&self, i: usize, query: &Query, needle: &Option<String>) -> (r: bool)
        requires
            i < self.list.files@.len(),
            filter::patterns(query.includes@) == filter::query_patterns(
                search::filename_query(self@.find.search),
                false,
            ),
            filter::patterns(query.excludes@) == filter::query_patterns(
                search::filename_query(self@.find.search),
                true,
            ),
            txt::opt_text(*needle) == search::content_needle(self@.find.search),
        ensures
            r == self@.passes_but_type(i as int),
    {
        proof {
            reveal(State::passes_but_type);
        }
        let entry = &self.list.files[i];
        assert(self@.list.files[i as int] == entry@);
        if !query.matches(entry.path.as_str()) {
            return false;
        }
        if !self.find.kind_filter.is_empty() && !self.find.kind_filter.contains(entry.kind) {
            return false;
        }
        match needle {
            Some(n) => self.count_content_matches(i, n.as_str()) > 0,
            None => true,
        }
    }

    /// Whether file `i` passes the filter on file types.
    fn passes_type(&self, i: usize) -> (r: bool)
        requires
            i < self.list.files@.len(),
        ensures
            r == self@.passes_type(i),
    {
        proof {
            reveal(State::passes_type);
        }
        assert(self@.list.files[i as int] == self.list.files@[i as int]@);
        self.find.file_type_filter.is_empty() || match sort::file_extension(
            self.list.files[i].path.as_str(),
        ) {
            Some(e) => self.find.file_type_filter.contains(e.as_str()),
            None => false,
        }
    }

    /// Apply the filters to the file list.
    pub(crate) fn rebuild_filter(&mut self)
        requires
            old(self)@.steady(),
        ensures
            final(self)@ == old(self)@.rebuild_filter(),
            final(self)@.wf(),
    {
        proof {
            reveal(State::wf);
            reveal(State::steady);
            reveal(State::rebuild_filter);
        }
        let ghost s = self@;
        let (needle, path_query) = search::split_query(self.find.search.as_str());
        let query = Query::parse(path_query.as_str());
        let n = self.list.files.len();
        assert(s.list.files.len() == n);

        // Everything except the file-type filter: this also determines which
        // extensions are offered as chips, so deselecting one never makes its own
        // chip disappear.
        let mut picked: Vec<usize> = Vec::new();
        let mut i: usize = 0;
        assert(picked@ =~= s.passing_upto(0));
        while i < n
            invariant
                i <= n,
                n == self.list.files@.len(),
                self@ == s,
                s.list.files.len() == n,
                filter::patterns(query.includes@) == filter::query_patterns(
                    search::filename_query(s.find.search),
                    false,
                ),
                filter::patterns(query.excludes@) == filter::query_patterns(
                    search::filename_query(s.find.search),
                    true,
                ),
                txt::opt_text(needle) == search::content_needle(s.find.search),
                picked@ == s.passing_upto(i as int),
                forall|k: int| 0 <= k < picked@.len() ==> (#[trigger] picked@[k]) < n,
            decreases n - i,
        {
            if self.passes_but_type(i, &query, &needle) {
                picked.push(i);
            }
            i = i + 1;
        }
        let ghost all = picked@;
        assert(all == s.passing());

        let mut types: Vec<String> = Vec::new();
        let mut filtered: Vec<usize> = Vec::new();
        let mut k: usize = 0;
        assert(txt::texts(types@) =~= s.types_upto(all, 0));
        assert(filtered@ =~= s.typed_upto(all, 0));
        while k < picked.len()
            invariant
                k <= picked@.len(),
                n == self.list.files@.len(),
                self@ == s,
                all == picked@,
                forall|j: int| 0 <= j < picked@.len() ==> (#[trigger] picked@[j]) < n,
                txt::texts(types@) == s.types_upto(all, k as int),
                filtered@ == s.typed_upto(all, k as int),
                forall|j: int| 0 <= j < filtered@.len() ==> (#[trigger] filtered@[j]) < n,
            decreases picked@.len() - k,
        {
            let at = picked[k];
            assert(s.list.files[at as int] == self.list.files@[at as int]@);
            if let Some(e) = sort::file_extension(self.list.files[at].path.as_str()) {
                sort::add_name(&mut types, e);
            }
            if self.passes_type(at) {
                filtered.push(at);
            }
            k = k + 1;
        }
        let count = filtered.len();
        self.list.file_types = types;
        self.list.filtered = filtered;
        if self.list.selected >= count {
            self.list.selected = geometry::sub_size(count, 1);
        }
    }

    /// Re-filter after a filter edit, focusing the top of the (new) diff.
    pub(crate) fn apply_filter(&mut self)
        requires
            old(self)@.steady(),
        ensures
            final(self)@ == old(self)@.apply_filter(),
            final(self)@.wf(),
    {
        proof {
            reveal(State::apply_filter);
        }
        self.rebuild_filter();
        let ghost s = self@;
        self.list.selected = 0;
        self.pane.diff_scroll = 0;
        self.pane.restore_anchor = None;
        self.find.current_match = 0;
        self.find.pending_match_jump = self.is_content_search();
        self.pane.needs_rebuild = true;
        proof {
            state::lemma_wf(s, self@);
        }
    }

    /// Toggle whether `kind` is included in the active kind filter, re-filtering.
    /// Shared by the keyboard toggle and clicking a kind chip directly, so the two
    /// paths can never disagree.
    pub fn toggle_kind(&mut self, kind: ChangeKind)
        requires
            old(self)@.wf(),
        ensures
            final(self)@ == old(self)@.toggle_kind(kind),
            final(self)@.wf(),
    {
        proof {
            reveal(State::toggle_kind);
        }
        self.exit_history();
        self.find.kind_filter.toggle(kind);
        proof {
            state::lemma_wf(old(self)@, self@);
            self@.lemma_wf_is_steady();
        }
        self.apply_filter();
    }

    /// Toggle whether `ext` is included in the active file-type filter,
    /// re-filtering. The only entry point today is clicking a file-type chip; there
    /// is no keyboard equivalent.
    pub fn toggle_file_type(&mut self, ext: String)
        requires
            old(self)@.wf(),
        ensures
            final(self)@ == old(self)@.toggle_file_type(ext@),
            final(self)@.wf(),
    {
        proof {
            reveal(State::toggle_file_type);
        }
        self.exit_history();
        let ghost before = self.find.file_type_filter@;
        if !self.find.file_type_filter.remove(ext.as_str()) {
            self.find.file_type_filter.insert(ext.as_str());
            assert(before.remove(ext@) =~= before);
        }
        proof {
            state::lemma_wf(old(self)@, self@);
            self@.lemma_wf_is_steady();
        }
        self.apply_filter();
    }

    /// Drop back to the live diff (no-op when already there).
    pub fn exit_history(&mut self)
        ensures
            final(self)@ == old(self)@.with_history(None),
            final(self).history is None,
    {
        self.history = None;
    }

    // --- sorting ---------------------------------------------------------------

    pub(crate) fn sort_files(&mut self)
        ensures
            final(self)@ == old(self)@.sort_files(),
    {
        sort::order_entries(&mut self.list.files, self.list.sort_field, self.list.sort_desc);
    }

    fn resort_preserving(&mut self)
        requires
            old(self)@.wf(),
        ensures
            final(self)@ == old(self)@.resort_preserving(),
            final(self)@.wf(),
    {
        self.pane.restore_anchor = self.current_anchor();
        self.sort_files();
        proof {
            old(self)@.lemma_wf_is_steady();
            state::lemma_steady(old(self)@, self@);
        }
        self.rebuild_filter();
        let ghost s = self@;
        self.pane.needs_rebuild = true;
        self.save_config();
        proof {
            state::lemma_wf(s, self@);
        }
    }

    /// Flash the new sort order in the footer (mirrors the theme/follow cues).
    fn announce_sort(&mut self)
        ensures
            final(self)@ == old(self)@.announce_sort(),
    {
        let mut message = "sort: ".to_owned();
        message.append(self.list.sort_field.indicator(self.list.sort_desc).as_str());
        self.set_status(message);
    }

    pub fn cycle_sort_field(&mut self)
        requires
            old(self)@.wf(),
        ensures
            final(self)@ == old(self)@.cycle_sort_field(),
            final(self)@.wf(),
    {
        proof {
            reveal(State::cycle_sort_field);
        }
        self.exit_history();
        self.list.sort_field = self.list.sort_field.next();
        proof {
            state::lemma_wf(old(self)@, self@);
        }
        self.resort_preserving();
        let ghost s = self@;
        self.announce_sort();
        proof {
            state::lemma_wf(s, self@);
        }
    }

    pub fn toggle_sort_dir(&mut self)
        requires
            old(self)@.wf(),
        ensures
            final(self)@ == old(self)@.toggle_sort_dir(),
            final(self)@.wf(),
    {
        proof {
            reveal(State::toggle_sort_dir);
        }
        self.exit_history();
        self.list.sort_desc = !self.list.sort_desc;
        proof {
            state::lemma_wf(old(self)@, self@);
        }
        self.resort_preserving();
        let ghost s = self@;
        self.announce_sort();
        proof {
            state::lemma_wf(s, self@);
        }
    }

    // --- theme & diff mode -----------------------------------------------------

    /// Cycle the syntax theme (`dir` = +1 forward, -1 back), clearing the render
    /// cache so every diff re-renders with the new theme, and persisting it.
    pub fn cycle_theme(&mut self, dir: i32)
        requires
            old(self)@.wf(),
            theme_step_fits(old(self)@.source.theme, dir as int),
        ensures
            final(self)@ == old(self)@.cycle_theme(dir as int),
            final(self)@.wf(),
    {
        proof {
            reveal(State::cycle_theme);
        }
        let theme = next_theme(&self.source.theme, dir);
        let mut message = "theme: ".to_owned();
        message.append(theme.as_str());
        self.source.theme = Some(theme);
        self.set_status(message);
        self.source.cache.clear();
        if let Some(h) = &mut self.history {
            h.cache = Table::new();
            // Forces a re-render on the next build.
            h.built_width = 0;
        }
        proof {
            old(self)@.lemma_wf_with_history(self@);
        }
        self.pane.restore_anchor = self.current_anchor();
        let ghost s = self@;
        self.pane.needs_rebuild = true;
        self.save_config();
        proof {
            old(self)@.lemma_wf_with_history(self@);
        }
    }

    /// Toggle between working-tree changes and base-branch changes.
    pub fn toggle_diff_mode(&mut self)
        requires
            old(self)@.wf(),
        ensures
            final(self)@ == old(self)@.toggle_diff_mode(),
            final(self)@.wf(),
    {
        self.source.diff_mode = self.source.diff_mode.toggled();
        self.list.selected = 0;
        self.pane.diff_scroll = 0;
        self.pane.restore_anchor = None;
        self.cues.behind_dirty = true;
        self.queue.scan_pending = true;
        self.queue.save_pending = true;
        proof {
            old(self)@.lemma_wf_selected();
            state::lemma_wf(old(self)@, self@);
        }
    }

    // --- loading ---------------------------------------------------------------

    fn begin_refresh(&mut self)
        requires
            old(self)@.wf(),
        ensures
            final(self)@ == old(self)@.begin_refresh(),
            final(self)@.wf(),
    {
        self.pane.restore_anchor = self.current_anchor();
        self.queue.scan_pending = false;
        proof {
            state::lemma_wf(old(self)@, self@);
        }
    }

    /// The diff base that taking over `scan` will give.
    pub fn base_after(&self, scan: &Scan) -> (r: String)
        ensures
            r@ == self@.with_base(scan@.has_head, scan@.branch).source.base,
    {
        match (self.source.diff_mode, &scan.branch) {
            (DiffMode::BaseBranch, Some((_, merge_base))) => merge_base.clone(),
            _ => commits::diff_base(scan.has_head),
        }
    }

    /// Take over the diff base that was found.
    fn set_base(&mut self, has_head: bool, branch: Option<(String, String)>)
        requires
            old(self)@.wf(),
        ensures
            final(self)@ == old(self)@.with_base(
                has_head,
                match branch {
                    Some((b, m)) => Some((b@, m@)),
                    None => None,
                },
            ),
            final(self)@.wf(),
    {
        match self.source.diff_mode {
            DiffMode::Working => {
                self.source.base = commits::diff_base(has_head);
                self.source.base_label = "HEAD".to_owned();
            },
            DiffMode::BaseBranch => match branch {
                Some((branch, merge_base)) => {
                    self.source.base = merge_base;
                    self.source.base_label = branch;
                },
                None => {
                    // No base branch (no remote / single branch): fall back.
                    self.set_status("no base branch found — showing working changes".to_owned());
                    self.source.diff_mode = DiffMode::Working;
                    self.source.base = commits::diff_base(has_head);
                    self.source.base_label = "HEAD".to_owned();
                },
            },
        }
        proof {
            state::lemma_wf(old(self)@, self@);
        }
    }

    /// Take over the changed files.
    fn load(&mut self, files: Vec<FileEntry>)
        requires
            old(self)@.wf(),
        ensures
            final(self)@ == old(self)@.load(git::entries(files@)),
            final(self)@.wf(),
    {
        self.list.files = files;
        self.sort_files();
        proof {
            old(self)@.lemma_wf_is_steady();
            state::lemma_steady(old(self)@, self@);
        }
        self.rebuild_filter();
        let ghost s = self@;
        self.pane.needs_rebuild = true;
        proof {
            state::lemma_wf(s, self@);
        }
    }

    /// Take over the changed files, preserving the viewport position and marking
    /// the combined diff for rebuild.
    pub fn refresh(&mut self, scan: Scan)
        requires
            old(self)@.wf(),
        ensures
            final(self)@ == old(self)@.refresh(scan@),
            final(self)@.wf(),
    {
        let ghost found = scan@;
        self.begin_refresh();
        self.set_base(scan.has_head, scan.branch);
        match scan.files {
            Ok(files) => self.load(files),
            Err(message) => {
                let ghost s = self@;
                let mut text = "git error: ".to_owned();
                text.append(message.as_str());
                self.set_status(text);
                proof {
                    state::lemma_wf(s, self@);
                }
            },
        }
    }
}

/// The paths of the files that are new or newer than they were last seen.
fn touched_paths(files: &Vec<FileEntry>, seen: &Table<String, i128>) -> (r: Vec<String>)
    ensures
        txt::texts(r@) == touched(git::entries(files@), seen@),
{
    let ghost all = git::entries(files@);
    let mut out: Vec<String> = Vec::new();
    let mut i: usize = 0;
    assert(txt::texts(out@) =~= Seq::<Seq<char>>::empty());
    while i < files.len()
        invariant
            i <= files@.len(),
            all == git::entries(files@),
            txt::texts(out@) == touched_upto(all, seen@, i as int),
        decreases files@.len() - i,
    {
        assert(all[i as int] == files@[i as int]@);
        let newer = match seen.get(&files[i].path) {
            Some(t) => files[i].mtime > *t,
            None => true,
        };
        if newer {
            txt::push_text(&mut out, files[i].path.clone());
        }
        i = i + 1;
    }
    assert(all.len() == files@.len());
    out
}

/// The last of the most recently modified ones among the files whose path is one
/// of `among`.
fn newest(files: &Vec<FileEntry>, among: &Vec<String>) -> (r: Option<usize>)
    ensures
        match r {
            Some(i) => i < files@.len() && newest_upto(
                git::entries(files@),
                txt::texts(among@),
                files@.len() as int,
            ) == Some(i as int),
            None => newest_upto(git::entries(files@), txt::texts(among@), files@.len() as int)
                is None,
        },
{
    let ghost all = git::entries(files@);
    let ghost names = txt::texts(among@);
    let mut best: Option<usize> = None;
    let mut i: usize = 0;
    while i < files.len()
        invariant
            i <= files@.len(),
            all == git::entries(files@),
            names == txt::texts(among@),
            match best {
                Some(b) => b < i && newest_upto(all, names, i as int) == Some(b as int),
                None => newest_upto(all, names, i as int) is None,
            },
        decreases files@.len() - i,
    {
        assert(all[i as int] == files@[i as int]@);
        if txt::list_holds(among, files[i].path.as_str()) {
            best = match best {
                Some(b) => {
                    assert(all[b as int] == files@[b as int]@);
                    if files[b].mtime <= files[i].mtime {
                        Some(i)
                    } else {
                        Some(b)
                    }
                },
                None => Some(i),
            };
        }
        i = i + 1;
    }
    best
}

/// The paths of `files`.
fn path_list(files: &Vec<FileEntry>) -> (r: Vec<String>)
    ensures
        txt::texts(r@) == paths(git::entries(files@)),
{
    let ghost all = paths(git::entries(files@));
    let mut out: Vec<String> = Vec::new();
    let mut i: usize = 0;
    assert(txt::texts(out@) =~= all.take(0));
    while i < files.len()
        invariant
            i <= files@.len(),
            all == paths(git::entries(files@)),
            txt::texts(out@) == all.take(i as int),
        decreases files@.len() - i,
    {
        txt::push_text(&mut out, files[i].path.clone());
        assert(all.take(i as int + 1) =~= all.take(i as int).push(files@[i as int]@.path));
        i = i + 1;
    }
    assert(all.take(i as int) =~= all);
    out
}

impl App {
    /// Figure out which files really changed (by mtime) for the recently-changed cue
    /// and follow-latest.
    fn note_changes(&mut self)
        requires
            old(self)@.wf(),
        ensures
            final(self)@ == old(self)@.note_changes(),
            final(self)@.wf(),
    {
        let ghost s = self@;
        // Detect genuine content changes via mtime, and refresh the baseline.
        let changed = touched_paths(&self.list.files, &self.cues.last_mtimes);
        let ghost names = txt::texts(changed@);
        self.cues.last_mtimes = mtimes(&self.list.files);

        let ghost mid = self@;
        let ghost before = s.cues.recently_changed;
        let mut i: usize = 0;
        assert(before =~= before.union(names.take(0).to_set()));
        while i < changed.len()
            invariant
                i <= changed@.len(),
                names == txt::texts(changed@),
                mid.source.cache == s.source.cache,
                self@.source.cache == dropped_upto(s.source.cache, names, i as int),
                self@.cues.recently_changed == before.union(names.take(i as int).to_set()),
                self@ == (State {
                    source: SourceState { cache: self@.source.cache, ..mid.source },
                    cues: CueState {
                        recently_changed: self@.cues.recently_changed,
                        ..mid.cues
                    },
                    ..mid
                }),
            decreases changed@.len() - i,
        {
            assert(names[i as int] == changed@[i as int]@);
            self.source.cache.invalidate_path(changed[i].as_str());
            self.cues.recently_changed.insert(changed[i].as_str());
            proof {
                let a = names.take(i as int);
                let b = names.take(i as int + 1);
                assert(b =~= a.push(names[i as int]));
                assert forall|x: Seq<char>| #[trigger] b.to_set().contains(x) == (a.to_set().contains(
                    x,
                ) || x == names[i as int]) by {
                    if a.contains(x) {
                        let k = choose|k: int| 0 <= k < a.len() && a[k] == x;
                        assert(b[k] == x);
                    }
                    if x == names[i as int] {
                        assert(b[i as int] == x);
                    }
                    if b.contains(x) {
                        let k = choose|k: int| 0 <= k < b.len() && b[k] == x;
                        if k < i {
                            assert(a[k] == x);
                        }
                    }
                }
                assert(before.union(a.to_set()).insert(names[i as int]) =~= before.union(
                    b.to_set(),
                ));
            }
            i = i + 1;
        }
        assert(names.take(i as int) =~= names);

        // Forget cues for paths no longer in the changeset.
        let known = path_list(&self.list.files);
        self.cues.recently_changed.retain_in(&known);
        assert(self@.cues.recently_changed =~= before.union(names.to_set()).filter(
            |p: Seq<char>| paths(s.list.files).contains(p),
        ));

        // Follow-latest: jump to the most recently modified changed file.
        if let Some(at) = newest(&self.list.files, &changed) {
            if self.control.follow {
                assert(s.list.files[at as int] == self.list.files@[at as int]@);
                self.pane.restore_anchor = Some((self.list.files[at].path.clone(), 0));
            }
        }
        proof {
            state::lemma_wf(s, self@);
        }
    }

    /// React to a change signal: take over the reloaded files, then figure out
    /// which files really changed (by mtime) for the recently-changed cue and
    /// follow-latest.
    pub fn on_fs_change(&mut self, scan: Scan)
        requires
            old(self)@.wf(),
        ensures
            final(self)@ == old(self)@.on_fs_change(scan@),
            final(self)@.wf(),
    {
        self.cues.behind_dirty = true;
        proof {
            state::lemma_wf(old(self)@, self@);
        }
        self.refresh(scan);
        self.note_changes();
    }
}

} // verus!
