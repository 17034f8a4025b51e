//! The application: its data, its queries, and scrolling.
//!
//! Each method's effect is the action of the same name on the [`State`] that the
//! application stands for. What only the surrounding program can do (run git and
//! delta, write the settings) is queued in fields for it to pick up.

use vstd::prelude::*;
use crate::commits;
use crate::commits::HistoryEntry;
use crate::config;
use crate::config::{Config, DiffMode};
use crate::delta::DiffCache;
use crate::geometry;
use crate::git;
use crate::git::FileEntry;
use crate::rich::Text;
use crate::search::Scope;
use crate::sort::SortField;
use crate::state::{
    AppMatch, Control, CueState, FindState, KindSet, ListState, Marquee, Mode, NoteState, PaneState, Past,
    Pointer, QueueState, Screen, SourceState, State,
};
use crate::table::{NameSet, Table};
use crate::txt;

verus! {

/// Per-file commit-history browsing state. `Some` overrides the diff pane with a
/// single historical commit's diff; `None` is the normal live view. All live state
/// stays intact underneath, so every exit path is just dropping this struct.
pub struct HistoryView {
    /// Live changeset path this history belongs to; the view exits when the
    /// selection moves off it.
    pub path: String,
    /// Commits that touched the file, newest first.
    pub entries: Vec<HistoryEntry>,
    /// Index into `entries` currently shown (0 = newest commit).
    pub pos: usize,
    /// Rendered diff for `entries[pos]`, wrapped at `built_width`.
    pub text: Text,
    /// Vertical scroll offset within `text`.
    pub scroll: u16,
    /// Width `text` was rendered at; a mismatch forces a re-render.
    pub built_width: u16,
    /// Rendered diffs per commit hash: commits are immutable, so entries only
    /// clear on theme change or resize (rendering is width-dependent).
    pub cache: Table<String, Text>,
}

impl View for HistoryView {
    type V = Past;

    open spec fn view(&self) -> Past {
        Past {
            path: self.path@,
            entries: commits::commits(self.entries@),
            pos: self.pos as int,
            text: self.text@,
            scroll: self.scroll as int,
            built_width: self.built_width as int,
            cache: self.cache@,
        }
    }
}

/// The history a view shows.
pub open spec fn past(h: Option<HistoryView>) -> Option<Past> {
    match h {
        Some(h) => Some(h@),
        None => None,
    }
}

/// The position an anchor stands for.
pub open spec fn anchored(a: Option<(String, u16)>) -> Option<(Seq<char>, int)> {
    match a {
        Some((path, at)) => Some((path@, at as int)),
        None => None,
    }
}

/// What is diffed and how it is rendered.
pub struct Source {
    /// Diff base: `HEAD`/empty tree in working mode, or the merge base in
    /// base-branch mode.
    pub base: String,
    /// Human-readable label for the current base (e.g. "HEAD" or "origin/main").
    pub base_label: String,
    /// What the diff is taken against.
    pub diff_mode: DiffMode,
    /// delta syntax-theme override; `None` means "use gitconfig".
    pub theme: Option<String>,
    /// Spaces a tab expands to in the diff.
    pub tab_width: u16,
    /// The tab width to persist; another may hold for this run.
    pub saved_tab_width: u16,
    pub cache: DiffCache,
}

impl View for Source {
    type V = SourceState;

    open spec fn view(&self) -> SourceState {
        SourceState {
            base: self.base@,
            base_label: self.base_label@,
            diff_mode: self.diff_mode,
            theme: txt::opt_text(self.theme),
            tab_width: self.tab_width,
            saved_tab_width: self.saved_tab_width,
            cache: self.cache@,
        }
    }
}

/// The changed files.
pub struct FileList {
    /// All changed files, in current sort order.
    pub files: Vec<FileEntry>,
    /// Indices into `files` matching the active search (all of them if none).
    pub filtered: Vec<usize>,
    /// Index into `filtered` of the file at the top of the diff viewport.
    pub selected: usize,
    pub sort_field: SortField,
    pub sort_desc: bool,
    /// Distinct extensions among files passing every other active filter: the
    /// chip list. Recomputed whenever the filter is rebuilt.
    pub file_types: Vec<String>,
}

impl View for FileList {
    type V = ListState;

    open spec fn view(&self) -> ListState {
        ListState {
            files: git::entries(self.files@),
            filtered: self.filtered@,
            selected: self.selected as int,
            sort_field: self.sort_field,
            sort_desc: self.sort_desc,
            file_types: txt::texts(self.file_types@),
        }
    }
}

/// What is searched and filtered for.
pub struct Finder {
    pub mode: Mode,
    pub search: String,
    /// Change kinds to show; empty = no filter (show all).
    pub kind_filter: KindSet,
    /// File extensions to show (lowercase, no dot); empty = no filter.
    pub file_type_filter: NameSet,
    /// Scope for content search: both, added-only, or deleted-only lines.
    pub search_scope: Scope,
    /// Content-search hits in the current combined diff, in order.
    pub matches: Vec<AppMatch>,
    /// Index into `matches` of the current n/N target.
    pub current_match: usize,
    /// One-shot: center the current match after the next matches rebuild (set on
    /// content-query edits for the live jump).
    pub pending_match_jump: bool,
}

impl View for Finder {
    type V = FindState;

    open spec fn view(&self) -> FindState {
        FindState {
            mode: self.mode,
            search: self.search@,
            kind_filter: self.kind_filter,
            file_type_filter: self.file_type_filter@,
            search_scope: self.search_scope,
            matches: self.matches@,
            current_match: self.current_match as int,
            pending_match_jump: self.pending_match_jump,
        }
    }
}

/// The combined diff and its viewport.
pub struct Pane {
    /// The concatenated diff of every filtered file, in order.
    pub combined: Text,
    /// Start line of each filtered file within `combined` (parallel to it).
    pub offsets: Vec<usize>,
    /// Vertical scroll offset within the combined diff.
    pub diff_scroll: u16,
    /// Inner dimensions of the diff pane, updated each draw.
    pub diff_width: u16,
    pub diff_viewport_height: u16,
    /// Set when the combined diff must be rebuilt (data/sort/filter changed).
    pub needs_rebuild: bool,
    /// Width the combined diff was last built at (rebuild on resize).
    pub built_width: u16,
    /// After a rebuild, restore the viewport onto this `(path, intra-file offset)`.
    pub restore_anchor: Option<(String, u16)>,
}

impl View for Pane {
    type V = PaneState;

    open spec fn view(&self) -> PaneState {
        PaneState {
            combined: self.combined@,
            offsets: self.offsets@,
            diff_scroll: self.diff_scroll as int,
            diff_width: self.diff_width,
            diff_viewport_height: self.diff_viewport_height,
            needs_rebuild: self.needs_rebuild,
            built_width: self.built_width,
            restore_anchor: anchored(self.restore_anchor),
        }
    }
}

/// What the user's attention is drawn to.
pub struct Cues {
    /// Paths changed on disk that the user hasn't looked at yet.
    pub recently_changed: NameSet,
    /// Last-seen mtime per path, to tell real content changes from the filesystem
    /// noise our own reads generate.
    pub last_mtimes: Table<String, i128>,
    /// Commits the base branch has that `HEAD` doesn't; `None` hides the cue.
    pub behind: Option<u64>,
    /// Set when the behind count should be recomputed (startup, mode toggle, fs
    /// change). The event loop owns the actual scheduling.
    pub behind_dirty: bool,
    /// Set when a background update has been installed (shown in the footer).
    pub update_ready: bool,
}

impl View for Cues {
    type V = CueState;

    open spec fn view(&self) -> CueState {
        CueState {
            recently_changed: self.recently_changed@,
            last_mtimes: self.last_mtimes@,
            behind: self.behind,
            behind_dirty: self.behind_dirty,
            update_ready: self.update_ready,
        }
    }
}

/// The footer's transient message.
pub struct Note {
    pub status: String,
    /// When the current status message was set (drives auto-expiry).
    pub since: Option<u64>,
}

impl View for Note {
    type V = NoteState;

    open spec fn view(&self) -> NoteState {
        NoteState { status: self.status@, since: self.since }
    }
}

/// What the surrounding program is to do.
pub struct Queue {
    /// Text queued to be copied to the clipboard.
    pub pending_copy: Option<String>,
    /// Set when the settings are to be persisted.
    pub save_pending: bool,
    /// Set when the repository is to be looked at again (mode toggle).
    pub scan_pending: bool,
    /// The file whose commit history is to be fetched.
    pub history_request: Option<String>,
    /// Set when the shown commit's diff is to be rendered.
    pub history_stale: bool,
}

impl View for Queue {
    type V = QueueState;

    open spec fn view(&self) -> QueueState {
        QueueState {
            pending_copy: txt::opt_text(self.pending_copy),
            save_pending: self.save_pending,
            scan_pending: self.scan_pending,
            history_request: txt::opt_text(self.history_request),
            history_stale: self.history_stale,
        }
    }
}

pub struct App {
    pub source: Source,
    pub list: FileList,
    pub find: Finder,
    pub pane: Pane,
    pub screen: Screen,
    pub pointer: Pointer,
    pub cues: Cues,
    pub marquee: Marquee,
    pub note: Note,
    /// Per-file commit-history overlay; `None` is the normal live view.
    pub history: Option<HistoryView>,
    pub control: Control,
    pub queue: Queue,
}

impl View for App {
    type V = State;

    open spec fn view(&self) -> State {
        State {
            source: self.source@,
            list: self.list@,
            find: self.find@,
            pane: self.pane@,
            screen: self.screen,
            pointer: self.pointer,
            cues: self.cues@,
            marquee: self.marquee,
            note: self.note@,
            history: past(self.history),
            control: self.control,
            queue: self.queue@,
        }
    }
}

impl App {
    // --- queries -----------------------------------------------------------------

    pub fn current_entry(&self) -> (r: Option<&FileEntry>)
        ensures
            match r {
                Some(e) => self@.current_entry() == Some(e@),
                None => self@.current_entry() is None,
            },
    {
        if self.list.selected < self.list.filtered.len() && self.list.filtered[self.list.selected] < self.list.files.len() {
            let i = self.list.filtered[self.list.selected];
            assert(git::entries(self.list.files@)[i as int] == self.list.files@[i as int]@);
            Some(&self.list.files[i])
        } else {
            None
        }
    }

    /// The `combined` line range the pane may show: the selected file's section
    /// while follow (focus) is on, the whole diff otherwise.
    pub fn view_window(&self) -> (r: (usize, usize))
        requires
            self@.wf(),
        ensures
            r.0 == self@.view_window().0,
            r.1 == self@.view_window().1,
            r.0 <= r.1,
    {
        proof {
            reveal(State::wf);
            reveal(State::steady);
        }
        let total = self.pane.combined.lines.len();
        assert(self@.pane.combined.len() == total);
        if !self.control.follow || self.pane.offsets.len() == 0 {
            return (0, total);
        }
        let start = if self.list.selected < self.pane.offsets.len() {
            self.pane.offsets[self.list.selected]
        } else {
            0
        };
        let end = if self.list.selected + 1 < self.pane.offsets.len() {
            self.pane.offsets[self.list.selected + 1]
        } else {
            total
        };
        (start, end)
    }

    pub(crate) fn max_scroll(&self) -> (r: u16)
        requires
            self@.wf(),
        ensures
            r == self@.max_scroll(),
    {
        proof {
            reveal(State::wf);
            reveal(State::steady);
        }
        let viewport = self.pane.diff_viewport_height as usize;
        if self.control.follow {
            // Focus view: stop when the file's last line reaches the bottom; a
            // window shorter than the viewport pins to the file's start.
            let (start, end) = self.view_window();
            return geometry::fit_16(start + geometry::sub_size(end - start, viewport));
        }
        let total = self.pane.combined.lines.len();
        assert(self@.pane.combined.len() == total);
        // Everything fits: no scrolling.
        if total <= viewport {
            return 0;
        }
        // Normally stop when the last line reaches the bottom of the viewport. But
        // also allow scrolling far enough that the *last file* can sit at the top;
        // otherwise a short final file could never be navigated to.
        let fit: usize = total - viewport;
        let n = self.pane.offsets.len();
        let last_file: usize = if n == 0 {
            0
        } else {
            self.pane.offsets[n - 1]
        };
        let furthest = if fit >= last_file {
            fit
        } else {
            last_file
        };
        geometry::fit_16(geometry::min_size(furthest, total - 1))
    }

    /// The current viewport position as `(path, offset within that file)`, so it
    /// can be restored after the combined diff is rebuilt.
    pub(crate) fn current_anchor(&self) -> (r: Option<(String, u16)>)
        requires
            self@.wf(),
        ensures
            anchored(r) == self@.current_anchor(),
    {
        proof {
            reveal(State::wf);
            reveal(State::steady);
        }
        if self.list.selected >= self.list.filtered.len() {
            return None;
        }
        let i = self.list.filtered[self.list.selected];
        assert(self@.list.filtered[self.list.selected as int] < self@.list.files.len());
        let base = if self.list.selected < self.pane.offsets.len() {
            geometry::fit_16(self.pane.offsets[self.list.selected])
        } else {
            0
        };
        assert(git::entries(self.list.files@)[i as int] == self.list.files@[i as int]@);
        Some((self.list.files[i].path.clone(), geometry::sub16(self.pane.diff_scroll, base)))
    }

    /// Index of the file whose section contains combined-diff line `line`.
    pub(crate) fn file_at_line(&self, line: usize) -> (r: usize)
        ensures
            r == self@.file_at_line(line as int),
            r < self.pane.offsets@.len() || r == 0,
    {
        let mut i: usize = 0;
        while i < self.pane.offsets.len() && self.pane.offsets[i] <= line
            invariant
                i <= self.pane.offsets@.len(),
                self@.section_from(line as int, 0) == self@.section_from(line as int, i as int),
            decreases self.pane.offsets@.len() - i,
        {
            i = i + 1;
        }
        geometry::sub_size(i, 1)
    }

    /// Scroll by nearly a full viewport, keeping one line of context.
    pub fn page(&self) -> (r: u16)
        ensures
            r == self@.page(),
    {
        geometry::max16(geometry::sub16(self.pane.diff_viewport_height, 1), 1)
    }

    /// The settings to persist, so the next run matches.
    pub fn config(&self) -> (r: Config)
        ensures
            r@ == self@.settings(),
    {
        Config {
            sort_field: self.list.sort_field,
            sort_desc: self.list.sort_desc,
            theme: self.source.theme.clone(),
            diff_mode: self.source.diff_mode,
            split_pct: self.screen.split_pct,
            follow: self.control.follow,
            auto_update: self.control.auto_update,
            tab_width: self.source.saved_tab_width,
            saved_tab_width: None,
            sidebar_collapsed: self.screen.sidebar_collapsed,
        }
    }

    // --- scrolling ---------------------------------------------------------------

    /// Clamp `diff_scroll` into the active view window: in focus mode the window's
    /// start is a lower bound, not just its end.
    pub(crate) fn clamp_scroll_to_window(&mut self)
        requires
            old(self)@.wf(),
        ensures
            final(self)@ == old(self)@.clamp_scroll_to_window(),
            final(self)@.wf(),
    {
        proof {
            reveal(State::wf);
            reveal(State::steady);
        }
        let (start, _) = self.view_window();
        let max = self.max_scroll();
        self.pane.diff_scroll = geometry::clamp16(self.pane.diff_scroll, geometry::fit_16(start), max);
    }

    /// Entering focus mode: snap the viewport to the selected file's start if it
    /// is currently outside that file's section; keep it otherwise.
    pub fn snap_into_focus(&mut self)
        requires
            old(self)@.wf(),
        ensures
            final(self)@ == old(self)@.snap_into_focus(),
            final(self)@.wf(),
    {
        proof {
            reveal(State::wf);
            reveal(State::steady);
        }
        let (start, end) = self.view_window();
        let s = self.pane.diff_scroll as usize;
        if s < start || s >= end {
            self.pane.diff_scroll = geometry::fit_16(start);
        }
        self.clamp_scroll_to_window();
    }

    /// Set `selected` to whichever file's section contains the top of the viewport.
    pub fn update_selected_from_scroll(&mut self)
        requires
            old(self)@.wf(),
        ensures
            final(self)@ == old(self)@.update_selected_from_scroll(),
            final(self)@.wf(),
    {
        proof {
            reveal(State::wf);
            reveal(State::steady);
        }
        if self.pane.offsets.len() == 0 {
            self.list.selected = 0;
            return;
        }
        // Focus view: the window is derived FROM the selection; deriving the
        // selection back from the scroll would be circular and can misfire while
        // the scroll is being clamped into a newly selected window.
        if self.control.follow {
            return;
        }
        self.list.selected = self.file_at_line(self.pane.diff_scroll as usize);
    }

    pub(crate) fn scroll_to_selected(&mut self)
        requires
            old(self)@.wf(),
        ensures
            final(self)@ == old(self)@.scroll_to_selected(),
            final(self)@.wf(),
    {
        proof {
            reveal(State::wf);
            reveal(State::steady);
        }
        if self.list.selected < self.pane.offsets.len() {
            let off = geometry::fit_16(self.pane.offsets[self.list.selected]);
            self.pane.diff_scroll = geometry::min16(off, self.max_scroll());
        }
    }

    /// Shows the live view at the section of file `i`.
    pub(crate) fn select(&mut self, i: usize)
        requires
            old(self)@.wf(),
            i < usize::MAX,
        ensures
            final(self)@ == old(self)@.select(i as int),
            final(self)@.wf(),
    {
        proof {
            reveal(State::wf);
            reveal(State::steady);
        }
        self.history = None;
        self.list.selected = i;
        self.scroll_to_selected();
    }

    /// Jump the viewport to the next file in the table of contents.
    pub fn select_next(&mut self)
        requires
            old(self)@.wf(),
        ensures
            final(self)@ == old(self)@.select_next(),
            final(self)@.wf(),
    {
        proof {
            reveal(State::wf);
            reveal(State::steady);
        }
        if self.list.selected + 1 < self.list.filtered.len() {
            self.select(self.list.selected + 1);
        }
    }

    /// Jump the viewport to the previous file in the table of contents.
    pub fn select_prev(&mut self)
        requires
            old(self)@.wf(),
        ensures
            final(self)@ == old(self)@.select_prev(),
            final(self)@.wf(),
    {
        if self.list.selected > 0 {
            self.select(self.list.selected - 1);
        }
    }

    pub fn scroll_down(&mut self, amount: u16)
        requires
            old(self)@.wf(),
        ensures
            final(self)@ == old(self)@.scroll_down(amount as int),
            final(self)@.wf(),
    {
        proof {
            reveal(State::wf);
            reveal(State::steady);
        }
        if let Some(h) = &mut self.history {
            let max = geometry::history_max_scroll(h.text.lines.len(), self.pane.diff_viewport_height);
            h.scroll = geometry::min16(geometry::add16(h.scroll, amount), max);
            return;
        }
        // No window floor needed on downward moves: `max_scroll` already carries
        // the focus window's upper bound, and the scroll can only start inside the
        // window.
        let max = self.max_scroll();
        self.pane.diff_scroll = geometry::min16(
            geometry::add16(self.pane.diff_scroll, amount),
            max,
        );
        self.update_selected_from_scroll();
    }

    pub fn scroll_up(&mut self, amount: u16)
        requires
            old(self)@.wf(),
        ensures
            final(self)@ == old(self)@.scroll_up(amount as int),
            final(self)@.wf(),
    {
        proof {
            reveal(State::wf);
            reveal(State::steady);
        }
        if let Some(h) = &mut self.history {
            h.scroll = geometry::sub16(h.scroll, amount);
            return;
        }
        self.pane.diff_scroll = geometry::sub16(self.pane.diff_scroll, amount);
        self.clamp_scroll_to_window();
        self.update_selected_from_scroll();
    }

    pub fn scroll_home(&mut self)
        requires
            old(self)@.wf(),
        ensures
            final(self)@ == old(self)@.scroll_home(),
            final(self)@.wf(),
    {
        proof {
            reveal(State::wf);
            reveal(State::steady);
        }
        if let Some(h) = &mut self.history {
            h.scroll = 0;
            return;
        }
        let (start, _) = self.view_window();
        self.pane.diff_scroll = geometry::fit_16(start);
        self.update_selected_from_scroll();
    }

    pub fn scroll_end(&mut self)
        requires
            old(self)@.wf(),
        ensures
            final(self)@ == old(self)@.scroll_end(),
            final(self)@.wf(),
    {
        proof {
            reveal(State::wf);
            reveal(State::steady);
        }
        if let Some(h) = &mut self.history {
            h.scroll = geometry::history_max_scroll(h.text.lines.len(), self.pane.diff_viewport_height);
            return;
        }
        self.pane.diff_scroll = self.max_scroll();
        self.update_selected_from_scroll();
    }
}

impl App {
    // --- matches -----------------------------------------------------------------

    /// Center the viewport on the current match, if any. In focus mode the window
    /// is re-aimed at the match's file first, so cross-file jumps land visible.
    pub fn center_current_match(&mut self)
        requires
            old(self)@.wf(),
        ensures
            final(self)@ == old(self)@.center_current_match(),
            final(self)@.wf(),
    {
        proof {
            reveal(State::wf);
            reveal(State::steady);
        }
        if self.find.current_match >= self.find.matches.len() {
            return;
        }
        let m = self.find.matches[self.find.current_match];
        if self.control.follow {
            self.list.selected = m.file_pos;
        }
        let half: usize = self.pane.diff_viewport_height as usize / 2;
        self.pane.diff_scroll = geometry::fit_16(geometry::sub_size(m.row, half));
        self.clamp_scroll_to_window();
        self.update_selected_from_scroll();
    }

    /// The match `dir` steps on, wrapping around.
    fn match_after(&self, dir: i32) -> (r: usize)
        requires
            0 < self.find.matches@.len(),
        ensures
            r == self@.match_after(dir as int),
            r < self.find.matches@.len(),
    {
        let len = self.find.matches.len() as i128;
        let at: i128 = self.find.current_match as i128 + dir as i128;
        // The euclidean remainder, for a possibly negative position.
        let rem: i128 = if at >= 0 {
            at % len
        } else {
            let back: i128 = (-at) % len;
            if back == 0 {
                0
            } else {
                len - back
            }
        };
        proof {
            let n = len as int;
            let a = at as int;
            if a < 0 {
                let q = (-a) / n;
                let b = (-a) % n;
                assert(-a == q * n + b && 0 <= b < n) by (nonlinear_arith)
                    requires
                        q == (-a) / n,
                        b == (-a) % n,
                        n > 0,
                ;
                if b == 0 {
                    assert(a == (-q) * n + 0) by (nonlinear_arith)
                        requires
                            -a == q * n + b,
                            b == 0,
                    ;
                    vstd::arithmetic::div_mod::lemma_fundamental_div_mod_converse(a, n, -q, 0);
                } else {
                    assert(a == (-q - 1) * n + (n - b)) by (nonlinear_arith)
                        requires
                            -a == q * n + b,
                    ;
                    vstd::arithmetic::div_mod::lemma_fundamental_div_mod_converse(
                        a,
                        n,
                        -q - 1,
                        n - b,
                    );
                }
            }
        }
        rem as usize
    }

    /// Jump to the next (`dir` = 1) or previous (`dir` = -1) content match,
    /// wrapping around, and center its row in the viewport.
    pub fn next_match(&mut self, dir: i32)
        requires
            old(self)@.wf(),
        ensures
            final(self)@ == old(self)@.next_match(dir as int),
            final(self)@.wf(),
    {
        proof {
            reveal(State::wf);
            reveal(State::steady);
            reveal(State::next_match);
        }
        if self.find.matches.len() == 0 {
            return;
        }
        self.find.current_match = self.match_after(dir);
        self.center_current_match();
    }

    // --- messages ----------------------------------------------------------------

    /// Show a transient status message in the footer (auto-expires).
    pub fn set_status(&mut self, msg: String)
        ensures
            final(self)@ == old(self)@.set_status(msg@),
    {
        self.note = Note { status: msg, since: Some(self.control.clock) };
    }

    /// Note that a background update has been installed.
    pub fn set_update_ready(&mut self, msg: String)
        ensures
            final(self)@ == old(self)@.set_update_ready(msg@),
    {
        self.cues.update_ready = true;
        self.set_status(msg);
    }

    /// Clear the status once it has been shown long enough. Returns whether it
    /// cleared, so the event loop knows to redraw.
    pub fn status_tick(&mut self) -> (r: bool)
        ensures
            r == (old(self)@.note.status.len() > 0 && old(self)@.status_expired()),
            final(self)@ == old(self)@.status_tick(),
    {
        if self.note.status.as_str().is_empty() {
            return false;
        }
        let expired = match self.note.since {
            Some(t) => self.control.clock >= t && self.control.clock - t >= 4_000_000_000,
            None => true,
        };
        if expired {
            self.note = Note { status: String::new(), since: None };
            assert(self.note.status@ =~= Seq::<char>::empty());
        }
        expired
    }

    /// Restart the marquee scroll (called when the selection changes).
    pub fn marquee_reset(&mut self)
        ensures
            final(self)@ == old(self)@.marquee_reset(),
    {
        self.marquee.offset = 0;
        self.marquee.last = None;
    }

    /// Advance the marquee on a fixed timer. Returns whether it moved (so the event
    /// loop knows to redraw). Only meaningful while a long name is selected.
    pub fn marquee_step(&mut self) -> (r: bool)
        ensures
            r == old(self)@.marquee_due(),
            final(self)@ == old(self)@.marquee_step(),
    {
        let due = match self.marquee.last {
            Some(t) => self.control.clock >= t && self.control.clock - t >= 220_000_000,
            None => true,
        };
        if due {
            self.marquee.offset = if self.marquee.offset == usize::MAX {
                0
            } else {
                self.marquee.offset + 1
            };
            self.marquee.last = Some(self.control.clock);
            true
        } else {
            false
        }
    }

    /// Tell the application the time, in nanoseconds.
    pub fn set_clock(&mut self, now: u64)
        ensures
            final(self)@ == (State {
                control: Control { clock: now, ..old(self)@.control },
                ..old(self)@
            }),
    {
        self.control.clock = now;
    }

    /// Persist the current settings so the next run matches.
    pub(crate) fn save_config(&mut self)
        ensures
            final(self)@ == old(self)@.save_config(),
    {
        self.queue.save_pending = true;
    }

    /// Toggle follow-latest mode (a single-file focus view while on).
    pub fn toggle_follow(&mut self)
        requires
            old(self)@.wf(),
        ensures
            final(self)@ == old(self)@.toggle_follow(),
            final(self)@.wf(),
    {
        proof {
            reveal(State::toggle_follow);
            reveal(State::wf);
            reveal(State::steady);
        }
        self.control.follow = !self.control.follow;
        if self.control.follow {
            self.snap_into_focus();
            self.set_status("follow: on".to_owned());
        } else {
            self.set_status("follow: off".to_owned());
        }
        self.save_config();
    }

    /// Collapse or expand the file-list sidebar.
    pub fn toggle_sidebar(&mut self)
        ensures
            final(self)@ == old(self)@.toggle_sidebar(),
    {
        self.screen.sidebar_collapsed = !self.screen.sidebar_collapsed;
        self.save_config();
    }

    /// Mark the file at `path` as viewed, clearing its recently-changed cue.
    pub fn mark_viewed(&mut self, path: &str)
        ensures
            final(self)@ == old(self)@.mark_viewed(path@),
    {
        let _was = self.cues.recently_changed.remove(path);
    }
}

} // verus!
