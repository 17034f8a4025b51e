//! The model of the application: what it holds, and how each action changes it.
//!
//! The diff pane is a single continuous view of *all* changed files' diffs,
//! concatenated in the current sort order. The left-hand file list is a table of
//! contents: selecting a file jumps the scroll to that file's section, and as you
//! page through the combined diff the selection tracks whichever file is at the
//! top of the viewport.

use vstd::prelude::*;
use crate::commits::Commit;
use crate::config::{DiffMode, Settings};
use crate::delta::Cached;
use crate::geometry;
use crate::geometry::Rect;
use crate::git::{ChangeKind, Entry};
use crate::rich::Row;
use crate::search::Scope;
use crate::sort::SortField;

verus! {

// --- what the state is made of -------------------------------------------------

#[derive(Debug, Clone, Copy, PartialEq, Eq, Structural)]
pub enum Mode {
    Normal,
    Search,
    /// Toggling change-kind filters (entered with `c`).
    KindFilter,
}

/// A text selection in the shown diff, in `(line, column)` coordinates where
/// `line` indexes its lines and `column` is a char offset within it.
#[derive(Debug, Clone, Copy, PartialEq, Eq)]
pub struct Selection {
    pub anchor: (usize, usize),
    pub cursor: (usize, usize),
}

/// Whether position `a` is at or before position `b`.
pub open spec fn at_or_before(a: (usize, usize), b: (usize, usize)) -> bool {
    a.0 < b.0 || a.0 == b.0 && a.1 <= b.1
}

/// The ends of a selection, in order.
pub open spec fn ends(s: Selection) -> ((usize, usize), (usize, usize)) {
    if at_or_before(s.anchor, s.cursor) {
        (s.anchor, s.cursor)
    } else {
        (s.cursor, s.anchor)
    }
}

impl Selection {
    /// `(start, end)` ordered so start <= end.
    pub fn ordered(&self) -> (r: ((usize, usize), (usize, usize)))
        ensures
            r == ends(*self),
    {
        if self.anchor.0 < self.cursor.0 || self.anchor.0 == self.cursor.0 && self.anchor.1
            <= self.cursor.1 {
            (self.anchor, self.cursor)
        } else {
            (self.cursor, self.anchor)
        }
    }

    pub fn is_empty(&self) -> (r: bool)
        ensures
            r == (self.anchor == self.cursor),
    {
        self.anchor.0 == self.cursor.0 && self.anchor.1 == self.cursor.1
    }
}

/// A content-search hit located in the combined diff.
#[derive(Debug, Clone, Copy, PartialEq, Eq)]
pub struct AppMatch {
    /// Row in the combined diff (post-wrap).
    pub row: usize,
    /// Char-column range within that row.
    pub cols: (usize, usize),
    /// Index into the filtered files of the owning file.
    pub file_pos: usize,
    /// Whether the hit was precisely located (false = navigate to the file's
    /// section top, no highlight).
    pub aligned: bool,
}

/// A set of change kinds.
#[derive(Debug, Clone, Copy, PartialEq, Eq, Structural)]
pub struct KindSet {
    pub modified: bool,
    pub added: bool,
    pub deleted: bool,
    pub renamed: bool,
    pub untracked: bool,
}

/// Whether a set of kinds holds `kind`.
pub open spec fn has_kind(s: KindSet, kind: ChangeKind) -> bool {
    match kind {
        ChangeKind::Modified => s.modified,
        ChangeKind::Added => s.added,
        ChangeKind::Deleted => s.deleted,
        ChangeKind::Renamed => s.renamed,
        ChangeKind::Untracked => s.untracked,
    }
}

/// The set without kinds.
pub open spec fn no_kinds() -> KindSet {
    KindSet { modified: false, added: false, deleted: false, renamed: false, untracked: false }
}

/// A set of kinds with `kind` added, or removed if it was there.
pub open spec fn toggled_kind(s: KindSet, kind: ChangeKind) -> KindSet {
    match kind {
        ChangeKind::Modified => KindSet { modified: !s.modified, ..s },
        ChangeKind::Added => KindSet { added: !s.added, ..s },
        ChangeKind::Deleted => KindSet { deleted: !s.deleted, ..s },
        ChangeKind::Renamed => KindSet { renamed: !s.renamed, ..s },
        ChangeKind::Untracked => KindSet { untracked: !s.untracked, ..s },
    }
}

impl KindSet {
    /// The set without kinds.
    pub fn none() -> (r: KindSet)
        ensures
            r == no_kinds(),
    {
        KindSet { modified: false, added: false, deleted: false, renamed: false, untracked: false }
    }

    pub fn is_empty(&self) -> (r: bool)
        ensures
            r == (*self == no_kinds()),
    {
        !self.modified && !self.added && !self.deleted && !self.renamed && !self.untracked
    }

    pub fn contains(&self, kind: ChangeKind) -> (r: bool)
        ensures
            r == has_kind(*self, kind),
    {
        match kind {
            ChangeKind::Modified => self.modified,
            ChangeKind::Added => self.added,
            ChangeKind::Deleted => self.deleted,
            ChangeKind::Renamed => self.renamed,
            ChangeKind::Untracked => self.untracked,
        }
    }

    /// Adds `kind`, or removes it if it is there.
    pub fn toggle(&mut self, kind: ChangeKind)
        ensures
            *final(self) == toggled_kind(*old(self), kind),
    {
        match kind {
            ChangeKind::Modified => self.modified = !self.modified,
            ChangeKind::Added => self.added = !self.added,
            ChangeKind::Deleted => self.deleted = !self.deleted,
            ChangeKind::Renamed => self.renamed = !self.renamed,
            ChangeKind::Untracked => self.untracked = !self.untracked,
        }
    }
}

/// Which clickable element (if any) is under the mouse cursor.
#[verifier::ext_equal]
pub enum Target {
    KindChip(ChangeKind),
    FileType(Seq<char>),
    SortLabel,
    SortArrow,
    /// Index into the filtered files.
    FileRow(int),
}

/// A view of a file's commit history.
pub struct Past {
    /// Live changeset path this history belongs to.
    pub path: Seq<char>,
    /// Commits that touched the file, newest first.
    pub entries: Seq<Commit>,
    /// The commit currently shown.
    pub pos: int,
    /// The rendered diff of that commit.
    pub text: Seq<Row>,
    /// Vertical scroll offset within the text.
    pub scroll: int,
    /// Width the text was rendered at.
    pub built_width: int,
    /// Rendered diffs per commit hash.
    pub cache: Map<Seq<char>, Seq<Row>>,
}

/// What a look at the repository found.
pub struct Found {
    /// Whether there is a commit.
    pub has_head: bool,
    /// The base branch and the merge base with it.
    pub branch: Option<(Seq<char>, Seq<char>)>,
    /// The changed files, or git's error.
    pub files: Result<Seq<Entry>, Seq<char>>,
}

/// What is diffed and how it is rendered.
pub struct SourceState {
    pub base: Seq<char>,
    pub base_label: Seq<char>,
    pub diff_mode: DiffMode,
    pub theme: Option<Seq<char>>,
    pub tab_width: u16,
    pub saved_tab_width: u16,
    pub cache: Cached,
}

/// The changed files.
pub struct ListState {
    pub files: Seq<Entry>,
    pub filtered: Seq<usize>,
    pub selected: int,
    pub sort_field: SortField,
    pub sort_desc: bool,
    pub file_types: Seq<Seq<char>>,
}

/// What is searched and filtered for.
pub struct FindState {
    pub mode: Mode,
    pub search: Seq<char>,
    pub kind_filter: KindSet,
    pub file_type_filter: Set<Seq<char>>,
    pub search_scope: Scope,
    pub matches: Seq<AppMatch>,
    pub current_match: int,
    pub pending_match_jump: bool,
}

/// The combined diff and its viewport.
pub struct PaneState {
    pub combined: Seq<Row>,
    pub offsets: Seq<usize>,
    pub diff_scroll: int,
    pub diff_width: u16,
    pub diff_viewport_height: u16,
    pub needs_rebuild: bool,
    pub built_width: u16,
    pub restore_anchor: Option<(Seq<char>, int)>,
}

/// The panes on the screen.
#[derive(Debug, Clone, Copy, PartialEq, Eq, Structural)]
pub struct Screen {
    /// Left-pane width as a percentage of the terminal.
    pub split_pct: u16,
    /// Hide the file-list sidebar entirely.
    pub sidebar_collapsed: bool,
    /// Pane rectangles from the last render, for mouse hit-testing.
    pub area_main: Rect,
    pub area_left: Rect,
    pub area_right: Rect,
    /// The file list's scroll offset from the last render, for click mapping.
    pub list_offset: usize,
}

/// The mouse and the text it selects.
#[derive(Debug, Clone, Copy, PartialEq, Eq)]
pub struct Pointer {
    pub dragging_divider: bool,
    /// `(col, row)` of the last mouse move, or `None` if the mouse hasn't moved
    /// yet. What it resolves to is computed on demand, not cached here.
    pub hover_pos: Option<(u16, u16)>,
    /// Active text selection in the diff pane, if any.
    pub selection: Option<Selection>,
    pub selecting: bool,
    /// Auto-scroll direction while dragging a selection past an edge: -1 up, +1
    /// down, 0 none.
    pub sel_autoscroll: i32,
}

/// What the user's attention is drawn to.
pub struct CueState {
    pub recently_changed: Set<Seq<char>>,
    pub last_mtimes: Map<Seq<char>, i128>,
    pub behind: Option<u64>,
    pub behind_dirty: bool,
    pub update_ready: bool,
}

/// The scrolling of the selected file's long name.
#[derive(Debug, Clone, Copy, PartialEq, Eq)]
pub struct Marquee {
    /// Whether the selected file's name overflows its column.
    pub active_path_overflow: bool,
    pub offset: usize,
    /// Selection the marquee is tracking, to reset the scroll on change.
    pub sel: usize,
    /// When the marquee last moved.
    pub last: Option<u64>,
}

/// The footer's transient message.
pub struct NoteState {
    pub status: Seq<char>,
    pub since: Option<u64>,
}

/// The program's switches.
#[derive(Debug, Clone, Copy, PartialEq, Eq, Structural)]
pub struct Control {
    /// Follow-latest: jump to files as they change on disk.
    pub follow: bool,
    /// Persisted auto-update preference (carried through for saving).
    pub auto_update: bool,
    pub show_help: bool,
    pub should_quit: bool,
    /// The time in nanoseconds, as the event loop last told it.
    pub clock: u64,
}

/// What the surrounding program is to do.
pub struct QueueState {
    pub pending_copy: Option<Seq<char>>,
    pub save_pending: bool,
    pub scan_pending: bool,
    pub history_request: Option<Seq<char>>,
    pub history_stale: bool,
}

/// The state of the application.
pub struct State {
    pub source: SourceState,
    pub list: ListState,
    pub find: FindState,
    pub pane: PaneState,
    pub screen: Screen,
    pub pointer: Pointer,
    pub cues: CueState,
    pub marquee: Marquee,
    pub note: NoteState,
    /// Per-file commit-history overlay; `None` is the normal live view.
    pub history: Option<Past>,
    pub control: Control,
    pub queue: QueueState,
}

impl State {
    /// With file `i` of the list selected.
    pub open spec fn with_selected(self, i: int) -> State {
        State { list: ListState { selected: i, ..self.list }, ..self }
    }

    /// With the combined diff scrolled to `line`.
    pub open spec fn with_scroll(self, line: int) -> State {
        State { pane: PaneState { diff_scroll: line, ..self.pane }, ..self }
    }

    /// With the given history shown, or the live view.
    pub open spec fn with_history(self, h: Option<Past>) -> State {
        State { history: h, ..self }
    }

    /// With follow-latest on or off.
    pub open spec fn with_follow(self, on: bool) -> State {
        State { control: Control { follow: on, ..self.control }, ..self }
    }

    /// With match `i` current.
    pub open spec fn with_match(self, i: int) -> State {
        State { find: FindState { current_match: i, ..self.find }, ..self }
    }

    /// With the viewport to be restored onto `anchor` after the next build.
    pub open spec fn with_anchor(self, anchor: Option<(Seq<char>, int)>) -> State {
        State { pane: PaneState { restore_anchor: anchor, ..self.pane }, ..self }
    }

    /// With the combined diff to be rebuilt.
    pub open spec fn with_rebuild(self) -> State {
        State { pane: PaneState { needs_rebuild: true, ..self.pane }, ..self }
    }

    /// Whether what does not speak of the file list fits together: sections follow
    /// each other within the combined diff, and a history shows one of its commits.
    #[verifier::opaque]
    pub open spec fn steady(self) -> bool {
        &&& forall|i: int, j: int|
            0 <= i <= j < self.pane.offsets.len() ==> #[trigger] self.pane.offsets[i]
                <= #[trigger] self.pane.offsets[j]
        &&& forall|i: int|
            0 <= i < self.pane.offsets.len() ==> #[trigger] self.pane.offsets[i]
                <= self.pane.combined.len()
        &&& forall|i: int|
            0 <= i < self.find.matches.len() ==> (#[trigger] self.find.matches[i]).file_pos
                < usize::MAX
        &&& 0 <= self.list.selected < usize::MAX
        &&& self.history matches Some(h) ==> 0 <= h.pos < h.entries.len()
    }

    /// Whether the parts of the state fit together: besides, the filtered files
    /// exist.
    #[verifier::opaque]
    pub open spec fn wf(self) -> bool {
        &&& self.steady()
        &&& forall|i: int|
            0 <= i < self.list.filtered.len() ==> #[trigger] self.list.filtered[i]
                < self.list.files.len()
    }

    /// A state in shape is in shape without regard to its files.
    pub proof fn lemma_wf_is_steady(self)
        requires
            self.wf(),
        ensures
            self.steady(),
    {
        reveal(State::wf);
    }

    /// The selection of a state in shape is a number that can be counted on from.
    pub proof fn lemma_wf_selected(self)
        requires
            self.wf(),
        ensures
            0 <= self.list.selected < usize::MAX,
    {
        reveal(State::wf);
        reveal(State::steady);
    }

    /// A state stays in shape while its sections, hits and files stay and its
    /// history shows the same commit.
    pub proof fn lemma_wf_with_history(self, b: State)
        requires
            self.wf(),
            b.pane.offsets == self.pane.offsets,
            b.pane.combined == self.pane.combined,
            b.find.matches == self.find.matches,
            b.list == self.list,
            match (self.history, b.history) {
                (Some(x), Some(y)) => y.pos == x.pos && y.entries == x.entries,
                (None, Some(_)) => false,
                _ => true,
            },
        ensures
            b.wf(),
    {
        reveal(State::wf);
        reveal(State::steady);
    }

    // --- queries -----------------------------------------------------------------

    /// The selected file, if there is one.
    pub open spec fn current_entry(self) -> Option<Entry> {
        if self.list.selected < self.list.filtered.len() && self.list.filtered[self.list.selected] < self.list.files.len() {
            Some(self.list.files[self.list.filtered[self.list.selected] as int])
        } else {
            None
        }
    }

    /// The start of the selected file's section.
    pub open spec fn section_start(self) -> int {
        if self.list.selected < self.pane.offsets.len() {
            self.pane.offsets[self.list.selected] as int
        } else {
            0
        }
    }

    /// The end of the selected file's section.
    pub open spec fn section_end(self) -> int {
        if self.list.selected + 1 < self.pane.offsets.len() {
            self.pane.offsets[self.list.selected + 1] as int
        } else {
            self.pane.combined.len() as int
        }
    }

    /// The line range the pane may show: the selected file's section while follow
    /// (focus) is on, the whole diff otherwise.
    pub open spec fn view_window(self) -> (int, int) {
        if !self.control.follow || self.pane.offsets.len() == 0 {
            (0, self.pane.combined.len() as int)
        } else {
            (self.section_start(), self.section_end())
        }
    }

    /// The furthest scroll, within what scroll offsets reach. In focus the file's last
    /// line stops at the bottom of the viewport, and a window shorter than the viewport
    /// pins to the file's start. Without focus the last line stops at the bottom of the
    /// viewport, but the last file may also sit at its top.
    pub open spec fn max_scroll(self) -> int {
        let (start, end) = self.view_window();
        let viewport = self.pane.diff_viewport_height as int;
        let total = self.pane.combined.len() as int;
        let last_file = if self.pane.offsets.len() == 0 {
            0
        } else {
            self.pane.offsets.last() as int
        };
        geometry::fit16(
            if self.control.follow {
                start + geometry::minus(end - start, viewport)
            } else if total <= viewport {
                0
            } else {
                geometry::lesser(geometry::greater(total - viewport, last_file), total - 1)
            },
        )
    }

    /// The current viewport position as a path and the offset within that file's
    /// section.
    pub open spec fn current_anchor(self) -> Option<(Seq<char>, int)> {
        if self.list.selected < self.list.filtered.len() {
            Some(
                (
                    self.list.files[self.list.filtered[self.list.selected] as int].path,
                    geometry::minus(self.pane.diff_scroll, self.section_start()),
                ),
            )
        } else {
            None
        }
    }

    /// How far the sections from `i` on start at or before `line`.
    pub open spec fn section_from(self, line: int, i: int) -> int
        decreases self.pane.offsets.len() - i,
    {
        if 0 <= i < self.pane.offsets.len() && self.pane.offsets[i] <= line {
            self.section_from(line, i + 1)
        } else {
            i
        }
    }

    /// The file whose section contains `line`.
    pub open spec fn file_at_line(self, line: int) -> int {
        geometry::minus(self.section_from(line, 0), 1)
    }

    /// A page: nearly a full viewport, keeping one line of context.
    pub open spec fn page(self) -> int {
        geometry::greater(geometry::minus(self.pane.diff_viewport_height as int, 1), 1)
    }

    /// The settings to persist.
    pub open spec fn settings(self) -> Settings {
        Settings {
            sort_field: self.list.sort_field,
            sort_desc: self.list.sort_desc,
            theme: self.source.theme,
            diff_mode: self.source.diff_mode,
            split_pct: self.screen.split_pct,
            follow: self.control.follow,
            auto_update: self.control.auto_update,
            tab_width: self.source.saved_tab_width,
            saved_tab_width: None,
            sidebar_collapsed: self.screen.sidebar_collapsed,
        }
    }

    // --- scrolling ---------------------------------------------------------------

    /// With the scroll moved into the active view window.
    pub open spec fn clamp_scroll_to_window(self) -> State {
        self.with_scroll(
            geometry::clamped(
                self.pane.diff_scroll,
                geometry::fit16(self.view_window().0),
                self.max_scroll(),
            ),
        )
    }

    /// With the viewport at the selected file's start if it is outside that file's
    /// section.
    pub open spec fn snap_into_focus(self) -> State {
        let (start, end) = self.view_window();
        (if self.pane.diff_scroll < start || self.pane.diff_scroll >= end {
            self.with_scroll(geometry::fit16(start))
        } else {
            self
        }).clamp_scroll_to_window()
    }

    /// With the file at the top of the viewport selected. In focus mode the window
    /// is derived from the selection, so the selection stays.
    pub open spec fn update_selected_from_scroll(self) -> State {
        if self.pane.offsets.len() == 0 {
            self.with_selected(0)
        } else if self.control.follow {
            self
        } else {
            self.with_selected(self.file_at_line(self.pane.diff_scroll))
        }
    }

    /// With the viewport at the selected file's section.
    pub open spec fn scroll_to_selected(self) -> State {
        if self.list.selected < self.pane.offsets.len() {
            self.with_scroll(
                geometry::lesser(
                    self.pane.offsets[self.list.selected] as int,
                    self.max_scroll(),
                ),
            )
        } else {
            self
        }
    }

    /// With file `i` selected, and the live view shown at its section.
    pub open spec fn select(self, i: int) -> State {
        self.with_history(None).with_selected(i).scroll_to_selected()
    }

    /// With the next file selected.
    pub open spec fn select_next(self) -> State {
        if self.list.selected + 1 < self.list.filtered.len() {
            self.select(self.list.selected + 1)
        } else {
            self
        }
    }

    /// With the previous file selected.
    pub open spec fn select_prev(self) -> State {
        if self.list.selected > 0 {
            self.select(self.list.selected - 1)
        } else {
            self
        }
    }

    /// The furthest scroll of a history view.
    pub open spec fn history_max(self, h: Past) -> int {
        geometry::last_screen(h.text.len() as int, self.pane.diff_viewport_height as int)
    }

    /// With the shown view scrolled down by `amount`.
    pub open spec fn scroll_down(self, amount: int) -> State {
        match self.history {
            Some(h) => self.with_history(
                Some(h.with_scroll(geometry::lesser(h.scroll + amount, self.history_max(h)))),
            ),
            None => self.with_scroll(
                geometry::lesser(self.pane.diff_scroll + amount, self.max_scroll()),
            ).update_selected_from_scroll(),
        }
    }

    /// With the shown view scrolled up by `amount`.
    pub open spec fn scroll_up(self, amount: int) -> State {
        match self.history {
            Some(h) => self.with_history(Some(h.with_scroll(geometry::minus(h.scroll, amount)))),
            None => self.with_scroll(
                geometry::minus(self.pane.diff_scroll, amount),
            ).clamp_scroll_to_window().update_selected_from_scroll(),
        }
    }

    /// With the shown view at its top.
    pub open spec fn scroll_home(self) -> State {
        match self.history {
            Some(h) => self.with_history(Some(h.with_scroll(0))),
            None => self.with_scroll(
                geometry::fit16(self.view_window().0),
            ).update_selected_from_scroll(),
        }
    }

    /// With the shown view at its end.
    pub open spec fn scroll_end(self) -> State {
        match self.history {
            Some(h) => self.with_history(Some(h.with_scroll(self.history_max(h)))),
            None => self.with_scroll(self.max_scroll()).update_selected_from_scroll(),
        }
    }

    /// With the focus window, if there is one, aimed at the current match's file.
    pub open spec fn aim_at_match(self) -> State {
        if self.control.follow {
            self.with_selected(self.find.matches[self.find.current_match].file_pos as int)
        } else {
            self
        }
    }

    /// With the viewport centered on the current match. In focus mode the window
    /// is re-aimed at the match's file first.
    pub open spec fn center_current_match(self) -> State {
        if self.find.current_match < self.find.matches.len() {
            self.aim_at_match().with_scroll(
                geometry::fit16(
                    geometry::minus(
                        self.find.matches[self.find.current_match].row as int,
                        self.pane.diff_viewport_height as int / 2,
                    ),
                ),
            ).clamp_scroll_to_window().update_selected_from_scroll()
        } else {
            self
        }
    }

    /// The match `dir` steps on, wrapping around.
    pub open spec fn match_after(self, dir: int) -> int {
        (self.find.current_match + dir) % (self.find.matches.len() as int)
    }

    /// With the match `dir` steps on current and centered, wrapping around.
    #[verifier::opaque]
    pub open spec fn next_match(self, dir: int) -> State {
        if self.find.matches.len() == 0 {
            self
        } else {
            self.with_match(self.match_after(dir)).center_current_match()
        }
    }

    // --- messages ----------------------------------------------------------------

    /// With a transient status message.
    pub open spec fn set_status(self, message: Seq<char>) -> State {
        State { note: NoteState { status: message, since: Some(self.control.clock) }, ..self }
    }

    /// Whether the status message has been shown long enough.
    pub open spec fn status_expired(self) -> bool {
        match self.note.since {
            Some(t) => geometry::minus(self.control.clock as int, t as int) >= 4_000_000_000,
            None => true,
        }
    }

    /// With a status message that was shown long enough cleared.
    pub open spec fn status_tick(self) -> State {
        if self.note.status.len() > 0 && self.status_expired() {
            State { note: NoteState { status: Seq::empty(), since: None }, ..self }
        } else {
            self
        }
    }

    /// With the note that an update was installed.
    pub open spec fn set_update_ready(self, message: Seq<char>) -> State {
        State { cues: CueState { update_ready: true, ..self.cues }, ..self }.set_status(message)
    }

    /// Whether the marquee is to move on.
    pub open spec fn marquee_due(self) -> bool {
        match self.marquee.last {
            Some(t) => geometry::minus(self.control.clock as int, t as int) >= 220_000_000,
            None => true,
        }
    }

    /// With the marquee moved on if it is time.
    pub open spec fn marquee_step(self) -> State {
        if self.marquee_due() {
            State {
                marquee: Marquee {
                    offset: if self.marquee.offset == usize::MAX {
                        0
                    } else {
                        (self.marquee.offset + 1) as usize
                    },
                    last: Some(self.control.clock),
                    ..self.marquee
                },
                ..self
            }
        } else {
            self
        }
    }

    /// With the marquee at its start.
    pub open spec fn marquee_reset(self) -> State {
        State { marquee: Marquee { offset: 0, last: None, ..self.marquee }, ..self }
    }

    /// With the settings to be persisted.
    pub open spec fn save_config(self) -> State {
        State { queue: QueueState { save_pending: true, ..self.queue }, ..self }
    }

    /// With follow-latest (a single-file focus view while on) toggled.
    #[verifier::opaque]
    pub open spec fn toggle_follow(self) -> State {
        if self.control.follow {
            self.with_follow(false).set_status("follow: off"@).save_config()
        } else {
            self.with_follow(true).snap_into_focus().set_status("follow: on"@).save_config()
        }
    }

    /// With the sidebar collapsed or expanded.
    pub open spec fn toggle_sidebar(self) -> State {
        State {
            screen: Screen { sidebar_collapsed: !self.screen.sidebar_collapsed, ..self.screen },
            ..self
        }.save_config()
    }

    /// With the file at `path` viewed.
    pub open spec fn mark_viewed(self, path: Seq<char>) -> State {
        State {
            cues: CueState {
                recently_changed: self.cues.recently_changed.remove(path),
                ..self.cues
            },
            ..self
        }
    }
}

/// What `steady` speaks of.
pub open spec fn same_sections(a: State, b: State) -> bool {
    &&& b.pane.offsets == a.pane.offsets
    &&& b.pane.combined == a.pane.combined
    &&& b.find.matches == a.find.matches
    &&& b.list.selected == a.list.selected || 0 <= b.list.selected < usize::MAX
    &&& b.history is None || b.history == a.history
}

/// A state stays in shape while its sections, hits and history stay.
pub proof fn lemma_steady(a: State, b: State)
    requires
        a.steady(),
        same_sections(a, b),
    ensures
        b.steady(),
{
    reveal(State::steady);
}

/// A state stays in shape while its sections, hits, history and files stay.
pub proof fn lemma_wf(a: State, b: State)
    requires
        a.wf(),
        same_sections(a, b),
        b.list.filtered == a.list.filtered,
        b.list.files.len() == a.list.files.len(),
    ensures
        b.wf(),
{
    reveal(State::wf);
    lemma_steady(a, b);
}

impl Past {
    /// Scrolled to `line`.
    pub open spec fn with_scroll(self, line: int) -> Past {
        Past { scroll: line, ..self }
    }
}

} // verus!
