//! Per-file commit history: entering it, stepping through it, and keeping it
//! consistent with the live view.

use vstd::prelude::*;
use crate::app::{App, HistoryView};
use crate::commits;
use crate::commits::{Commit, HistoryEntry};
use crate::delta;
use crate::delta::Production;
use crate::geometry;
use crate::git::ChangeKind;
use crate::rich;
use crate::rich::{Row, Text};
use crate::state::{Past, Pointer, QueueState, State};
use crate::table::Table;
use crate::txt;

verus! {

// --- the model -----------------------------------------------------------------

/// What is shown for a commit whose diff rendered to `shown`, at `width` columns.
pub open spec fn shown_commit(shown: Result<Seq<Row>, Seq<char>>, width: u16) -> Seq<Row> {
    match shown {
        Ok(text) => if text.len() == 0 {
            rich::raw_rows("  (no textual diff)"@)
        } else {
            rich::wrapped_all(text, width as nat)
        },
        Err(message) => rich::raw_rows("  error rendering history: "@ + message),
    }
}

/// What is shown for a commit's diff at `width` columns.
pub open spec fn commit_rows(made: Production, width: u16) -> Seq<Row> {
    shown_commit(made.shown(), width)
}

impl Past {
    /// The commit shown.
    pub open spec fn commit(self) -> Commit {
        self.entries[self.pos]
    }

    /// With commit `pos` shown from its top.
    pub open spec fn at(self, pos: int) -> Past {
        Past { pos, scroll: 0, ..self }
    }

    /// With the commit's diff rendered as `text`, in a pane of the given size.
    pub open spec fn showing(self, text: Seq<Row>, width: u16, viewport: u16) -> Past {
        Past {
            text,
            built_width: width as int,
            scroll: geometry::lesser(
                self.scroll,
                geometry::last_screen(text.len() as int, viewport as int),
            ),
            ..self
        }
    }
}

impl State {
    /// With the shown commit's diff marked as to be rendered, or not.
    pub open spec fn with_stale(self, stale: bool) -> State {
        State { queue: QueueState { history_stale: stale, ..self.queue }, ..self }
    }

    /// With the shown commit's diff taken from the history's cache, or to be
    /// rendered.
    pub open spec fn render_history(self) -> State {
        match self.history {
            None => self,
            Some(h) => if h.cache.contains_key(h.commit().hash) {
                self.with_history(
                    Some(
                        h.showing(
                            h.cache[h.commit().hash],
                            self.pane.diff_width,
                            self.pane.diff_viewport_height,
                        ),
                    ),
                ).with_stale(false)
            } else {
                self.with_stale(true)
            },
        }
    }

    /// With the rendered diff of the shown commit, which is retained.
    pub open spec fn history_rendered(self, made: Production) -> State {
        match self.history {
            None => self.with_stale(false),
            Some(h) => {
                let text = commit_rows(made, self.pane.diff_width);
                self.with_history(
                    Some(
                        Past { cache: h.cache.insert(h.commit().hash, text), ..h }.showing(
                            text,
                            self.pane.diff_width,
                            self.pane.diff_viewport_height,
                        ),
                    ),
                ).with_stale(false)
            },
        }
    }

    /// With the selected file's commit history asked for. An untracked file has
    /// none.
    pub open spec fn enter_history(self) -> State {
        match self.current_entry() {
            None => self,
            Some(e) => if e.kind == ChangeKind::Untracked {
                self.set_status("no commit history for this file"@)
            } else {
                State {
                    queue: QueueState { history_request: Some(e.path), ..self.queue },
                    ..self
                }
            },
        }
    }

    /// With the commit history that was asked for, at its newest commit.
    pub open spec fn open_history(self, found: Result<Seq<Commit>, Seq<char>>) -> State {
        let s = State { queue: QueueState { history_request: None, ..self.queue }, ..self };
        match (self.queue.history_request, found) {
            (None, _) => self,
            (Some(_), Err(message)) => s.set_status("git error: "@ + message),
            (Some(path), Ok(entries)) => if entries.len() == 0 {
                s.set_status("no commit history for this file"@)
            } else {
                State {
                    pointer: Pointer { selection: None, ..s.pointer },
                    history: Some(
                        Past {
                            path,
                            entries,
                            pos: 0,
                            text: Seq::empty(),
                            scroll: 0,
                            built_width: 0,
                            cache: Map::empty(),
                        },
                    ),
                    ..s
                }.render_history()
            },
        }
    }

    /// One commit older; from the live view, into the history.
    #[verifier::opaque]
    pub open spec fn history_back(self) -> State {
        match self.history {
            None => self.enter_history(),
            Some(h) => if h.pos + 1 < h.entries.len() {
                self.with_history(Some(h.at(h.pos + 1))).render_history()
            } else {
                self
            },
        }
    }

    /// One commit newer; from the newest, back to the live view.
    #[verifier::opaque]
    pub open spec fn history_forward(self) -> State {
        match self.history {
            None => self,
            Some(h) => if h.pos == 0 {
                self.with_history(None)
            } else {
                self.with_history(Some(h.at(h.pos - 1))).render_history()
            },
        }
    }

    /// With the history left if the selection moved off its file, and to be
    /// rendered anew after a resize or theme change.
    pub open spec fn sync_history(self) -> State {
        match self.history {
            None => self,
            Some(h) => if !(self.current_entry() matches Some(e) && e.path == h.path) {
                self.with_history(None)
            } else if h.built_width != self.pane.diff_width {
                self.with_history(Some(Past { cache: Map::empty(), ..h })).render_history()
            } else {
                self
            },
        }
    }
}

// --- the application -----------------------------------------------------------

/// What is shown for a commit whose diff rendered to `shown`, at `width` columns.
pub fn commit_lines(shown: Result<Text, String>, width: u16) -> (r: Text)
    ensures
        r@ == shown_commit(delta::outcome(shown), width),
{
    match shown {
        Ok(text) => {
            assert(text@.len() == text.lines@.len());
            if text.lines.len() == 0 {
                Text { lines: rich::raw_lines("  (no textual diff)") }
            } else {
                // delta doesn't wrap when piped: wrap here, same as the live
                // combined diff, so scrolling stays exact.
                rich::wrap_text(&text, width as usize)
            }
        },
        Err(message) => {
            let mut line = "  error rendering history: ".to_owned();
            line.append(message.as_str());
            Text { lines: rich::raw_lines(line.as_str()) }
        },
    }
}

/// What is shown for a commit's diff at `width` columns.
pub fn commit_text(made: &Production, width: u16) -> (r: Text)
    ensures
        r@ == commit_rows(*made, width),
{
    commit_lines(made.show(), width)
}

impl App {
    /// Show the current history entry at the current width, from the per-commit
    /// cache, or ask for it to be rendered. Preserves (clamps) the scroll offset;
    /// stepping resets it to 0 before calling this.
    fn render_history(&mut self)
        requires
            old(self)@.wf(),
        ensures
            final(self)@ == old(self)@.render_history(),
            final(self)@.wf(),
    {
        proof {
            reveal(State::wf);
            reveal(State::steady);
        }
        let width = self.pane.diff_width;
        let viewport = self.pane.diff_viewport_height;
        if let Some(h) = &mut self.history {
            let ghost first = h@;
            assert(first.entries[first.pos] == h.entries@[h.pos as int]@);
            let cached = match h.cache.get(&h.entries[h.pos].hash) {
                Some(text) => Some(text.clone()),
                None => None,
            };
            match cached {
                Some(text) => {
                    let max = geometry::history_max_scroll(text.lines.len(), viewport);
                    assert(text@.len() == text.lines@.len());
                    h.text = text;
                    h.built_width = width;
                    h.scroll = geometry::min16(h.scroll, max);
                    self.queue.history_stale = false;
                },
                None => {
                    self.queue.history_stale = true;
                },
            }
        }
    }

    /// Take over the rendered diff of the shown commit.
    pub fn history_rendered(&mut self, made: &Production)
        requires
            old(self)@.wf(),
        ensures
            final(self)@ == old(self)@.history_rendered(*made),
            final(self)@.wf(),
    {
        proof {
            reveal(State::wf);
            reveal(State::steady);
        }
        let width = self.pane.diff_width;
        let viewport = self.pane.diff_viewport_height;
        if let Some(h) = &mut self.history {
            let ghost first = h@;
            assert(first.entries[first.pos] == h.entries@[h.pos as int]@);
            let text = commit_text(made, width);
            let max = geometry::history_max_scroll(text.lines.len(), viewport);
            assert(text@.len() == text.lines@.len());
            let hash = h.entries[h.pos].hash.clone();
            h.cache.insert(hash, text.clone());
            h.text = text;
            h.built_width = width;
            h.scroll = geometry::min16(h.scroll, max);
        }
        self.queue.history_stale = false;
    }

    fn enter_history(&mut self)
        requires
            old(self)@.wf(),
        ensures
            final(self)@ == old(self)@.enter_history(),
            final(self)@.wf(),
    {
        proof {
            reveal(State::wf);
            reveal(State::steady);
        }
        let request = match self.current_entry() {
            None => {
                return;
            },
            Some(entry) => match entry.kind {
                ChangeKind::Untracked => None,
                _ => Some(entry.path.clone()),
            },
        };
        match request {
            None => self.set_status("no commit history for this file".to_owned()),
            Some(path) => {
                self.queue.history_request = Some(path);
            },
        }
    }

    /// Enter the history that was asked for, at its newest commit.
    pub fn open_history(&mut self, found: Result<Vec<HistoryEntry>, String>)
        requires
            old(self)@.wf(),
        ensures
            final(self)@ == old(self)@.open_history(commits::history_result(found)),
            final(self)@.wf(),
    {
        proof {
            reveal(State::wf);
            reveal(State::steady);
        }
        let path = match &self.queue.history_request {
            None => {
                return;
            },
            Some(path) => path.clone(),
        };
        self.queue.history_request = None;
        let entries = match found {
            Ok(entries) => entries,
            Err(message) => {
                let mut text = "git error: ".to_owned();
                text.append(message.as_str());
                self.set_status(text);
                return;
            },
        };
        assert(commits::commits(entries@).len() == entries@.len());
        if entries.len() == 0 {
            self.set_status("no commit history for this file".to_owned());
            return;
        }
        self.pointer.selection = None;
        let view = HistoryView {
            path,
            entries,
            pos: 0,
            text: Text { lines: Vec::new() },
            scroll: 0,
            built_width: 0,
            cache: Table::new(),
        };
        assert(view.text@ =~= Seq::<Row>::empty());
        self.history = Some(view);
        self.render_history();
    }

    /// `←`: enter history at the newest commit, or step one commit older.
    pub fn history_back(&mut self)
        requires
            old(self)@.wf(),
        ensures
            final(self)@ == old(self)@.history_back(),
            final(self)@.wf(),
    {
        proof {
            reveal(State::history_back);
            reveal(State::wf);
            reveal(State::steady);
        }
        if let Some(h) = &mut self.history {
            let n = h.entries.len();
            assert(h@.entries.len() == n);
            if h.pos + 1 < n {
                h.pos = h.pos + 1;
                h.scroll = 0;
                self.render_history();
            }
        } else {
            self.enter_history();
        }
    }

    /// `→`: step one commit newer; from the newest commit, back to live.
    pub fn history_forward(&mut self)
        requires
            old(self)@.wf(),
        ensures
            final(self)@ == old(self)@.history_forward(),
            final(self)@.wf(),
    {
        proof {
            reveal(State::history_forward);
            reveal(State::wf);
            reveal(State::steady);
        }
        let newest = match &self.history {
            None => {
                return;
            },
            Some(h) => h.pos == 0,
        };
        if newest {
            self.history = None;
        } else if let Some(h) = &mut self.history {
            h.pos = h.pos - 1;
            h.scroll = 0;
            self.render_history();
        }
    }

    /// Keep the history view consistent after a combined-diff rebuild: exit if the
    /// selection moved off the file it belongs to (vanished file, follow jump,
    /// filter change), and re-render after a resize or theme change (`built_width`
    /// of 0 forces it).
    pub(crate) fn sync_history(&mut self)
        requires
            old(self)@.wf(),
        ensures
            final(self)@ == old(self)@.sync_history(),
            final(self)@.wf(),
    {
        proof {
            reveal(State::wf);
            reveal(State::steady);
        }
        let (still_selected, outdated) = match &self.history {
            None => {
                return;
            },
            Some(h) => (
                match self.current_entry() {
                    Some(e) => txt::same(e.path.as_str(), h.path.as_str()),
                    None => false,
                },
                h.built_width != self.pane.diff_width,
            ),
        };
        if !still_selected {
            self.history = None;
            return;
        }
        if outdated {
            if let Some(h) = &mut self.history {
                h.cache = Table::new();
            }
            self.render_history();
        }
    }

    /// The commit whose diff is to be rendered, if one is: its hash and the path
    /// the file had there.
    pub fn history_wanted(&self) -> (r: Option<(String, String)>)
        requires
            self@.wf(),
        ensures
            match r {
                Some((hash, path)) => self@.queue.history_stale && self@.history is Some && hash@
                    == self@.history->0.commit().hash && path@
                    == self@.history->0.commit().path_at_commit,
                None => !self@.queue.history_stale || self@.history is None,
            },
    {
        proof {
            reveal(State::wf);
            reveal(State::steady);
        }
        if !self.queue.history_stale {
            return None;
        }
        match &self.history {
            None => None,
            Some(h) => {
                assert(h@.entries[h@.pos] == h.entries@[h.pos as int]@);
                Some((h.entries[h.pos].hash.clone(), h.entries[h.pos].path_at_commit.clone()))
            },
        }
    }
}

} // verus!
