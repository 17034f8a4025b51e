//! What the event loop does next: when to draw, build, wait and ask, decided from
//! what it has done so far.

use vstd::prelude::*;
use crate::app::App;
use crate::geometry;
use crate::state::{CueState, State};

verus! {

/// What the event loop keeps between its rounds.
#[derive(Debug, Clone, Copy, PartialEq, Eq, Structural)]
pub struct Pacing {
    /// The screen is out of date.
    pub dirty: bool,
    /// A check of how far the branch is behind is under way.
    pub behind_inflight: bool,
    /// When that was last asked, in nanoseconds.
    pub behind_last: u64,
}

/// What the event loop is to do.
#[derive(Debug, Clone, Copy, PartialEq, Eq, Structural)]
pub enum Step {
    /// Draw the screen, then decide again.
    Draw,
    /// Build the combined diff, then decide again.
    Build,
    /// Wait for input for so many milliseconds, then handle what came.
    Wait(u64),
}

impl State {
    /// With what is due at the end of a round done.
    pub open spec fn round_ended(self) -> State {
        (if self.marquee.active_path_overflow {
            self.marquee_step()
        } else {
            self
        }).status_tick()
    }

    /// Whether what is due at the end of a round changes the screen.
    pub open spec fn round_redraws(self) -> bool {
        ||| self.marquee.active_path_overflow && self.marquee_due()
        ||| self.note.status.len() > 0 && self.status_expired()
    }
}

impl Pacing {
    /// At the start of a run, at time `now`: nothing has been drawn.
    pub fn new(now: u64) -> (r: Pacing)
        ensures
            r == (Pacing { dirty: true, behind_inflight: false, behind_last: now }),
    {
        Pacing { dirty: true, behind_inflight: false, behind_last: now }
    }

    /// What to do next. The build comes *after* the frame is on screen, so the file list
    /// appears instantly, and is skipped while the divider is being dragged, so not every
    /// file is re-rendered on each drag step. While a selection is auto-scrolling past an
    /// edge, the wait is shorter for smoothness.
    pub open spec fn step(self, s: State) -> Step {
        if self.dirty {
            Step::Draw
        } else if s.needs_build() && !s.pointer.dragging_divider {
            Step::Build
        } else if s.is_autoscrolling() {
            Step::Wait(30)
        } else {
            Step::Wait(100)
        }
    }

    /// What to do next.
    pub fn next(&self, app: &App) -> (r: Step)
        ensures
            r == self.step(app@),
    {
        if self.dirty {
            Step::Draw
        } else if app.needs_build() && !app.is_dragging() {
            Step::Build
        } else if app.is_autoscrolling() {
            Step::Wait(30)
        } else {
            Step::Wait(100)
        }
    }

    /// After the screen was drawn.
    pub fn drawn(&mut self)
        ensures
            *final(self) == (Pacing { dirty: false, ..*old(self) }),
    {
        self.dirty = false;
    }

    /// After something changed that needs a redraw, or not.
    pub fn redraw(&mut self, needed: bool)
        ensures
            *final(self) == (Pacing { dirty: old(self).dirty || needed, ..*old(self) }),
    {
        if needed {
            self.dirty = true;
        }
    }

    /// Whether to ask how far the branch is behind: when flagged, or once a minute to catch
    /// fetches that moved the base ref without touching the working tree; one check at a
    /// time, so a slow git can't stack threads.
    pub open spec fn asks_behind(self, s: State, now: u64) -> bool {
        (s.cues.behind_dirty || geometry::minus(now as int, self.behind_last as int)
            > 60_000_000_000) && !self.behind_inflight
    }

    /// Decides whether to ask how far the branch is behind, and notes that it was asked.
    pub fn ask_behind(&mut self, app: &mut App, now: u64) -> (r: bool)
        requires
            old(app)@.wf(),
        ensures
            r == old(self).asks_behind(old(app)@, now),
            r ==> *final(self) == (Pacing {
                behind_inflight: true,
                behind_last: now,
                ..*old(self)
            }) && final(app)@ == (State {
                cues: CueState { behind_dirty: false, ..old(app)@.cues },
                ..old(app)@
            }),
            !r ==> *final(self) == *old(self) && final(app)@ == old(app)@,
            final(app)@.wf(),
    {
        let due = app.cues.behind_dirty || (now > self.behind_last && now - self.behind_last
            > 60_000_000_000);
        if !due || self.behind_inflight {
            return false;
        }
        app.cues.behind_dirty = false;
        self.behind_last = now;
        self.behind_inflight = true;
        proof {
            crate::state::lemma_wf(old(app)@, app@);
        }
        true
    }

    /// Does what is due at the end of a round: scrolls the selected file's name if it's
    /// too long for its column, and lets transient status messages expire so the info
    /// footer returns. Reports whether the program is to quit.
    pub fn end_round(&mut self, app: &mut App) -> (r: bool)
        requires
            old(app)@.wf(),
        ensures
            final(app)@ == old(app)@.round_ended(),
            final(app)@.wf(),
            *final(self) == (Pacing {
                dirty: old(self).dirty || old(app)@.round_redraws(),
                ..*old(self)
            }),
            r == old(app)@.control.should_quit,
    {
        if app.marquee.active_path_overflow && app.marquee_step() {
            self.dirty = true;
        }
        if app.status_tick() {
            self.dirty = true;
        }
        proof {
            crate::state::lemma_wf(old(app)@, app@);
        }
        app.control.should_quit
    }

    /// Takes over an answer on how far the branch is behind.
    pub fn behind_answered(&mut self, app: &mut App, n: Option<u64>)
        requires
            old(app)@.wf(),
        ensures
            *final(self) == (Pacing {
                behind_inflight: false,
                dirty: old(self).dirty || old(app)@.cues.behind != n,
                ..*old(self)
            }),
            final(app)@ == (State {
                cues: CueState { behind: n, ..old(app)@.cues },
                ..old(app)@
            }),
            final(app)@.wf(),
    {
        self.behind_inflight = false;
        let same = match (app.cues.behind, n) {
            (Some(a), Some(b)) => a == b,
            (None, None) => true,
            _ => false,
        };
        if !same {
            app.cues.behind = n;
            self.dirty = true;
        }
        proof {
            crate::state::lemma_wf(old(app)@, app@);
        }
    }
}

/// After the frame is drawn and the combined diff is up to date, the loop waits: it never
/// spins between drawing and building.
pub proof fn law_a_current_screen_waits(p: Pacing, s: State)
    requires
        !p.dirty,
        !s.needs_build(),
    ensures
        p.step(s) is Wait,
{
}

/// While the divider is dragged nothing is built.
pub proof fn law_dragging_defers_builds(p: Pacing, s: State)
    requires
        s.pointer.dragging_divider,
    ensures
        p.step(s) != Step::Build,
{
}

/// One check of how far the branch is behind at a time: until the last one is
/// answered, none is asked.
pub proof fn law_one_check_at_a_time(p: Pacing, s: State, now: u64)
    requires
        p.behind_inflight,
    ensures
        !p.asks_behind(s, now),
{
}

} // verus!
