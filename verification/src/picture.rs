//! The whole screen: the two-pane layout, the footer, and the help overlay.

use vstd::prelude::*;
use crate::app::App;
use crate::diff_pane::DiffPane;
use crate::footer;
use crate::frame::Panes;
use crate::geometry;
use crate::geometry::Rect;
use crate::list_pane::ListPane;
use crate::rich;
use crate::rich::Line;
use crate::state::State;

verus! {

/// The help overlay: its lines, and where it goes.
pub struct Help {
    pub lines: Vec<Line>,
    pub area: Rect,
}

/// The screen, ready to be put on the terminal.
pub struct Picture {
    /// The file list; a collapsed sidebar, or one without rows, has none.
    pub list: Option<ListPane>,
    /// The diff pane, if it has rows.
    pub diff: Option<DiffPane>,
    pub footer: Line,
    pub help: Option<Help>,
}

/// Where the help overlay goes within `area`.
pub open spec fn help_rect(area: Rect) -> Rect {
    let (w, h) = footer::help_size(area);
    Rect {
        x: (area.x + geometry::minus(area.width as int, w as int) / 2) as u16,
        y: (area.y + geometry::minus(area.height as int, h as int) / 2) as u16,
        width: w,
        height: h,
    }
}

impl Picture {
    /// Whether the picture shows state `s` in the panes `p`.
    pub open spec fn shows(self, s: State, p: Panes) -> bool {
        &&& self.list is Some <==> !s.screen.sidebar_collapsed && p.left.height > 0
        &&& self.list matches Some(pane) ==> pane.shows(s, p.left)
        &&& self.diff is Some <==> p.right.height > 0
        &&& self.diff matches Some(pane) ==> pane.shows(s, p.right)
        &&& self.footer@ == rich::row_of(s.footer())
        &&& self.help is Some <==> s.control.show_help
        &&& self.help matches Some(help) ==> rich::rows(help.lines@) == footer::help_rows()
            && help.area == help_rect(p.main)
    }
}

impl State {
    /// Whether drawing into the panes stays within machine numbers.
    pub open spec fn draws_within(self, p: Panes) -> bool {
        &&& !self.screen.sidebar_collapsed ==> {
            &&& self.hover_fits()
            &&& self.totals_fit()
            &&& p.left.height > 0 ==> p.left.y + 3 <= u16::MAX
        }
        &&& self.diff_fits(p.right)
        &&& self.footer_fits()
        &&& self.control.show_help ==> geometry::can_center(
            p.main,
            footer::help_size(p.main).0,
            footer::help_size(p.main).1,
        )
    }

    /// The state after drawing into the panes: a file list that was drawn has been
    /// looked at.
    pub open spec fn after_draw(self, p: Panes) -> State {
        if self.screen.sidebar_collapsed {
            self
        } else {
            self.after_list(p.left.width)
        }
    }

    /// Looking at the file list does not change whether the rest can be drawn.
    proof fn lemma_looking_keeps(self, b: State, area: Rect)
        requires
            b.source == self.source,
            b.list == self.list,
            b.find == self.find,
            b.pane == self.pane,
            b.screen == self.screen,
            b.pointer == self.pointer,
            b.note == self.note,
            b.history == self.history,
            b.control == self.control,
        ensures
            b.diff_fits(area) == self.diff_fits(area),
            b.footer_fits() == self.footer_fits(),
    {
        let (top, height) = (area.y + 1, area.height - 1);
        assert forall|i: int| #[trigger] b.mark_fits(i, top, height) == self.mark_fits(
            i,
            top,
            height,
        ) by {}
        assert(b.marks_fit(top, height) == self.marks_fit(top, height)) by {
            if self.marks_fit(top, height) && self.shows_marks(height) {
                assert forall|i: int| 0 <= i < b.find.matches.len() implies #[trigger] b.mark_fits(
                    i,
                    top,
                    height,
                ) by {
                    assert(self.mark_fits(i, top, height));
                }
            }
            if b.marks_fit(top, height) && b.shows_marks(height) {
                assert forall|i: int|
                    0 <= i < self.find.matches.len() implies #[trigger] self.mark_fits(
                    i,
                    top,
                    height,
                ) by {
                    assert(b.mark_fits(i, top, height));
                }
            }
        }
    }
}

impl App {
    /// Whether drawing into the panes stays within machine numbers.
    pub fn can_draw(&self, p: Panes) -> (r: bool)
        requires
            self@.wf(),
        ensures
            r == self@.draws_within(p),
    {
        if !self.screen.sidebar_collapsed {
            if !self.can_hover() || !self.can_total() || (p.left.height > 0 && p.left.y > 65532) {
                return false;
            }
        }
        self.can_draw_diff(p.right) && self.can_draw_footer() && (!self.control.show_help
            || footer::can_place_help(p.main))
    }

    /// Draws the screen into the panes.
    pub fn draw(&mut self, p: Panes) -> (r: Picture)
        requires
            old(self)@.wf(),
            old(self)@.draws_within(p),
        ensures
            final(self)@ == old(self)@.after_draw(p),
            final(self)@.wf(),
            r.shows(final(self)@, p),
    {
        let list = if self.screen.sidebar_collapsed {
            None
        } else {
            self.draw_file_list(p.left)
        };
        proof {
            old(self)@.lemma_looking_keeps(self@, p.right);
        }
        let diff = self.draw_diff(p.right);
        let footer = self.draw_footer();
        let help = if self.control.show_help {
            Some(Help { lines: footer::help_lines(), area: footer::help_area(p.main) })
        } else {
            None
        };
        Picture { list, diff, footer, help }
    }
}

} // verus!
