//! What scrolling keeps: the focus window, the selection's place, the current match.

use vstd::prelude::*;
use crate::geometry;
use crate::state::State;

verus! {

/// Whether scroll offsets reach the start of the active view window.
pub open spec fn reachable(s: State) -> bool {
    s.view_window().0 <= u16::MAX
}

/// Whether the viewport starts within the active view window, no further than its
/// furthest scroll.
pub open spec fn in_window(s: State) -> bool {
    s.view_window().0 <= s.pane.diff_scroll <= s.max_scroll()
}

/// In shape, the view window lies within the combined diff, and its furthest scroll is
/// not before its start.
proof fn lemma_window(s: State)
    requires
        s.wf(),
    ensures
        0 <= s.view_window().0 <= s.view_window().1 <= s.pane.combined.len(),
        geometry::fit16(s.view_window().0) <= s.max_scroll() <= u16::MAX,
{
    reveal(State::wf);
    reveal(State::steady);
    let offsets = s.pane.offsets;
    if s.control.follow && offsets.len() > 0 {
        if s.list.selected < offsets.len() {
            assert(offsets[s.list.selected] <= s.pane.combined.len());
            if s.list.selected + 1 < offsets.len() {
                assert(offsets[s.list.selected + 1] <= s.pane.combined.len());
                assert(offsets[s.list.selected] <= offsets[s.list.selected + 1]);
            }
        }
    }
}

/// Focus never bleeds into a neighbouring file: while it is on, scrolling down and
/// up, to the top and to the end all stay within the selected file's section.
pub proof fn law_focus_scrolling_stays_in_the_section(s: State, amount: int)
    requires
        s.wf(),
        reachable(s),
        s.control.follow,
        s.pane.offsets.len() > 0,
        s.history is None,
        in_window(s),
        0 <= amount,
    ensures
        s.scroll_down(amount).view_window() == s.view_window(),
        in_window(s.scroll_down(amount)),
        s.scroll_up(amount).view_window() == s.view_window(),
        in_window(s.scroll_up(amount)),
        s.scroll_home().view_window() == s.view_window(),
        in_window(s.scroll_home()),
        s.scroll_end().view_window() == s.view_window(),
        in_window(s.scroll_end()),
{
    lemma_window(s);
}

/// Whatever the scroll was, scrolling up lands within the active view window, and so
/// do going to the top and to the end.
pub proof fn law_scrolling_lands_in_the_window(s: State, amount: int)
    requires
        s.wf(),
        reachable(s),
        s.history is None,
        s.pane.diff_scroll >= 0,
        0 <= amount,
    ensures
        ({
            let up = s.scroll_up(amount).pane.diff_scroll;
            &&& s.view_window().0 <= up <= s.max_scroll()
            &&& s.scroll_home().pane.diff_scroll == s.view_window().0
            &&& s.scroll_end().pane.diff_scroll == s.max_scroll()
            &&& s.scroll_down(amount).pane.diff_scroll <= s.max_scroll()
        }),
{
    lemma_window(s);
}

/// Home and End reach the very top and bottom: after them the first line is at the top
/// of the viewport, and the last line is in it, as far as scroll offsets reach.
pub proof fn law_home_and_end_reach_both_ends(s: State)
    requires
        s.wf(),
        !s.control.follow,
        s.pane.diff_viewport_height > 0,
    ensures
        s.history is None ==> s.scroll_home().pane.diff_scroll == 0,
        s.history is None && s.pane.combined.len() <= u16::MAX + s.pane.diff_viewport_height
            ==> s.scroll_end().pane.diff_scroll
            + s.pane.diff_viewport_height >= s.pane.combined.len(),
        s.history matches Some(h) ==> {
            &&& s.scroll_home().history matches Some(top)
            &&& top.scroll == 0
            &&& s.scroll_end().history matches Some(end)
            &&& h.text.len() <= u16::MAX + s.pane.diff_viewport_height ==> end.scroll
                + s.pane.diff_viewport_height >= h.text.len()
        },
{
    lemma_window(s);
}

/// A focus window shorter than the viewport pins to the file's start.
pub proof fn law_short_focus_windows_pin(s: State)
    requires
        s.wf(),
        reachable(s),
        s.control.follow,
        s.view_window().1 - s.view_window().0 <= s.pane.diff_viewport_height,
    ensures
        s.max_scroll() == s.view_window().0,
{
    lemma_window(s);
}

/// The end of a focus window is the file's last line at the bottom of the viewport.
pub proof fn law_long_focus_windows_end_at_the_bottom(s: State)
    requires
        s.wf(),
        s.control.follow,
        s.view_window().1 - s.view_window().0 >= s.pane.diff_viewport_height,
        s.view_window().1 - s.pane.diff_viewport_height <= u16::MAX,
    ensures
        s.max_scroll() + s.pane.diff_viewport_height == s.view_window().1,
{
    lemma_window(s);
}

/// Turning focus on shows the selected file; turning it off again gives the full
/// combined diff back, the viewport where it was in focus.
pub proof fn law_focus_on_and_off(s: State)
    requires
        s.wf(),
        reachable(s.with_follow(true)),
        !s.control.follow,
    ensures
        in_window(s.toggle_follow()),
        s.toggle_follow().view_window() == s.with_follow(true).view_window(),
        in_window(s.with_follow(true)) && s.pane.diff_scroll < s.with_follow(true).view_window().1
            ==> s.toggle_follow().pane.diff_scroll == s.pane.diff_scroll,
        s.toggle_follow().toggle_follow().view_window() == s.view_window(),
        s.toggle_follow().toggle_follow().pane.diff_scroll == s.toggle_follow().pane.diff_scroll,
        s.toggle_follow().toggle_follow().control == s.control,
{
    reveal(State::toggle_follow);
    let t = s.with_follow(true);
    assert(t.wf()) by {
        crate::state::lemma_wf(s, t);
    }
    lemma_window(t);
}

/// The sections up to `section_from` start at or before a line, and the next after it.
proof fn lemma_section_from(s: State, line: int, i: int)
    requires
        s.wf(),
        0 <= i <= s.pane.offsets.len(),
        i > 0 ==> s.pane.offsets[i - 1] <= line,
    ensures
        ({
            let k = s.section_from(line, i);
            &&& i <= k <= s.pane.offsets.len()
            &&& k > 0 ==> s.pane.offsets[k - 1] <= line
            &&& k < s.pane.offsets.len() ==> line < s.pane.offsets[k]
        }),
    decreases s.pane.offsets.len() - i,
{
    if i < s.pane.offsets.len() && s.pane.offsets[i] <= line {
        lemma_section_from(s, line, i + 1);
    }
}

/// Whether file `k`'s section contains `line`.
pub open spec fn section_holds(s: State, k: int, line: int) -> bool {
    &&& 0 <= k < s.pane.offsets.len()
    &&& s.pane.offsets[k] <= line
    &&& k + 1 < s.pane.offsets.len() ==> line < s.pane.offsets[k + 1]
}

/// The selection tracks whichever file is at the top of the viewport: outside focus,
/// after scrolling, the selected file's section contains the viewport's first line.
pub proof fn law_the_selection_tracks_the_viewport(s: State, amount: int)
    requires
        s.wf(),
        s.history is None,
        !s.control.follow,
        s.pane.offsets.len() > 0,
        s.pane.offsets[0] == 0,
        s.pane.diff_scroll >= 0,
        0 <= amount,
    ensures
        ({
            let t = s.scroll_down(amount);
            section_holds(t, t.list.selected, t.pane.diff_scroll)
        }),
        ({
            let t = s.scroll_up(amount);
            section_holds(t, t.list.selected, t.pane.diff_scroll)
        }),
        ({
            let t = s.scroll_home();
            section_holds(t, t.list.selected, t.pane.diff_scroll)
        }),
        ({
            let t = s.scroll_end();
            section_holds(t, t.list.selected, t.pane.diff_scroll)
        }),
{
    let down = s.with_scroll(
        geometry::lesser(s.pane.diff_scroll + amount, s.max_scroll()),
    );
    let up = s.with_scroll(
        geometry::minus(s.pane.diff_scroll, amount),
    ).clamp_scroll_to_window();
    let home = s.with_scroll(geometry::fit16(s.view_window().0));
    let end = s.with_scroll(s.max_scroll());
    lemma_tracks(s, down);
    lemma_tracks(s, up);
    lemma_tracks(s, home);
    lemma_tracks(s, end);
}

/// Selecting by the scroll selects the section that contains it.
proof fn lemma_tracks(s: State, t: State)
    requires
        s.wf(),
        t == s.with_scroll(t.pane.diff_scroll),
        !s.control.follow,
        s.pane.offsets.len() > 0,
        s.pane.offsets[0] == 0,
        t.pane.diff_scroll >= 0,
    ensures
        ({
            let u = t.update_selected_from_scroll();
            section_holds(u, u.list.selected, u.pane.diff_scroll)
        }),
{
    crate::state::lemma_wf(s, t);
    let line = t.pane.diff_scroll;
    lemma_section_from(t, line, 0);
    assert(t.section_from(line, 0) >= 1);
}

/// Selecting a file jumps to its section: outside focus to its first line, or as far
/// down as the diff goes; in focus always to its first line.
pub proof fn law_selecting_jumps_to_the_section(s: State, i: int)
    requires
        s.wf(),
        0 <= i < s.pane.offsets.len(),
        i < usize::MAX,
    ensures
        s.select(i).history is None,
        s.select(i).list.selected == i,
        s.select(i).pane.diff_scroll == geometry::lesser(
            s.pane.offsets[i] as int,
            s.select(i).max_scroll(),
        ),
        s.control.follow && s.pane.offsets[i] <= u16::MAX ==> s.select(i).pane.diff_scroll
            == s.pane.offsets[i],
{
    let t = s.with_history(None).with_selected(i);
    crate::state::lemma_wf(s, t);
    lemma_window(t);
    assert(s.pane.offsets[i] <= s.pane.combined.len()) by {
        reveal(State::wf);
        reveal(State::steady);
    }
    assert(s.select(i).max_scroll() == t.max_scroll());
}

/// A step makes the match that many steps on current, and keeps the matches.
proof fn lemma_step(s: State, dir: int)
    requires
        s.find.matches.len() > 0,
        0 <= s.match_after(dir) < s.find.matches.len(),
    ensures
        s.next_match(dir).find.current_match == s.match_after(dir),
        s.next_match(dir).find.matches == s.find.matches,
{
    reveal(State::next_match);
}

/// Where one step around a circle of `n` places leads from place `i`.
proof fn lemma_around(i: int, n: int)
    requires
        0 <= i < n,
    ensures
        (i + 1) % n == (if i + 1 == n {
            0
        } else {
            i + 1
        }),
        (i - 1) % n == (if i == 0 {
            n - 1
        } else {
            i - 1
        }),
{
    if i + 1 == n {
        vstd::arithmetic::div_mod::lemma_mod_self_0(n);
    } else {
        vstd::arithmetic::div_mod::lemma_small_mod((i + 1) as nat, n as nat);
    }
    if i == 0 {
        vstd::arithmetic::div_mod::lemma_fundamental_div_mod_converse(-1, n, -1, n - 1);
    } else {
        vstd::arithmetic::div_mod::lemma_small_mod((i - 1) as nat, n as nat);
    }
}

/// Stepping through the matches wraps around, and stepping back undoes stepping
/// forward.
pub proof fn law_match_steps_wrap(s: State)
    requires
        s.find.matches.len() > 0,
        0 <= s.find.current_match < s.find.matches.len(),
    ensures
        s.next_match(1).find.current_match == (if s.find.current_match + 1
            == s.find.matches.len() {
            0
        } else {
            s.find.current_match + 1
        }),
        s.next_match(-1).find.current_match == (if s.find.current_match == 0 {
            s.find.matches.len() - 1
        } else {
            s.find.current_match - 1
        }),
        s.next_match(1).next_match(-1).find.current_match == s.find.current_match,
        s.next_match(-1).next_match(1).find.current_match == s.find.current_match,
{
    let n = s.find.matches.len() as int;
    lemma_around(s.find.current_match, n);
    lemma_step(s, 1);
    lemma_step(s, -1);
    let (on, back) = (s.next_match(1), s.next_match(-1));
    lemma_around(on.find.current_match, n);
    lemma_around(back.find.current_match, n);
    lemma_step(on, -1);
    lemma_step(back, 1);
}

/// In focus, centering on a match in another file re-aims the window at that file,
/// and the viewport stays within it.
pub proof fn law_centering_reaims_the_focus(s: State)
    requires
        s.wf(),
        reachable(s.aim_at_match()),
        s.control.follow,
        s.pane.offsets.len() > 0,
        0 <= s.find.current_match < s.find.matches.len(),
    ensures
        s.center_current_match().list.selected == s.find.matches[s.find.current_match].file_pos,
        in_window(s.center_current_match()),
{
    let t = s.aim_at_match();
    assert(t.wf()) by {
        reveal(State::wf);
        reveal(State::steady);
        assert(s.find.matches[s.find.current_match].file_pos < usize::MAX);
    }
    lemma_window(t);
}

/// A status message is shown for four seconds and then cleared.
pub proof fn law_status_messages_expire(s: State, message: Seq<char>, later: u64)
    requires
        message.len() > 0,
        s.control.clock <= later,
    ensures
        ({
            let shown = s.set_status(message);
            let then = State {
                control: crate::state::Control { clock: later, ..shown.control },
                ..shown
            };
            &&& later - s.control.clock < 4_000_000_000 ==> then.status_tick().note.status == message
            &&& later - s.control.clock >= 4_000_000_000 ==> then.status_tick().note.status.len() == 0
        }),
{
}

// --- how far, and where to ---------------------------------------------------------------

/// What is in view: everything, or in focus the selected file's section, which ends where
/// the next one starts.
pub proof fn law_what_is_in_view(s: State)
    ensures
        !s.control.follow ==> s.view_window() == (0int, s.pane.combined.len() as int),
        s.control.follow && 0 <= s.list.selected < s.pane.offsets.len() ==> {
            &&& s.view_window().0 == s.pane.offsets[s.list.selected]
            &&& s.list.selected + 1 < s.pane.offsets.len() ==> s.view_window().1
                == s.pane.offsets[s.list.selected + 1]
            &&& s.list.selected + 1 == s.pane.offsets.len() ==> s.view_window().1
                == s.pane.combined.len()
        },
{
}

/// How far the diff scrolls, where offsets reach: outside focus, until its last line
/// stands at the bottom, and further if the last file would not reach the top otherwise,
/// but never past the last line; not at all if everything fits. In focus, until the
/// file's last line stands at the bottom; not at all if the file fits.
pub proof fn law_how_far_the_diff_scrolls(s: State)
    requires
        s.wf(),
        s.pane.combined.len() <= u16::MAX,
    ensures
        ({
            let total = s.pane.combined.len() as int;
            let height = s.pane.diff_viewport_height as int;
            let (start, end) = s.view_window();
            let max = s.max_scroll();
            &&& !s.control.follow && total <= height ==> max == 0
            &&& !s.control.follow && total > height ==> {
                &&& max >= total - height || max == total - 1
                &&& max <= total - 1
                &&& s.pane.offsets.len() == 0 && height > 0 ==> max == total - height
                &&& s.pane.offsets.len() > 0 && s.pane.offsets.last() < total
                    && s.pane.offsets.last() >= total - height ==> max == s.pane.offsets.last()
                &&& s.pane.offsets.len() > 0 && s.pane.offsets.last() < total - height && height > 0
                    ==> max == total - height
            }
            &&& s.control.follow && end - start <= height ==> max == start
            &&& s.control.follow && end - start > height ==> max == end - height
        }),
{
    lemma_window(s);
}

/// Scrolling moves by the amount asked for, as far as there is something to scroll to,
/// live and in a history.
pub proof fn law_scrolling_moves_by_the_amount(s: State, amount: int)
    requires
        s.wf(),
        amount >= 0,
    ensures
        s.history is None && s.pane.diff_scroll + amount <= s.max_scroll() ==> s.scroll_down(
            amount,
        ).pane.diff_scroll == s.pane.diff_scroll + amount,
        s.history is None && s.pane.diff_scroll + amount > s.max_scroll() ==> s.scroll_down(
            amount,
        ).pane.diff_scroll == s.max_scroll(),
        s.history is None && s.view_window().0 <= s.pane.diff_scroll - amount
            && s.pane.diff_scroll - amount <= s.max_scroll() && s.view_window().0 <= u16::MAX
            ==> s.scroll_up(amount).pane.diff_scroll == s.pane.diff_scroll - amount,
        s.history matches Some(h) ==> {
            let most = if h.text.len() <= s.pane.diff_viewport_height {
                0
            } else if h.text.len() - s.pane.diff_viewport_height > 65535 {
                65535
            } else {
                h.text.len() - s.pane.diff_viewport_height
            };
            let (down, up, end) = (
                s.scroll_down(amount).history->Some_0.scroll,
                s.scroll_up(amount).history->Some_0.scroll,
                s.scroll_end().history->Some_0.scroll,
            );
            &&& h.scroll + amount <= most ==> down == h.scroll + amount
            &&& h.scroll + amount > most ==> down == most
            &&& h.scroll >= amount ==> up == h.scroll - amount
            &&& h.scroll < amount ==> up == 0
            &&& end == most
        },
{
    lemma_window(s);
}

/// The current match is put in the middle of the viewport, as far as the view scrolls.
pub proof fn law_matches_are_centered(s: State)
    requires
        s.wf(),
        !s.control.follow,
        0 <= s.find.current_match < s.find.matches.len(),
    ensures
        ({
            let row = s.find.matches[s.find.current_match].row as int;
            let half = s.pane.diff_viewport_height as int / 2;
            let t = s.center_current_match();
            &&& row - half <= 0 ==> t.pane.diff_scroll == 0
            &&& 0 <= row - half <= s.max_scroll() ==> t.pane.diff_scroll == row - half
            &&& row - half > s.max_scroll() ==> t.pane.diff_scroll == s.max_scroll()
            &&& t.find == s.find
        }),
{
    lemma_window(s);
}

/// Where the viewport stands is remembered as the selected file and the line in it.
pub proof fn law_where_the_viewport_stands(s: State)
    requires
        s.wf(),
    ensures
        s.list.selected >= s.list.filtered.len() ==> s.current_anchor() is None,
        0 <= s.list.selected < s.list.filtered.len() && s.list.selected < s.pane.offsets.len()
            && s.pane.diff_scroll >= s.pane.offsets[s.list.selected] ==> s.current_anchor()
            == Some(
            (
                s.list.files[s.list.filtered[s.list.selected] as int].path,
                s.pane.diff_scroll - s.pane.offsets[s.list.selected],
            ),
        ),
{
}

/// Arithmetic that stops at its bounds.
pub proof fn law_bounded_arithmetic(a: int, b: int, c: int)
    ensures
        a >= b ==> geometry::minus(a, b) == a - b,
        a < b ==> geometry::minus(a, b) == 0,
        geometry::lesser(a, b) <= a && geometry::lesser(a, b) <= b,
        geometry::lesser(a, b) == a || geometry::lesser(a, b) == b,
        geometry::greater(a, b) >= a && geometry::greater(a, b) >= b,
        geometry::greater(a, b) == a || geometry::greater(a, b) == b,
        a <= c ==> a <= geometry::clamped(b, a, c) <= c,
        a <= b <= c ==> geometry::clamped(b, a, c) == b,
        b < a <= c ==> geometry::clamped(b, a, c) == a,
        a <= c < b ==> geometry::clamped(b, a, c) == c,
        a <= 65535 ==> geometry::fit16(a) == a,
        a > 65535 ==> geometry::fit16(a) == 65535,
{
}

/// A line's place on the rail is in proportion to its place in the diff.
pub proof fn law_places_on_the_rail(row: int, total: int, height: int)
    requires
        0 <= row < total,
        total >= 2,
        height >= 1,
    ensures
        ({
            let cell = geometry::rail_cell(row, total, height);
            cell * (total - 1) <= row * (height - 1) < (cell + 1) * (total - 1)
        }),
{
    let d = total - 1;
    let n = row * (height - 1);
    vstd::arithmetic::div_mod::lemma_fundamental_div_mod(n, d);
    vstd::arithmetic::div_mod::lemma_mod_bound(n, d);
    let cell = n / d;
    assert(geometry::rail_cell(row, total, height) == cell);
    assert(d * cell == cell * d) by (nonlinear_arith);
    assert((cell + 1) * d == cell * d + d) by (nonlinear_arith);
}

/// The marquee moves on by one column every 220 milliseconds, and starts anew when reset.
pub proof fn law_the_marquee_moves(s: State)
    ensures
        s.marquee.last matches Some(t) && s.control.clock - t < 220_000_000 ==> s.marquee_step()
            == s,
        (s.marquee.last is None || s.control.clock - s.marquee.last->0 >= 220_000_000)
            && s.marquee.offset < usize::MAX ==> s.marquee_step().marquee.offset == s.marquee.offset
            + 1 && s.marquee_step().marquee.last == Some(s.control.clock),
        s.marquee_reset().marquee.offset == 0,
{
}

} // verus!
