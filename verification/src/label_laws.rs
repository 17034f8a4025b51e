//! What shortened texts keep, how header columns are shared, and which colors stand for
//! what.

use vstd::prelude::*;
use crate::git::ChangeKind;
use crate::labels;
use crate::rich::Ink;
use crate::txt;

verus! {

/// A text shortened in the middle keeps its start and, twice as much of it, its end, with
/// an ellipsis in between; with room for no more than three characters it is its end.
pub proof fn law_middle_cuts_keep_both_ends(s: Seq<char>, max: int, k: int)
    requires
        0 < max < s.len(),
        0 <= k < max,
    ensures
        ({
            let r = labels::middle_cut(s, max);
            let head = (max - 1) / 3;
            &&& r.len() == max
            &&& max <= 3 ==> r[k] == s[s.len() - max + k]
            &&& max > 3 && k < head ==> r[k] == s[k]
            &&& max > 3 && k == head ==> r[k] == '…'
            &&& max > 3 && k > head ==> r[k] == s[s.len() - max + k]
        }),
{
}

/// A text cut at its end keeps its start, and an ellipsis shows that something was cut.
pub proof fn law_end_cuts_keep_the_start(s: Seq<char>, max: int, k: int)
    requires
        0 < max < s.len(),
        0 <= k < max,
    ensures
        labels::end_cut(s, max).len() == max,
        k < max - 1 ==> labels::end_cut(s, max)[k] == s[k],
        labels::end_cut(s, max)[max - 1] == '…',
{
}

/// Nothing is cut off a text that fits, and nothing is left where there is no room.
pub proof fn law_cuts_only_when_needed(s: Seq<char>, max: int)
    ensures
        0 <= s.len() <= max ==> labels::middle_cut(s, max) == s && labels::end_cut(s, max) == s,
        max <= 0 ==> labels::middle_cut(s, max).len() == 0,
        max <= 0 && s.len() > 0 ==> labels::end_cut(s, max).len() == 0,
{
    if s.len() == 0 {
        assert(s =~= Seq::<char>::empty());
    }
}

/// A name that does not fit goes round: one step on, the window shows what stood one
/// column further, and after the name comes a separator and then the name again. For the
/// first steps it stands still.
pub proof fn law_scrolling_names_go_round(s: Seq<char>, width: nat, offset: int, k: int)
    requires
        s.len() > width,
        offset >= 0,
        0 <= k < width,
    ensures
        ({
            let now = labels::scrolled_name(s, width, offset);
            let next = labels::scrolled_name(s, width, offset + 1);
            let ring = s + "   ·   "@;
            &&& now.len() == width
            &&& offset < 8 ==> next == now
            &&& offset >= 8 && k + 1 < width ==> next[k] == now[k + 1]
            &&& offset <= 8 ==> now[k] == s[k]
            &&& 8 <= offset && offset - 8 + k < ring.len() ==> now[k] == ring[offset - 8 + k]
        }),
{
    reveal_strlit("   ·   ");
    let ring = s + "   ·   "@;
    let n = ring.len() as int;
    let now = labels::scrolled_name(s, width, offset);
    let next = labels::scrolled_name(s, width, offset + 1);
    if offset < 8 {
        assert(next =~= now);
    } else {
        let a = offset - 8;
        lemma_ring(a, k, n);
        lemma_ring(a + 1, k, n);
        lemma_ring(a, k + 1, n);
        assert(now[k] == ring[(a + k) % n]);
        assert(next[k] == ring[(a + 1 + k) % n]);
        if k + 1 < width {
            assert(now[k + 1] == ring[(a + (k + 1)) % n]);
        }
        if a + k < n {
            vstd::arithmetic::div_mod::lemma_small_mod((a + k) as nat, n as nat);
        }
    }
    if offset <= 8 {
        vstd::arithmetic::div_mod::lemma_small_mod(0, n as nat);
        vstd::arithmetic::div_mod::lemma_small_mod(k as nat, n as nat);
    }
}

proof fn lemma_ring(a: int, k: int, n: int)
    requires
        n > 0,
        a >= 0,
        k >= 0,
    ensures
        (a % n + k) % n == (a + k) % n,
{
    vstd::arithmetic::div_mod::lemma_add_mod_noop(a, k, n);
    vstd::arithmetic::div_mod::lemma_add_mod_noop(a % n, k, n);
    vstd::arithmetic::div_mod::lemma_mod_twice(a, n);
}

/// A name that fits stands still.
pub proof fn law_short_names_stand_still(s: Seq<char>, width: nat, offset: int)
    requires
        s.len() <= width,
    ensures
        labels::scrolled_name(s, width, offset) == s,
{
}

/// The position is shown as the line within what is in view, and its length.
pub proof fn law_positions(scroll: int, start: int, end: int)
    requires
        0 <= start <= scroll,
        start <= end,
    ensures
        labels::position_text(scroll, start, end) == " ["@ + txt::decimal((scroll - start) as nat)
            + "/"@ + txt::decimal((end - start) as nat) + "]"@,
{
    if scroll == start {
        assert(crate::geometry::minus(scroll, start) == 0);
    }
    if end == start {
        assert(crate::geometry::minus(end, start) == 0);
    }
}

/// The columns of the diff's header: the base's label is shown in full as long as twelve
/// columns and the space between are left for the path; then it gives way, and the path
/// keeps its twelve; then it is gone and the path gives way.
pub proof fn law_header_columns(total: int, label: int)
    requires
        total >= 0,
        label >= 0,
    ensures
        total >= label + 15 ==> labels::header_split(total, label) == (total - label - 3, label),
        15 <= total < label + 15 ==> labels::header_split(total, label) == (12int, total - 15),
        12 <= total < 15 && label > 0 ==> labels::header_split(total, label) == (12int, 0int),
        total < 12 ==> labels::header_split(total, label) == (total, 0int),
{
}

/// The columns of a history's header: the path first, then the hash with its separator if
/// the subject still gets ten columns, then the subject, one column away.
pub proof fn law_history_header_columns(
    total: int,
    path: int,
    hash: int,
    suffix: int,
    pill: bool,
)
    requires
        total >= 0,
        path >= 0,
        hash >= 0,
        suffix >= 0,
    ensures
        ({
            let fixed = suffix + if pill {
                15int
            } else {
                3
            };
            let (p, shown, subject) = labels::history_split(total, path, hash, suffix, pill);
            &&& total - fixed >= path ==> p == path
            &&& 0 <= total - fixed < path ==> p == total - fixed
            &&& total < fixed ==> p == 0
            &&& shown <==> total - fixed - path >= hash + 14
            &&& shown ==> subject == total - fixed - path - hash - 4
            &&& !shown && total - fixed - path >= 1 ==> subject == total - fixed - path - 1
            &&& total - fixed <= path ==> subject == 0
        }),
{
}

/// The color of each kind of change.
pub proof fn law_kind_colors()
    ensures
        labels::kind_color(ChangeKind::Modified) == Ink::Yellow,
        labels::kind_color(ChangeKind::Added) == Ink::Green,
        labels::kind_color(ChangeKind::Deleted) == Ink::Red,
        labels::kind_color(ChangeKind::Renamed) == Ink::Cyan,
        labels::kind_color(ChangeKind::Untracked) == Ink::Blue,
{
}

} // verus!
