//! When things happen: redraws, builds, checks and looks at the working tree.

use vstd::prelude::*;
use crate::delta::Output;
use crate::git;
use crate::git_laws;
use crate::pacing::{Pacing, Step};
use crate::state::State;
use crate::txt;
use crate::update;
use crate::watch;

verus! {

/// What comes next: a screen that is out of date is drawn first, then what has to be built
/// is built unless the divider is being dragged, and then the program waits, for a shorter
/// time while a selection scrolls along.
pub proof fn law_what_comes_next(p: Pacing, s: State)
    ensures
        p.step(s) == Step::Draw <==> p.dirty,
        p.step(s) == Step::Build <==> !p.dirty && s.needs_build() && !s.pointer.dragging_divider,
        p.step(s) == Step::Wait(30) || p.step(s) == Step::Wait(100) <==> !p.dirty && (
        !s.needs_build() || s.pointer.dragging_divider),
        p.step(s) == Step::Wait(30) ==> s.pointer.selecting && s.pointer.sel_autoscroll != 0,
        p.step(s) == Step::Wait(100) ==> !s.pointer.selecting || s.pointer.sel_autoscroll == 0,
{
}

/// Whether the branch is behind is asked when something changed, and otherwise when a
/// minute has passed, but never while an answer is awaited.
pub proof fn law_when_to_ask(p: Pacing, s: State, now: u64)
    requires
        p.behind_last <= now,
    ensures
        p.asks_behind(s, now) <==> !p.behind_inflight && (s.cues.behind_dirty || now
            - p.behind_last > 60_000_000_000),
{
}

/// At the end of a round a message that was shown for four seconds goes, a long name that
/// is shown moves on, and either is drawn.
pub proof fn law_the_end_of_a_round(s: State)
    ensures
        ({
            let t = s.round_ended();
            let expired = s.note.since is None || (s.control.clock >= s.note.since->0
                && s.control.clock - s.note.since->0 >= 4_000_000_000);
            &&& s.note.status.len() > 0 && expired ==> t.note.status.len() == 0
                && s.round_redraws()
            &&& !expired ==> t.note == s.note
            &&& s.note.status.len() == 0 ==> t.note == s.note
            &&& !s.marquee.active_path_overflow ==> t.marquee == s.marquee
            &&& t.list == s.list && t.pane == s.pane && t.find == s.find && t.source == s.source
        }),
{
}

/// Whether a check for updates is due: a day after the last one; one that was never
/// recorded, or that cannot be read, was at the beginning of time.
pub proof fn law_update_checks(last: nat, text: Seq<char>, now: u64)
    requires
        last <= u64::MAX,
    ensures
        update::due(Some(txt::decimal(last)), now) <==> now - last >= 86400,
        update::due(None, now) <==> now >= 86400,
        txt::parsed(txt::trimmed(text), u64::MAX as nat) is None ==> (update::due(Some(text), now)
            <==> now >= 86400),
{
    txt::law_decimal_round_trip(last, u64::MAX as nat);
    crate::config_laws::lemma_number_trims(last);
}

/// An update was installed if the installer succeeded and said that it replaced something.
pub proof fn law_updates_that_were_installed(out: Output, before: Seq<char>, after: Seq<char>)
    ensures
        update::installed(out) ==> out.success,
        out.success && txt::decoded(out.stderr@) == before + "Replacing"@ + after
            ==> update::installed(out),
        update::installed(out) ==> exists|a: Seq<char>, b: Seq<char>|
            #[trigger] (a + "Replacing"@ + b) == txt::decoded(out.stderr@),
        update::updated_message() == "✨ diffski updated — restart to apply"@,
{
    crate::text_laws::law_holding(txt::decoded(out.stderr@), "Replacing"@);
}

/// The tree changed when its signature is another than before; the first look tells of no
/// change.
pub proof fn law_changes_of_the_tree(before: Seq<char>, now: Seq<char>)
    ensures
        watch::differs(Some(before), now) <==> before != now,
        !watch::differs(None, now),
{
}

/// How long to wait between looks: three times as long as the last one took, and 0.6
/// seconds at least.
pub proof fn law_looks_at_the_tree(elapsed: u64)
    ensures
        watch::poll_pause(elapsed) >= 600_000_000,
        watch::poll_pause(elapsed) >= 3 * elapsed,
        watch::poll_pause(elapsed) == 600_000_000 || watch::poll_pause(elapsed) == 3 * elapsed,
{
}

/// The files whose times are watched are those that a status lists, record by record; an
/// old path of a rename, which has no blank in the third place, is none.
pub proof fn law_watched_files(x: char, y: char, path: Seq<char>, rest: Seq<char>)
    requires
        (x as u32) < 128,
        (y as u32) < 128,
        x != '\0',
        y != '\0',
        git_laws::unbroken(path),
    ensures
        watch::listed_paths(git_laws::status_record(x, y, path).push('\0') + rest) == seq![path]
            + watch::listed_paths(rest),
        watch::listed_paths(Seq::empty()) == Seq::<Seq<char>>::empty(),
{
    let record = git_laws::status_record(x, y, path);
    git::law_status_records(x, y, path);
    assert(record =~= seq![x] + (seq![y] + (seq![' '] + path)));
    git_laws::lemma_third_byte(x, y, path);
    assert forall|i: int| 0 <= i < record.len() implies #[trigger] record[i] != '\0' by {
        if i >= 3 {
            assert(record[i] == path[i - 3]);
        }
    }
    txt::lemma_split_one(record, '\0');
    txt::lemma_split_join(record, rest, '\0');
    let q = txt::split(rest, '\0');
    lemma_listed(seq![record], q, q.len() as int);
    reveal_with_fuel(watch::listed_upto, 2);
    assert(watch::listed_upto(seq![record], 1) =~= seq![path]);
    let nothing = Seq::<char>::empty();
    txt::lemma_split_one(nothing, '\0');
    vstd::utf8::encode_utf8_valid_utf8(nothing);
    assert(vstd::utf8::encode_utf8(nothing).len() == 0);
    assert(watch::listed_paths(nothing) =~= Seq::<Seq<char>>::empty());
}

proof fn lemma_listed(p: Seq<Seq<char>>, q: Seq<Seq<char>>, k: int)
    requires
        0 <= k <= q.len(),
    ensures
        watch::listed_upto(p + q, p.len() + k) == watch::listed_upto(p, p.len() as int)
            + watch::listed_upto(q, k),
    decreases k,
{
    let all = p + q;
    let first = watch::listed_upto(p, p.len() as int);
    if k == 0 {
        lemma_listed_start(all, p, p.len() as int);
        assert(first + watch::listed_upto(q, 0) =~= first);
    } else {
        lemma_listed(p, q, k - 1);
        assert(all[p.len() + k - 1] == q[k - 1]);
        assert(watch::listed_upto(all, p.len() + k) =~= first + watch::listed_upto(q, k));
    }
}

proof fn lemma_listed_start(a: Seq<Seq<char>>, b: Seq<Seq<char>>, n: int)
    requires
        n <= a.len(),
        n <= b.len(),
        forall|i: int| 0 <= i < n ==> #[trigger] a[i] == b[i],
    ensures
        watch::listed_upto(a, n) == watch::listed_upto(b, n),
    decreases n,
{
    if n > 0 {
        lemma_listed_start(a, b, n - 1);
        assert(a[n - 1] == b[n - 1]);
    }
}

/// A change of the status itself is detected, as long as no file's time is known: the
/// signature is then the status.
pub proof fn law_the_status_is_part_of_the_signature(status: Seq<char>, mtimes: Seq<Option<u128>>)
    requires
        mtimes.len() == watch::listed_paths(status).len(),
    ensures
        watch::tree_signature(status, mtimes).len() >= status.len(),
        watch::tree_signature(status, mtimes).take(status.len() as int) == status,
        (forall|i: int| 0 <= i < mtimes.len() ==> #[trigger] mtimes[i] is None)
            ==> watch::tree_signature(status, mtimes) == status,
{
    assert(watch::tree_signature(status, mtimes).take(status.len() as int) =~= status);
    if forall|i: int| 0 <= i < mtimes.len() ==> #[trigger] mtimes[i] is None {
        let paths = watch::listed_paths(status);
        lemma_no_stamps(paths, mtimes, paths.len() as int);
        assert(watch::tree_signature(status, mtimes) =~= status);
    }
}

proof fn lemma_no_stamps(paths: Seq<Seq<char>>, mtimes: Seq<Option<u128>>, n: int)
    requires
        0 <= n <= mtimes.len(),
        forall|i: int| 0 <= i < mtimes.len() ==> #[trigger] mtimes[i] is None,
    ensures
        watch::stamps_upto(paths, mtimes, n).len() == 0,
    decreases n,
{
    if n > 0 {
        assert(mtimes[n - 1] is None);
        lemma_no_stamps(paths, mtimes, n - 1);
    }
}

} // verus!
