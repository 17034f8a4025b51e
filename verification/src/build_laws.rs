//! What the combined diff is made of, and what running delta comes to.

use vstd::prelude::*;
use crate::building;
use crate::building::Drafted;
use crate::delta;
use crate::delta::{Cached, DeltaRun, Output, Production};
use crate::git::ChangeKind;
use crate::history;
use crate::listing;
use crate::rich;
use crate::rich::Row;
use crate::rich_laws;
use crate::search;
use crate::state::State;
use crate::txt;

verus! {

// --- sections ----------------------------------------------------------------------------

/// What a file's section shows: its diff, wrapped at the pane's width; one line where
/// there is no text to show, or where something went wrong.
pub proof fn law_what_a_section_shows(path: Seq<char>, text: Seq<Row>, message: Seq<char>, width: u16)
    requires
        forall|i: int| 0 <= i < path.len() ==> #[trigger] path[i] != '\n',
        forall|i: int| 0 <= i < message.len() ==> #[trigger] message[i] != '\n',
    ensures
        text.len() > 0 ==> building::section_rows(path, Ok(text), width) == rich::wrapped_all(
            text,
            width as nat,
        ),
        ({
            let rows = building::section_rows(path, Ok(Seq::empty()), width);
            rows.len() == 1 && rich::row_text(rows[0]) == "  (no textual diff)"@
        }),
        ({
            let rows = building::section_rows(path, Err(message), width);
            rows.len() == 1 && rich::row_text(rows[0]) == "  error rendering "@ + path + ": "@
                + message
        }),
{
    reveal_strlit("  (no textual diff)");
    reveal_strlit("  error rendering ");
    reveal_strlit(": ");
    rich_laws::law_plain_rows("  (no textual diff)"@);
    let (a, b) = ("  error rendering "@, ": "@);
    let line = a + path + b + message;
    assert forall|i: int| 0 <= i < line.len() implies #[trigger] line[i] != '\n' by {
        if i < a.len() {
            assert(line[i] == a[i]);
        } else if i < a.len() + path.len() {
            assert(line[i] == path[i - a.len()]);
        } else if i < a.len() + path.len() + b.len() {
            assert(line[i] == b[i - a.len() - path.len()]);
        } else {
            assert(line[i] == message[i - a.len() - path.len() - b.len()]);
        }
    }
    rich_laws::law_plain_rows(line);
}

/// A wrapped text is the wrapped lines, one after the other.
pub proof fn law_lines_wrap_one_by_one(text: Seq<Row>, row: Row, w: nat)
    ensures
        rich::wrapped_all(text.push(row), w) == rich::wrapped_all(text, w) + rich::wrapped(row, w),
        rich::wrapped_all(Seq::empty(), w) == Seq::<Row>::empty(),
        w == 0 || rich::width(row.runs) <= w ==> rich::wrapped(row, w) == seq![row],
{
    lemma_wrapped_start(text.push(row), text, w, text.len() as int);
}

proof fn lemma_wrapped_start(a: Seq<Row>, b: Seq<Row>, w: nat, n: int)
    requires
        n <= a.len(),
        n <= b.len(),
        forall|i: int| 0 <= i < n ==> #[trigger] a[i] == b[i],
    ensures
        rich::wrapped_upto(a, w, n) == rich::wrapped_upto(b, w, n),
    decreases n,
{
    if n > 0 {
        lemma_wrapped_start(a, b, w, n - 1);
        assert(a[n - 1] == b[n - 1]);
    }
}

/// A file's section is what is cached of it at this width, or else what was produced for
/// it; and the matches in the diff are those of its sections, file after file, each
/// knowing its file.
pub proof fn law_file_by_file(s: State, made: Seq<Production>, k: int, i: int)
    requires
        0 <= k < s.list.filtered.len(),
        s.list.filtered.len() <= usize::MAX,
    ensures
        ({
            let was = s.built_upto(made, k);
            let now = s.built_upto(made, k + 1);
            let e = s.list.files[s.list.filtered[k] as int];
            let sig = listing::signature_of(e);
            let width = s.pane.diff_width;
            let shown = if was.cache.map.contains_key((e.path, sig, width)) {
                Ok(was.cache.map[(e.path, sig, width)])
            } else {
                made[k].shown()
            };
            let before = was.draft.matches.len();
            &&& now.draft.rows == was.draft.rows + building::section_rows(e.path, shown, width)
            &&& now.draft.offsets == was.draft.offsets.push(was.draft.rows.len() as usize)
            &&& now.draft.matches.len() >= before
            &&& now.draft.matches.take(before as int) == was.draft.matches
            &&& before <= i < now.draft.matches.len() ==> now.draft.matches[i].file_pos == k
            &&& search::content_needle(s.find.search) is None ==> now.draft.matches
                == was.draft.matches
            &&& shown is Err ==> now.draft.complaint == Some(shown->Err_0) && now.draft.matches
                == was.draft.matches
        }),
{
    let was = s.built_upto(made, k);
    let now = s.built_upto(made, k + 1);
    let e = s.filtered_entry(k);
    let sig = listing::signature_of(e);
    let width = s.pane.diff_width;
    let shown = was.cache.shown(e.path, sig, width, made[k]);
    let cache = was.cache.after_showing(e.path, sig, width, made[k]);
    let start = was.draft.rows.len() as int;
    let raw = cache.raw_text(e.path, sig);
    let more = building::section_matches(shown, raw, s.hunt(), width, start, k);
    assert(now.draft.matches == was.draft.matches + more);
    assert(now.draft.matches.take(was.draft.matches.len() as int) =~= was.draft.matches);
    if more.len() == 0 {
        assert(was.draft.matches + more =~= was.draft.matches);
    }
    if shown is Ok && s.hunt().needle is Some && raw is Some {
        let found = search::located_matches(
            raw->0,
            rich::row_texts(shown->Ok_0),
            s.hunt().needle->0,
            s.hunt().scope,
            s.hunt().tab_width,
        );
        lemma_placed(shown->Ok_0, width, start, k, found, found.len() as int);
    }
}

proof fn lemma_placed(
    text: Seq<Row>,
    width: u16,
    start: int,
    file_pos: int,
    found: Seq<search::Located>,
    n: int,
)
    requires
        0 <= n <= found.len(),
        0 <= file_pos <= usize::MAX,
    ensures
        building::placed_upto(text, width, start, file_pos, found, n).len() == n,
        forall|i: int|
            0 <= i < n ==> #[trigger] building::placed_upto(
                text,
                width,
                start,
                file_pos,
                found,
                n,
            )[i] == building::placed_match(text, width, start, file_pos, found[i]),
        forall|i: int|
            0 <= i < n ==> (#[trigger] building::placed_upto(
                text,
                width,
                start,
                file_pos,
                found,
                n,
            )[i]).file_pos == file_pos,
    decreases n,
{
    if n > 0 {
        lemma_placed(text, width, start, file_pos, found, n - 1);
    }
}

/// The matches of a section: one for each match located in its diff, in their order;
/// one that was not located stands for the section's top and is not highlighted.
pub proof fn law_matches_of_a_section(
    text: Seq<Row>,
    raw: Seq<char>,
    s: State,
    start: int,
    file_pos: int,
    i: int,
)
    requires
        text.len() > 0,
        search::content_needle(s.find.search) is Some,
        0 <= file_pos <= usize::MAX,
        0 <= start <= usize::MAX,
        0 <= i < search::located_matches(
            raw,
            rich::row_texts(text),
            search::content_needle(s.find.search)->0,
            s.find.search_scope,
            s.source.tab_width,
        ).len(),
    ensures
        ({
            let found = search::located_matches(
                raw,
                rich::row_texts(text),
                search::content_needle(s.find.search)->0,
                s.find.search_scope,
                s.source.tab_width,
            );
            let here = building::section_matches(
                Ok(text),
                Some(raw),
                s.hunt(),
                s.pane.diff_width,
                start,
                file_pos,
            );
            &&& here.len() == found.len()
            &&& here[i].aligned == found[i].aligned
            &&& !found[i].aligned ==> here[i].row == start && here[i].cols == (0usize, 0usize)
            &&& here[i].file_pos == file_pos
        }),
{
    let found = search::located_matches(
        raw,
        rich::row_texts(text),
        search::content_needle(s.find.search)->0,
        s.find.search_scope,
        s.source.tab_width,
    );
    lemma_placed(text, s.pane.diff_width, start, file_pos, found, found.len() as int);
}

// --- the viewport ------------------------------------------------------------------------

/// The diff is out of date when something it is made of changed, or the pane's width did.
pub proof fn law_when_to_build(s: State)
    ensures
        s.needs_build() <==> s.pane.needs_rebuild || s.pane.built_width != s.pane.diff_width,
{
}

/// What a new diff changes: its rows, sections and matches take the place of the old ones,
/// the current match stays as long as there are that many, and a complaint is shown.
pub proof fn law_a_new_diff(s: State, d: Drafted)
    requires
        s.find.current_match >= 0,
    ensures
        ({
            let t = s.install(d);
            &&& t.pane.combined == d.rows && t.pane.offsets == d.offsets
            &&& t.find.matches == d.matches
            &&& s.find.current_match < d.matches.len() ==> t.find.current_match
                == s.find.current_match
            &&& s.find.current_match >= d.matches.len() && d.matches.len() > 0
                ==> t.find.current_match == d.matches.len() - 1
            &&& d.complaint is Some ==> t.note.status == d.complaint->0
            &&& d.complaint is None ==> t.note == s.note
            &&& !t.needs_build()
            &&& t.list == s.list && t.pane.diff_scroll == s.pane.diff_scroll
        }),
{
}

proof fn lemma_path_position(s: State, path: Seq<char>, from: int, k: int)
    requires
        0 <= from <= k < s.list.filtered.len(),
        s.filtered_entry(k).path == path,
        forall|j: int| from <= j < k ==> (#[trigger] s.filtered_entry(j)).path != path,
    ensures
        s.path_position(path, from) == Some(k),
    decreases k - from,
{
    if from < k {
        assert(s.filtered_entry(from).path != path);
        lemma_path_position(s, path, from + 1, k);
    }
}

proof fn lemma_no_position(s: State, path: Seq<char>, from: int)
    requires
        0 <= from,
        forall|j: int|
            from <= j < s.list.filtered.len() ==> (#[trigger] s.filtered_entry(j)).path != path,
    ensures
        s.path_position(path, from) is None,
    decreases s.list.filtered.len() - from,
{
    if from < s.list.filtered.len() {
        assert(s.filtered_entry(from).path != path);
        lemma_no_position(s, path, from + 1);
    }
}

/// The viewport is put back on the same line of the same file, wherever its section now
/// is; if the file is no longer listed, it stays where it is.
pub proof fn law_back_to_the_same_place(s: State, path: Seq<char>, line: int, k: int)
    requires
        s.pane.restore_anchor == Some((path, line)),
        0 <= k < s.list.filtered.len(),
        forall|j: int|
            0 <= j < k ==> s.list.files[#[trigger] s.list.filtered[j] as int].path != path,
    ensures
        ({
            let t = s.restore_viewport();
            let there = s.list.files[s.list.filtered[k] as int].path == path;
            &&& there ==> t.list.selected == k && (s.pane.offsets[k] + line <= 65535
                ==> t.pane.diff_scroll == s.pane.offsets[k] + line) && (s.pane.offsets[k] + line
                > 65535 ==> t.pane.diff_scroll == 65535)
            &&& !there && k + 1 == s.list.filtered.len() ==> t.pane.diff_scroll
                == s.pane.diff_scroll && t.list.selected == s.list.selected
            &&& t.pane.restore_anchor is None
        }),
{
    let there = s.list.files[s.list.filtered[k] as int].path == path;
    assert forall|j: int| 0 <= j < k implies (#[trigger] s.filtered_entry(j)).path != path by {
        assert(s.list.files[s.list.filtered[j] as int].path != path);
    }
    if there {
        lemma_path_position(s, path, 0, k);
    } else if k + 1 == s.list.filtered.len() {
        assert forall|j: int| 0 <= j < s.list.filtered.len() implies (#[trigger] s.filtered_entry(
            j,
        )).path != path by {
            if j < k {
                assert(s.list.files[s.list.filtered[j] as int].path != path);
            }
        }
        lemma_no_position(s, path, 0);
    }
}

/// A search jumps to its first match once the diff is built, and only once.
pub proof fn law_the_jump_to_the_first_match(s: State)
    ensures
        !s.jump_to_match().find.pending_match_jump,
        s.find.pending_match_jump && s.find.matches.len() > 0 ==> s.jump_to_match().pane
            == s.center_current_match().pane,
        !s.find.pending_match_jump || s.find.matches.len() == 0 ==> s.jump_to_match().pane == s.pane,
{
    if s.find.pending_match_jump && s.find.matches.len() > 0 {
        let t = State {
            find: crate::state::FindState { pending_match_jump: false, ..s.find },
            ..s
        };
        lemma_center_ignores_the_jump(s, t);
    }
}

proof fn lemma_center_ignores_the_jump(s: State, t: State)
    requires
        t == (State {
            find: crate::state::FindState { pending_match_jump: false, ..s.find },
            ..s
        }),
    ensures
        t.center_current_match().pane == s.center_current_match().pane,
{
    if s.find.current_match < s.find.matches.len() {
        let (a, b) = (s.aim_at_match(), t.aim_at_match());
        assert(a.view_window() == b.view_window());
        assert(a.max_scroll() == b.max_scroll());
    }
}

// --- delta -------------------------------------------------------------------------------

/// How delta is run: unpaged, in true color, at the pane's width but 20 columns at least,
/// with the tab width, and with the theme if one is chosen.
pub proof fn law_how_delta_is_run(width: u16, theme: Seq<char>, tabs: u16)
    ensures
        ({
            let plain = delta::delta_arguments(width, None, tabs);
            let themed = delta::delta_arguments(width, Some(theme), tabs);
            &&& plain.len() == 8
            &&& plain[0] == "--paging"@ && plain[1] == "never"@
            &&& plain[2] == "--true-color"@ && plain[3] == "always"@
            &&& plain[4] == "--width"@
            &&& width >= 20 ==> plain[5] == txt::decimal(width as nat)
            &&& width < 20 ==> plain[5] == txt::decimal(20)
            &&& plain[6] == "--tabs"@ && plain[7] == txt::decimal(tabs as nat)
            &&& themed == plain + seq!["--syntax-theme"@, theme]
        }),
{
}

/// What is shown of a diff: what delta printed, even if it failed after that; git's own
/// diff where delta is missing; and a message where delta failed without a word of output,
/// or could not be run.
pub proof fn law_what_delta_shows(raw: Seq<u8>, out: Output)
    ensures
        delta::shown_bytes(raw, DeltaRun::Missing) == Ok::<Seq<u8>, Seq<char>>(raw),
        out.success || out.stdout@.len() > 0 ==> delta::shown_bytes(raw, DeltaRun::Ran(out)) == Ok::<
            Seq<u8>,
            Seq<char>,
        >(out.stdout@),
        !out.success && out.stdout@.len() == 0 ==> delta::shown_bytes(raw, DeltaRun::Ran(out))
            == Err::<Seq<u8>, Seq<char>>(
            "delta failed: "@ + txt::trimmed(txt::decoded(out.stderr@)),
        ),
        delta::shown_bytes(raw, DeltaRun::NotSpawned) is Err,
        delta::shown_bytes(raw, DeltaRun::NotRead) is Err,
        delta::shown_bytes(raw, DeltaRun::Missing) matches Ok(b) && delta::rendered(
            raw,
            DeltaRun::Missing,
        ) is Ok == delta::ansi_rows(b) is Some,
        delta::ansi_rows(out.stdout@) is Some && (out.success || out.stdout@.len() > 0)
            ==> delta::rendered(raw, DeltaRun::Ran(out)) == Ok::<Seq<Row>, Seq<char>>(
            delta::ansi_rows(out.stdout@)->0,
        ),
{
}

/// Why delta's themes cannot be listed, if they cannot.
pub proof fn law_listing_themes()
    ensures
        delta::themes_complaint(true, Some(true)) is None,
        delta::themes_complaint(true, Some(false)) == Some(
            "`delta --list-syntax-themes` failed"@,
        ),
        delta::themes_complaint(true, None) == Some(
            "failed to run `delta --list-syntax-themes`"@,
        ),
        forall|run: Option<bool>| #[trigger] delta::themes_complaint(false, run) is Some,
        delta::parse_failure(DeltaRun::Missing) == "failed to parse git's ANSI output"@,
        delta::parse_failure(DeltaRun::NotRead) == "failed to parse delta's ANSI output"@,
        delta::shown_bytes(Seq::empty(), DeltaRun::NotSpawned) == Err::<Seq<u8>, Seq<char>>(
            "failed to spawn `delta`"@,
        ),
        delta::shown_bytes(Seq::empty(), DeltaRun::NotRead) == Err::<Seq<u8>, Seq<char>>(
            "failed to read delta output"@,
        ),
{
}

/// What is searched of a diff is its text without colors.
pub proof fn law_what_is_searched(raw: Seq<u8>)
    ensures
        delta::searchable(raw) == search::plain_text(txt::decoded(raw)),
        !delta::searchable(raw).contains('\u{1b}'),
{
    crate::search_laws::law_stripped_text_has_no_escape(txt::decoded(raw));
}

/// What showing a file leaves in the cache: nothing new if it was there; else its
/// rendered diff, if it could be rendered, and its searchable text.
pub proof fn law_what_is_cached(c: Cached, path: Seq<char>, sig: u64, width: u16, made: Production)
    ensures
        ({
            let d = c.after_showing(path, sig, width, made);
            &&& c.contains(path, sig, width) ==> d == c
            &&& !c.contains(path, sig, width) && made.raw is Err ==> d == c
            &&& !c.contains(path, sig, width) && made.raw is Ok ==> {
                &&& c.raw_text(path, sig) is None ==> d.raw_text(path, sig) == Some(
                    delta::searchable(made.raw->Ok_0@),
                )
                &&& c.raw_text(path, sig) is Some ==> d.raw_text(path, sig) == c.raw_text(path, sig)
                &&& delta::rendered(made.raw->Ok_0@, made.run) is Ok ==> d.contains(
                    path,
                    sig,
                    width,
                ) && d.map[(path, sig, width)] == delta::rendered(made.raw->Ok_0@, made.run)->Ok_0
                &&& delta::rendered(made.raw->Ok_0@, made.run) is Err ==> !d.contains(
                    path,
                    sig,
                    width,
                )
            }
        }),
{
}

/// Diffs that were rendered ahead of time are found in the cache: the render at the pane's
/// width, and the searchable text; one that could not be rendered says why.
pub proof fn law_rendered_ahead(s: State, r: building::Rendered)
    ensures
        ({
            let t = s.warm_step(r);
            let c = t.source.cache;
            &&& r.text is Ok ==> c.map.contains_key((r.path@, r.sig, s.pane.diff_width)) && c.map[(
                r.path@,
                r.sig,
                s.pane.diff_width,
            )] == r.text->Ok_0@
            &&& r.text is Err ==> c.map == s.source.cache.map && t.note.status == r.text->Err_0@
            &&& r.raw is Some ==> c.raw_text(r.path@, r.sig) == Some(r.raw->0@)
            &&& r.raw is None ==> c.raw == s.source.cache.raw
            &&& t.list == s.list && t.pane == s.pane && t.find == s.find
        }),
        s.prewarm(seq![r]) == s.warm_step(r),
{
    reveal_with_fuel(State::warmed_upto, 2);
}

// --- histories ---------------------------------------------------------------------------

/// What is shown of a commit: its diff, wrapped at the pane's width, or one line in its
/// place.
pub proof fn law_what_a_commit_shows(text: Seq<Row>, message: Seq<char>, width: u16)
    requires
        forall|i: int| 0 <= i < message.len() ==> #[trigger] message[i] != '\n',
    ensures
        text.len() > 0 ==> history::shown_commit(Ok(text), width) == rich::wrapped_all(
            text,
            width as nat,
        ),
        ({
            let rows = history::shown_commit(Ok(Seq::empty()), width);
            rows.len() == 1 && rich::row_text(rows[0]) == "  (no textual diff)"@
        }),
        ({
            let rows = history::shown_commit(Err(message), width);
            rows.len() == 1 && rich::row_text(rows[0]) == "  error rendering history: "@ + message
        }),
{
    reveal_strlit("  (no textual diff)");
    reveal_strlit("  error rendering history: ");
    rich_laws::law_plain_rows("  (no textual diff)"@);
    let a = "  error rendering history: "@;
    let line = a + message;
    assert forall|i: int| 0 <= i < line.len() implies #[trigger] line[i] != '\n' by {
        if i < a.len() {
            assert(line[i] == a[i]);
        } else {
            assert(line[i] == message[i - a.len()]);
        }
    }
    rich_laws::law_plain_rows(line);
}

/// Going back from the live view asks for the history of the selected file, unless it is
/// untracked; going forward from it does nothing.
pub proof fn law_asking_for_a_history(s: State)
    requires
        s.history is None,
    ensures
        ({
            let t = s.history_back();
            let there = s.list.selected < s.list.filtered.len()
                && s.list.filtered[s.list.selected] < s.list.files.len();
            let e = s.list.files[s.list.filtered[s.list.selected] as int];
            &&& !there ==> t == s
            &&& there && e.kind != ChangeKind::Untracked ==> t.queue.history_request == Some(e.path)
            &&& t.history is None && t.pane == s.pane && t.list == s.list
        }),
        s.history_forward() == s,
{
    reveal(State::history_back);
    reveal(State::history_forward);
}

/// A step in a history shows the next commit from its top: at once if its diff was shown
/// before, and after it was rendered if not.
pub proof fn law_steps_in_a_history(s: State)
    requires
        s.history is Some,
    ensures
        ({
            let h = s.history->0;
            let back = s.history_back();
            let forward = s.history_forward();
            &&& h.pos + 1 < h.entries.len() ==> {
                let b = back.history->0;
                let older = h.entries[h.pos + 1].hash;
                &&& back.history is Some && b.pos == h.pos + 1
                &&& b.entries == h.entries && b.path == h.path && b.cache == h.cache
                &&& h.cache.contains_key(older) ==> b.text == h.cache[older]
                    && !back.queue.history_stale
                &&& !h.cache.contains_key(older) ==> back.queue.history_stale
            }
            &&& h.pos > 0 ==> {
                let f = forward.history->0;
                &&& forward.history is Some && f.pos == h.pos - 1
                &&& f.entries == h.entries && f.path == h.path
            }
            &&& h.pos + 1 < h.entries.len() && !h.cache.contains_key(h.entries[h.pos + 1].hash)
                ==> back.history->0.scroll == 0
        }),
{
    reveal(State::history_back);
    reveal(State::history_forward);
}

/// A commit's rendered diff is shown, and kept for the next time.
pub proof fn law_a_rendered_commit(s: State, made: Production)
    requires
        s.history is Some,
    ensures
        ({
            let h = s.history->0;
            let t = s.history_rendered(made);
            let text = history::shown_commit(made.shown(), s.pane.diff_width);
            &&& t.history matches Some(g) && g.text == text && g.cache.contains_key(
                h.entries[h.pos].hash,
            ) && g.cache[h.entries[h.pos].hash] == text && g.pos == h.pos && g.built_width
                == s.pane.diff_width
            &&& !t.queue.history_stale
            &&& t.pane == s.pane && t.list == s.list
        }),
{
}

/// A history is left when another file is selected, and rendered anew when the pane's
/// width changed.
pub proof fn law_histories_belong_to_their_file(s: State)
    requires
        s.history is Some,
    ensures
        ({
            let h = s.history->0;
            let t = s.sync_history();
            let same = s.current_entry() is Some && s.current_entry()->0.path == h.path;
            &&& !same ==> t.history is None
            &&& same && h.built_width == s.pane.diff_width ==> t == s
            &&& same && h.built_width != s.pane.diff_width ==> t.queue.history_stale
                && t.history is Some && t.history->0.cache == Map::<Seq<char>, Seq<Row>>::empty()
        }),
{
}

// --- the whole of it ---------------------------------------------------------------------

/// What building changes: the rows, sections and matches are those built from the listed
/// files; what was rendered is kept; the list and the filters stay.
pub proof fn law_what_building_changes(s: State, made: Seq<Production>)
    requires
        s.needs_build(),
    ensures
        ({
            let t = s.ensure_combined(made);
            let b = s.built_upto(made, s.list.filtered.len() as int);
            &&& t.pane.combined == b.draft.rows
            &&& t.pane.offsets == b.draft.offsets
            &&& t.find.matches == b.draft.matches
            &&& t.source.cache == b.cache
            &&& t.pane.built_width == s.pane.diff_width && !t.pane.needs_rebuild
            &&& t.list.files == s.list.files && t.list.filtered == s.list.filtered
            &&& t.find.search == s.find.search && t.find.kind_filter == s.find.kind_filter
            &&& t.pane.restore_anchor is None
            &&& !t.find.pending_match_jump
        }),
        !s.needs_build() ==> s.ensure_combined(made) == s,
{
    let b = s.built(made);
    let t = s.with_cache(b.cache).installed(b.draft);
    lemma_arriving(t);
    let u = s.with_cache(b.cache).install(b.draft);
    assert(u.restore_viewport().pane.restore_anchor is None);
}

proof fn lemma_arriving(s: State)
    ensures
        ({
            let t = s.arrive();
            &&& t.pane == (crate::state::PaneState { diff_scroll: t.pane.diff_scroll, ..s.pane })
            &&& t.find == (crate::state::FindState { pending_match_jump: false, ..s.find })
            &&& t.source == s.source
            &&& t.list == (crate::state::ListState { selected: t.list.selected, ..s.list })
        }),
{
}

/// Where the viewport arrives, when no jump is due: in view, on the line it was put on as
/// far as the diff reaches, with the file there selected.
pub proof fn law_where_the_viewport_arrives(s: State)
    requires
        s.wf(),
        !s.find.pending_match_jump,
        !s.control.follow,
        0 <= s.pane.diff_scroll,
    ensures
        ({
            let t = s.arrive();
            &&& s.pane.diff_scroll <= s.max_scroll() ==> t.pane.diff_scroll == s.pane.diff_scroll
            &&& s.pane.diff_scroll > s.max_scroll() ==> t.pane.diff_scroll == s.max_scroll()
            &&& s.pane.offsets.len() == 0 ==> t.list.selected == 0
            &&& s.pane.offsets.len() > 0 ==> t.list.selected == t.file_at_line(t.pane.diff_scroll)
        }),
{
    let a = s.clamp_scroll_to_window();
    let t = s.arrive();
    lemma_sections_alike(a, t, a.pane.diff_scroll, 0);
}

proof fn lemma_sections_alike(a: State, b: State, line: int, i: int)
    requires
        a.pane.offsets == b.pane.offsets,
    ensures
        a.section_from(line, i) == b.section_from(line, i),
    decreases a.pane.offsets.len() - i,
{
    if 0 <= i < a.pane.offsets.len() && a.pane.offsets[i] <= line {
        lemma_sections_alike(a, b, line, i + 1);
    }
}

/// What opening a history does when there is none to open.
pub proof fn law_histories_that_do_not_open(s: State, message: Seq<char>)
    requires
        s.queue.history_request is Some,
    ensures
        s.open_history(Err(message)).note.status == "git error: "@ + message,
        s.open_history(Err(message)).history == s.history,
        s.open_history(Err(message)).queue.history_request is None,
        s.open_history(Ok(Seq::empty())).queue.history_request is None,
{
}

/// A history that is shown after a build is that of the selected file, rendered at the
/// pane's width or about to be; one that is of another file is left.
pub proof fn law_no_history_of_another_file(s: State)
    ensures
        ({
            let t = s.arrive();
            &&& s.history is None ==> t.history is None
            &&& t.history matches Some(h) ==> {
                &&& t.current_entry() is Some && t.current_entry()->0.path == h.path
                &&& h.built_width == t.pane.diff_width || t.queue.history_stale
            }
            &&& s.history is Some && s.find.pending_match_jump == false && t.history is None
                ==> !(t.current_entry() is Some && t.current_entry()->0.path
                == s.history->0.path)
        }),
{
    let a = s.clamp_scroll_to_window().update_selected_from_scroll().jump_to_match();
    lemma_histories_if_any(a);
}

proof fn lemma_histories_if_any(s: State)
    ensures
        ({
            let t = s.sync_history();
            &&& t.list == s.list && t.pane == s.pane
            &&& s.history is None ==> t == s
            &&& t.history matches Some(h) ==> h.built_width == s.pane.diff_width
                || t.queue.history_stale
        }),
{
}

/// A commit that is shown again, or rendered, is not scrolled past its end.
pub proof fn law_shown_commits_are_in_view(s: State, made: Production)
    requires
        s.history is Some,
    ensures
        ({
            let h = s.history->0;
            let t = s.history_rendered(made);
            let g = t.history->0;
            let height = s.pane.diff_viewport_height as int;
            let most = if g.text.len() <= height {
                0
            } else if g.text.len() - height > 65535 {
                65535
            } else {
                g.text.len() - height
            };
            &&& h.scroll <= most ==> g.scroll == h.scroll
            &&& h.scroll > most ==> g.scroll == most
        }),
{
}

/// What is rendered ahead of time: the listed files of which no render is cached, as they
/// are now and at the pane's width; by as many workers as there are of them, or cores, and
/// no more than 16.
pub proof fn law_what_is_rendered_ahead(s: State, k: int, cores: int, cold: int)
    ensures
        ({
            let e = s.list.files[s.list.filtered[k] as int];
            s.is_cold(k) <==> !s.source.cache.map.dom().contains(
                (e.path, listing::signature_of(e), s.pane.diff_width),
            )
        }),
        cold <= cores && cold <= 16 ==> building::workers(cores, cold) == cold,
        cores <= cold && cores <= 16 ==> building::workers(cores, cold) == cores,
        16 <= cold && 16 <= cores ==> building::workers(cores, cold) == 16,
{
}

} // verus!
