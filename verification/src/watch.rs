//! Change detection by polling `git status`: when two looks differ, and how long to
//! wait between them.

use vstd::prelude::*;
use vstd::utf8::{encode_utf8, is_char_boundary};
use crate::delta::Output;
use crate::git;
use crate::txt;

verus! {

/// The path of a status entry `XY path`; nothing for rename-origin path tokens and
/// anything that isn't a proper entry.
pub open spec fn listed_path(tok: Seq<char>) -> Option<Seq<char>> {
    if encode_utf8(tok).len() > 2 && encode_utf8(tok)[2] == 0x20 && git::cuts_at(tok, 3) {
        Some(git::from_byte(tok, 3))
    } else {
        None
    }
}

/// The paths that the first `n` tokens of a status list.
pub open spec fn listed_upto(tokens: Seq<Seq<char>>, n: int) -> Seq<Seq<char>>
    decreases n,
{
    if n <= 0 {
        Seq::empty()
    } else {
        match listed_path(tokens[n - 1]) {
            Some(path) => listed_upto(tokens, n - 1).push(path),
            None => listed_upto(tokens, n - 1),
        }
    }
}

/// The paths that a status lists.
pub open spec fn listed_paths(status: Seq<char>) -> Seq<Seq<char>> {
    let tokens = txt::split(status, '\0');
    listed_upto(tokens, tokens.len() as int)
}

/// The paths of the files that a `git status` lists, whose mtimes the signature folds
/// in.
pub fn status_paths(out: &Output) -> (r: Vec<String>)
    ensures
        txt::texts(r@) == listed_paths(git::output_text(*out)),
{
    broadcast use vstd::utf8::encode_utf8_decode_utf8;

    let text = txt::chars_of(txt::utf8_lossy(out.stdout.as_slice()).as_str());
    let tokens = txt::split_chars(text.as_slice(), '\0');
    let ghost all = txt::parts_of(tokens@);
    let mut paths: Vec<String> = Vec::new();
    let mut i: usize = 0;
    assert(txt::texts(paths@) =~= Seq::<Seq<char>>::empty());
    while i < tokens.len()
        invariant
            i <= tokens@.len(),
            all == txt::parts_of(tokens@),
            txt::texts(paths@) == listed_upto(all, i as int),
        decreases tokens@.len() - i,
    {
        let tok = txt::string_of(tokens[i].as_slice());
        assert(all[i as int] == tok@);
        let bytes = tok.as_str().as_bytes();
        if bytes.len() > 2 && bytes[2] == 0x20 && tok.as_str().is_char_boundary(3) {
            txt::push_text(&mut paths, git::tail_from(tok.as_str(), 3));
        }
        i = i + 1;
    }
    assert(all.len() == tokens@.len());
    paths
}

/// What the first `n` listed files add to the signature: path and mtime of each that
/// has one (in nanoseconds since the epoch).
pub open spec fn stamps_upto(paths: Seq<Seq<char>>, mtimes: Seq<Option<u128>>, n: int) -> Seq<char>
    decreases n,
{
    if n <= 0 {
        Seq::empty()
    } else {
        match mtimes[n - 1] {
            Some(t) => stamps_upto(paths, mtimes, n - 1) + ("|"@ + paths[n - 1] + ":"@
                + txt::decimal(t as nat)),
            None => stamps_upto(paths, mtimes, n - 1),
        }
    }
}

/// The signature of a working tree: the status and the mtimes of the files it lists.
pub open spec fn tree_signature(status: Seq<char>, mtimes: Seq<Option<u128>>) -> Seq<char> {
    status + stamps_upto(listed_paths(status), mtimes, listed_paths(status).len() as int)
}

/// A cheap fingerprint of the working tree: `git status` output plus the mtimes of the
/// files it lists (`None` for one that can't be read, or before the epoch). Changes
/// whenever files are added/removed/renamed or an existing changed file is edited again.
pub fn change_signature(out: &Output, mtimes: &Vec<Option<u128>>) -> (r: String)
    requires
        mtimes@.len() == listed_paths(git::output_text(*out)).len(),
    ensures
        r@ == tree_signature(git::output_text(*out), mtimes@),
{
    let paths = status_paths(out);
    let ghost all = txt::texts(paths@);
    let mut sig = txt::utf8_lossy(out.stdout.as_slice());
    let ghost status = sig@;
    let mut i: usize = 0;
    assert(status + stamps_upto(all, mtimes@, 0) =~= status);
    while i < paths.len()
        invariant
            i <= paths@.len(),
            paths@.len() == mtimes@.len(),
            all == txt::texts(paths@),
            sig@ == status + stamps_upto(all, mtimes@, i as int),
        decreases paths@.len() - i,
    {
        assert(all[i as int] == paths@[i as int]@);
        let ghost was = sig@;
        if let Some(t) = mtimes[i] {
            sig.append("|");
            sig.append(paths[i].as_str());
            sig.append(":");
            txt::push_big_decimal(&mut sig, t);
            assert(sig@ =~= status + stamps_upto(all, mtimes@, i as int + 1));
        }
        i = i + 1;
    }
    assert(all.len() == paths@.len());
    sig
}

/// Whether a signature tells of a change: there was one before, and it was another.
pub open spec fn differs(before: Option<Seq<char>>, now: Seq<char>) -> bool {
    before matches Some(b) && b != now
}

/// Whether a look at the tree is to be signalled: the tree was looked at before, and
/// looks different now.
pub fn is_change(before: &Option<String>, now: &str) -> (r: bool)
    ensures
        r == differs(txt::opt_text(*before), now@),
{
    match before {
        Some(b) => !txt::same(b.as_str(), now),
        None => false,
    }
}

/// How long to wait between looks, in nanoseconds.
pub open spec fn poll_pause(elapsed: u64) -> int {
    if elapsed * 3 > 600_000_000 {
        elapsed * 3
    } else {
        600_000_000
    }
}

/// How long to wait after a look that took `elapsed` nanoseconds: the baseline cadence,
/// but never looking more often than ~3× the time a look takes, so on a repo where
/// `git status` is slow we back off automatically.
pub fn pause_after(elapsed: u64) -> (r: u128)
    ensures
        r == poll_pause(elapsed),
{
    let slow: u128 = elapsed as u128 * 3;
    if slow > 600_000_000 {
        slow
    } else {
        600_000_000
    }
}

/// What a file with a modification time adds to the signature ends in the digits of
/// that time, behind a colon.
proof fn lemma_same_stamp(a: Seq<char>, b: Seq<char>, path: Seq<char>, t: u128, u: u128)
    requires
        a + ("|"@ + path + ":"@ + txt::decimal(t as nat)) == b + ("|"@ + path + ":"@
            + txt::decimal(u as nat)),
    ensures
        t == u,
        a == b,
{
    reveal_strlit("|");
    reveal_strlit(":");
    let (d, e) = (txt::decimal(t as nat), txt::decimal(u as nat));
    let head = "|"@ + path + ":"@;
    let (x, y) = (a + (head + d), b + (head + e));
    let n = x.len() as int;
    txt::lemma_decimal_digits(t as nat);
    txt::lemma_decimal_digits(u as nat);
    if d.len() < e.len() {
        assert(x[n - d.len() - 1] == ':');
        assert(y[n - d.len() - 1] == e[e.len() - d.len() - 1]);
    }
    if d.len() > e.len() {
        assert(y[n - e.len() - 1] == ':');
        assert(x[n - e.len() - 1] == d[d.len() - e.len() - 1]);
    }
    assert(d =~= x.subrange(n - d.len(), n));
    assert(e =~= y.subrange(n - e.len(), n));
    let k = n - d.len() - head.len();
    assert(a =~= x.subrange(0, k));
    assert(b =~= y.subrange(0, k));
    txt::law_decimal_round_trip(t as nat, u128::MAX as nat);
    txt::law_decimal_round_trip(u as nat, u128::MAX as nat);
}

proof fn lemma_same_stamps(
    a: Seq<char>,
    paths: Seq<Seq<char>>,
    before: Seq<Option<u128>>,
    now: Seq<Option<u128>>,
    n: int,
)
    requires
        0 <= n <= before.len(),
        n <= now.len(),
        forall|i: int| 0 <= i < n ==> (#[trigger] before[i] is Some) == (now[i] is Some),
        a + stamps_upto(paths, before, n) == a + stamps_upto(paths, now, n),
    ensures
        forall|i: int| 0 <= i < n ==> #[trigger] before[i] == now[i],
    decreases n,
{
    if n > 0 {
        assert(before[n - 1] is Some == now[n - 1] is Some);
        match (before[n - 1], now[n - 1]) {
            (Some(t), Some(u)) => {
                let (x, y) = (stamps_upto(paths, before, n - 1), stamps_upto(paths, now, n - 1));
                let p = "|"@ + paths[n - 1] + ":"@;
                assert(a + (x + (p + txt::decimal(t as nat))) =~= (a + x) + (p + txt::decimal(
                    t as nat,
                )));
                assert(a + (y + (p + txt::decimal(u as nat))) =~= (a + y) + (p + txt::decimal(
                    u as nat,
                )));
                lemma_same_stamp(a + x, a + y, paths[n - 1], t, u);
            },
            _ => {},
        }
        lemma_same_stamps(a, paths, before, now, n - 1);
    }
}

/// Editing a changed file again is detected: with the same status and the same files
/// readable, the signature is the same only if every modification time is.
pub proof fn law_edits_are_detected(
    status: Seq<char>,
    before: Seq<Option<u128>>,
    now: Seq<Option<u128>>,
    i: int,
)
    requires
        before.len() == listed_paths(status).len(),
        now.len() == listed_paths(status).len(),
        forall|k: int|
            0 <= k < before.len() ==> (#[trigger] before[k] is Some) == (now[k] is Some),
        0 <= i < before.len(),
        before[i] != now[i],
    ensures
        tree_signature(status, before) != tree_signature(status, now),
{
    if tree_signature(status, before) == tree_signature(status, now) {
        lemma_same_stamps(
            status,
            listed_paths(status),
            before,
            now,
            listed_paths(status).len() as int,
        );
        assert(before[i] == now[i]);
    }
}

} // verus!
