//! Refs and commits: the repository's root, the diff base, the base branch, and
//! the commits that touched a file.

use vstd::prelude::*;
use crate::delta;
use crate::delta::Output;
use crate::git;
use crate::git::{ChangeKind, FileEntry, EMPTY_TREE};
use crate::table::NameSet;
use crate::txt;

verus! {

/// The text a command's output decodes to, without surrounding whitespace.
pub open spec fn answer(out: Output) -> Seq<char> {
    txt::trimmed(git::output_text(out))
}

fn answer_of(out: &Output) -> (r: String)
    ensures
        r@ == answer(*out),
{
    txt::trim(txt::utf8_lossy(out.stdout.as_slice()).as_str())
}

/// What a result says.
pub open spec fn said(r: Result<String, String>) -> Result<Seq<char>, Seq<char>> {
    match r {
        Ok(text) => Ok(text@),
        Err(message) => Err(message@),
    }
}

// --- the repository ------------------------------------------------------------

/// The repository root that git names for `path`, or the error's message.
pub open spec fn root_of(out: Output, path: Seq<char>) -> Result<Seq<char>, Seq<char>> {
    if !out.success {
        Err("not a git repository: "@ + path)
    } else if answer(out).len() == 0 {
        Err("could not resolve git repository root for "@ + path)
    } else {
        Ok(answer(out))
    }
}

/// The git repository (or worktree) root for `path`, from the output of
/// `git rev-parse --show-toplevel` there.
pub fn repo_root(out: &Output, path: &str) -> (r: Result<String, String>)
    ensures
        said(r) == root_of(*out, path@),
{
    if !out.success {
        let mut message = "not a git repository: ".to_owned();
        message.append(path);
        return Err(message);
    }
    let root = answer_of(out);
    if root.as_str().is_empty() {
        let mut message = "could not resolve git repository root for ".to_owned();
        message.append(path);
        return Err(message);
    }
    Ok(root)
}

/// The diff base of the working tree.
pub open spec fn working_base(has_head: bool) -> Seq<char> {
    if has_head {
        "HEAD"@
    } else {
        EMPTY_TREE@
    }
}

/// The diff base: `HEAD` when there is at least one commit, otherwise the empty
/// tree so that a fresh repo's staged files still show up as additions.
pub fn diff_base(has_head: bool) -> (r: String)
    ensures
        r@ == working_base(has_head),
{
    if has_head {
        "HEAD".to_owned()
    } else {
        EMPTY_TREE.to_owned()
    }
}

// --- the base branch -----------------------------------------------------------

/// The branches that are tried, in order, when the remote names no default.
pub open spec fn base_candidates() -> Seq<Seq<char>> {
    seq!["origin/main"@, "origin/master"@, "main"@, "master"@]
}

/// The branches that are tried, in order, when the remote names no default.
pub fn candidates() -> (r: Vec<String>)
    ensures
        txt::texts(r@) == base_candidates(),
{
    let mut r: Vec<String> = Vec::new();
    assert(txt::texts(r@) =~= Seq::<Seq<char>>::empty());
    txt::push_text(&mut r, "origin/main".to_owned());
    txt::push_text(&mut r, "origin/master".to_owned());
    txt::push_text(&mut r, "main".to_owned());
    txt::push_text(&mut r, "master".to_owned());
    assert(txt::texts(r@) =~= base_candidates());
    r
}

/// The remote's default branch, as `origin/HEAD` names it.
pub open spec fn remote_default(head: Output) -> Option<Seq<char>> {
    let prefix = "refs/remotes/"@;
    if head.success && txt::has_prefix(answer(head), prefix) {
        Some(answer(head).skip(prefix.len() as int))
    } else {
        None
    }
}

/// The first candidate that exists.
pub open spec fn first_existing(exists_at: Seq<bool>, i: int) -> Option<Seq<char>>
    decreases exists_at.len() - i,
{
    if i < 0 || i >= exists_at.len() || i >= base_candidates().len() {
        None
    } else if exists_at[i] {
        Some(base_candidates()[i])
    } else {
        first_existing(exists_at, i + 1)
    }
}

/// The remote's default branch, from the output of
/// `git symbolic-ref --quiet refs/remotes/origin/HEAD`.
pub fn remote_head(head: &Output) -> (r: Option<String>)
    ensures
        txt::opt_text(r) == remote_default(*head),
{
    if !head.success {
        return None;
    }
    let name = txt::chars_of(answer_of(head).as_str());
    let prefix = txt::chars_of("refs/remotes/");
    if txt::starts_with(name.as_slice(), prefix.as_slice()) {
        let rest = vstd::slice::slice_subrange(name.as_slice(), prefix.len(), name.len());
        assert(rest@ =~= name@.skip(prefix@.len() as int));
        Some(txt::string_of(rest))
    } else {
        None
    }
}

/// The base branch: the remote's default, else the first candidate that exists; none if
/// git could not be asked.
pub open spec fn base_of(head: Option<Output>, verified: Seq<bool>) -> Option<Seq<char>> {
    match head {
        None => None,
        Some(out) => match remote_default(out) {
            Some(name) => Some(name),
            None => first_existing(verified, 0),
        },
    }
}

/// The base branch to diff against: the remote's default branch if known, else
/// the first of the candidates that exists. `head` is the answer about
/// `origin/HEAD` (`None`: git could not be run); `verified` tells which candidates
/// exist.
pub fn base_branch(head: &Option<Output>, verified: &Vec<bool>) -> (r: Option<String>)
    ensures
        txt::opt_text(r) == base_of(*head, verified@),
{
    let out = match head {
        Some(out) => out,
        None => {
            return None;
        },
    };
    if let Some(name) = remote_head(out) {
        return Some(name);
    }
    let names = candidates();
    let mut i: usize = 0;
    while i < names.len() && i < verified.len()
        invariant
            txt::texts(names@) == base_candidates(),
            names@.len() == base_candidates().len(),
            i <= names@.len(),
            first_existing(verified@, 0) == first_existing(verified@, i as int),
            *head == Some(*out),
            remote_default(*out) is None,
        decreases names@.len() - i,
    {
        if verified[i] {
            assert(base_candidates()[i as int] == names@[i as int]@);
            return Some(names[i].clone());
        }
        i = i + 1;
    }
    None
}

/// The commit that a merge base was found at.
pub open spec fn merge_base_of(out: Option<Output>) -> Option<Seq<char>> {
    match out {
        Some(out) if out.success && answer(out).len() > 0 => Some(answer(out)),
        _ => None,
    }
}

/// The merge base between `HEAD` and the base branch (the commit the current work
/// diverged from), from the output of `git merge-base HEAD <branch>`.
pub fn merge_base(out: &Option<Output>) -> (r: Option<String>)
    ensures
        txt::opt_text(r) == merge_base_of(*out),
{
    match out {
        None => None,
        Some(out) => {
            if !out.success {
                return None;
            }
            let sha = answer_of(out);
            if sha.as_str().is_empty() {
                None
            } else {
                Some(sha)
            }
        },
    }
}

/// The commit count that git printed.
pub open spec fn count_of(out: Option<Output>) -> Option<nat> {
    match out {
        Some(out) if out.success => txt::parsed(answer(out), u64::MAX as nat),
        _ => None,
    }
}

/// How many commits `HEAD` is behind the base, from the output of
/// `git rev-list --count HEAD..<base>`. `None` when the count can't be
/// determined.
pub fn behind_count(out: &Option<Output>) -> (r: Option<u64>)
    ensures
        match r {
            Some(n) => count_of(*out) == Some(n as nat),
            None => count_of(*out) is None,
        },
{
    match out {
        None => None,
        Some(out) => {
            if !out.success {
                return None;
            }
            let text = txt::chars_of(answer_of(out).as_str());
            txt::parse_unsigned(text.as_slice(), u64::MAX)
        },
    }
}

// --- diffs ---------------------------------------------------------------------

/// The arguments of the `git diff` of one file; an untracked file's absolute path
/// goes behind them.
pub open spec fn diff_arguments(kind: ChangeKind, path: Seq<char>, base: Seq<char>) -> Seq<Seq<char>> {
    if kind == ChangeKind::Untracked {
        seq!["diff"@, "--no-index"@, "--color=always"@, "--"@, "/dev/null"@]
    } else {
        seq!["diff"@, "--color=always"@, base, "--"@, path]
    }
}

/// The arguments for the raw, ANSI-colored diff of a single file.
///
/// - Untracked files are diffed against `/dev/null` via `--no-index` (which
///   exits non-zero by design), rendering the whole file as added; the file's
///   absolute path goes behind these arguments.
/// - Everything else is diffed against `base` (`HEAD` or the empty tree).
pub fn raw_diff_args(entry: &FileEntry, base: &str) -> (r: Vec<String>)
    ensures
        txt::texts(r@) == diff_arguments(entry@.kind, entry@.path, base@),
{
    let mut r: Vec<String> = Vec::new();
    assert(txt::texts(r@) =~= Seq::<Seq<char>>::empty());
    txt::push_text(&mut r, "diff".to_owned());
    if entry.kind == ChangeKind::Untracked {
        txt::push_text(&mut r, "--no-index".to_owned());
        txt::push_text(&mut r, "--color=always".to_owned());
        txt::push_text(&mut r, "--".to_owned());
        txt::push_text(&mut r, "/dev/null".to_owned());
    } else {
        txt::push_text(&mut r, "--color=always".to_owned());
        txt::push_text(&mut r, base.to_owned());
        txt::push_text(&mut r, "--".to_owned());
        txt::push_text(&mut r, entry.path.clone());
    }
    assert(txt::texts(r@) =~= diff_arguments(entry@.kind, entry@.path, base@));
    r
}

/// What a `git diff` comes to: its output, or the message `complaint` with git's
/// own words.
pub open spec fn diff_result(out: Output, complaint: Seq<char>) -> Result<Seq<u8>, Seq<char>> {
    if out.stdout@.len() == 0 && out.stderr@.len() > 0 {
        Err(complaint + txt::trimmed(txt::decoded(out.stderr@)))
    } else {
        Ok(out.stdout@)
    }
}

/// What a raw diff is.
pub open spec fn diff_bytes(r: Result<Vec<u8>, String>) -> Result<Seq<u8>, Seq<char>> {
    match r {
        Ok(bytes) => Ok(bytes@),
        Err(message) => Err(message@),
    }
}

fn checked_diff(out: Output, complaint: &str) -> (r: Result<Vec<u8>, String>)
    ensures
        diff_bytes(r) == diff_result(out, complaint@),
{
    // `git diff --no-index` returns exit code 1 when files differ: that is the
    // normal "there is a diff" case, not an error. A real failure writes to
    // stderr and produces no stdout, so only surface those.
    if out.stdout.len() == 0 && out.stderr.len() > 0 {
        Err(delta::complaint(complaint, out.stderr.as_slice()))
    } else {
        Ok(out.stdout)
    }
}

/// The raw diff of the file at `path`, from the output of its `git diff`.
pub fn raw_diff(out: Output, path: &str) -> (r: Result<Vec<u8>, String>)
    ensures
        diff_bytes(r) == diff_result(out, "git diff failed for "@ + path@ + ": "@),
{
    let mut complaint = "git diff failed for ".to_owned();
    complaint.append(path);
    complaint.append(": ");
    checked_diff(out, complaint.as_str())
}

/// What a commit is diffed against.
pub open spec fn commit_base(commit: Seq<char>, has_parent: bool) -> Seq<char> {
    if has_parent {
        commit.push('^')
    } else {
        EMPTY_TREE@
    }
}

/// The arguments of the `git diff` of a file at one commit.
pub open spec fn commit_arguments(commit: Seq<char>, path: Seq<char>, has_parent: bool) -> Seq<
    Seq<char>,
> {
    seq!["diff"@, "--color=always"@, commit_base(commit, has_parent), commit, "--"@, path]
}

/// The arguments for the raw, ANSI-colored diff a single commit made to `path`
/// (the file's name at that commit). Root commits have no parent and diff against
/// the empty tree, so the file renders as fully added.
pub fn commit_diff_args(commit: &str, path: &str, has_parent: bool) -> (r: Vec<String>)
    ensures
        txt::texts(r@) == commit_arguments(commit@, path@, has_parent),
{
    let base = if has_parent {
        let mut parent = commit.to_owned();
        parent.push('^');
        parent
    } else {
        EMPTY_TREE.to_owned()
    };
    let mut r: Vec<String> = Vec::new();
    let ghost base_text = base@;
    assert(txt::texts(r@) =~= Seq::<Seq<char>>::empty());
    txt::push_text(&mut r, "diff".to_owned());
    txt::push_text(&mut r, "--color=always".to_owned());
    txt::push_text(&mut r, base);
    txt::push_text(&mut r, commit.to_owned());
    txt::push_text(&mut r, "--".to_owned());
    txt::push_text(&mut r, path.to_owned());
    assert(txt::texts(r@) =~= seq![
        "diff"@,
        "--color=always"@,
        base_text,
        commit@,
        "--"@,
        path@,
    ]);
    r
}

/// The raw diff that `commit` made to `path`, from the output of its `git diff`.
pub fn commit_diff(out: Output, commit: &str, path: &str) -> (r: Result<Vec<u8>, String>)
    ensures
        diff_bytes(r) == diff_result(
            out,
            "git diff failed for "@ + path@ + " at "@ + commit@ + ": "@,
        ),
{
    let mut complaint = "git diff failed for ".to_owned();
    complaint.append(path);
    complaint.append(" at ");
    complaint.append(commit);
    complaint.append(": ");
    checked_diff(out, complaint.as_str())
}

// --- a file's history ----------------------------------------------------------

/// One commit in a file's history, newest first.
#[derive(Debug, PartialEq, Eq)]
pub struct HistoryEntry {
    /// Full commit id.
    pub hash: String,
    /// Abbreviated commit id, as `git log --format=%h` produced it.
    pub short_hash: String,
    /// Commit subject line.
    pub subject: String,
    /// The path the file had at that commit (differs across renames).
    pub path_at_commit: String,
    /// True when the commit is not one of the current branch's own commits.
    pub pre_branch: bool,
}

/// What is known of a commit in a file's history.
#[verifier::ext_equal]
pub struct Commit {
    pub hash: Seq<char>,
    pub short_hash: Seq<char>,
    pub subject: Seq<char>,
    pub path_at_commit: Seq<char>,
    pub pre_branch: bool,
}

impl View for HistoryEntry {
    type V = Commit;

    open spec fn view(&self) -> Commit {
        Commit {
            hash: self.hash@,
            short_hash: self.short_hash@,
            subject: self.subject@,
            path_at_commit: self.path_at_commit@,
            pre_branch: self.pre_branch,
        }
    }
}

/// What is known of the commits of a history.
pub open spec fn commits(list: Seq<HistoryEntry>) -> Seq<Commit> {
    list.map_values(|h: HistoryEntry| h@)
}

/// The first line at or after `i` that holds anything.
pub open spec fn first_filled(lines: Seq<Seq<char>>, i: int) -> Option<Seq<char>>
    decreases lines.len() - i,
{
    if i < 0 || i >= lines.len() {
        None
    } else if lines[i].len() > 0 {
        Some(lines[i])
    } else {
        first_filled(lines, i + 1)
    }
}

/// What a record of the log says: hash, short hash and subject from its head
/// line, and the file's name at that commit from the first filled line after it.
/// A malformed record says nothing.
pub open spec fn record(text: Seq<char>) -> Option<(Seq<char>, Seq<char>, Seq<char>, Seq<char>)> {
    let lines = txt::lines(text);
    if lines.len() == 0 {
        None
    } else {
        match txt::cut(lines[0], '\u{1f}') {
            None => None,
            Some((hash, rest)) => match txt::cut(rest, '\u{1f}') {
                None => None,
                Some((short, subject)) => match first_filled(lines, 1) {
                    None => None,
                    Some(path) => Some((hash, short, subject, path)),
                },
            },
        }
    }
}

/// What the records before the `n`-th say; whatever stands before the first
/// record mark is no record.
pub open spec fn records_upto(parts: Seq<Seq<char>>, n: int) -> Seq<
    (Seq<char>, Seq<char>, Seq<char>, Seq<char>),
>
    decreases n,
{
    if n <= 1 {
        Seq::empty()
    } else {
        match record(parts[n - 1]) {
            Some(r) => records_upto(parts, n - 1).push(r),
            None => records_upto(parts, n - 1),
        }
    }
}

/// What the records of a log say.
pub open spec fn log_records(out: Seq<char>) -> Seq<(Seq<char>, Seq<char>, Seq<char>, Seq<char>)> {
    records_upto(txt::split(out, '\u{1}'), txt::split(out, '\u{1}').len() as int)
}

/// The texts of a list of records.
pub open spec fn record_texts(list: Seq<(String, String, String, String)>) -> Seq<
    (Seq<char>, Seq<char>, Seq<char>, Seq<char>),
> {
    list.map_values(|t: (String, String, String, String)| t@)
}

fn parse_record(text: &[char]) -> (r: Option<(String, String, String, String)>)
    ensures
        match r {
            Some(t) => record(text@) == Some(t@),
            None => record(text@) is None,
        },
{
    let lines = txt::lines_of(text);
    let ghost all = txt::parts_of(lines@);
    assert(all.len() == lines@.len());
    if lines.len() == 0 {
        return None;
    }
    assert(all[0] == lines@[0]@);
    let (hash, rest) = match txt::cut_chars(lines[0].as_slice(), '\u{1f}') {
        Some(p) => p,
        None => {
            return None;
        },
    };
    let (short, subject) = match txt::cut_chars(rest, '\u{1f}') {
        Some(p) => p,
        None => {
            return None;
        },
    };
    let mut i: usize = 1;
    while i < lines.len()
        invariant
            1 <= i <= lines@.len(),
            all == txt::parts_of(lines@),
            all == txt::lines(text@),
            lines@.len() == all.len(),
            first_filled(all, 1) == first_filled(all, i as int),
            txt::cut(all[0], '\u{1f}') == Some((hash@, rest@)),
            txt::cut(rest@, '\u{1f}') == Some((short@, subject@)),
        decreases lines@.len() - i,
    {
        assert(all[i as int] == lines@[i as int]@);
        if lines[i].len() > 0 {
            return Some(
                (
                    txt::string_of(hash),
                    txt::string_of(short),
                    txt::string_of(subject),
                    txt::string_of(lines[i].as_slice()),
                ),
            );
        }
        i = i + 1;
    }
    None
}

/// Parses `git log --follow --format=%x01%H%x1f%h%x1f%s --name-only` output into
/// `(hash, short_hash, subject, path_at_commit)` tuples. Records start at `\x01`;
/// the head line holds hash/short/subject separated by `\x1f`, and the first
/// non-empty line after it is the file's name at that commit.
pub fn parse_file_history(out: &str) -> (r: Vec<(String, String, String, String)>)
    ensures
        record_texts(r@) == log_records(out@),
{
    let text = txt::chars_of(out);
    let parts = txt::split_chars(text.as_slice(), '\u{1}');
    let ghost all = txt::parts_of(parts@);
    proof {
        txt::lemma_split_nonempty(out@, '\u{1}');
        assert(all.len() == parts@.len());
    }
    let mut list: Vec<(String, String, String, String)> = Vec::new();
    let mut i: usize = 1;
    assert(record_texts(list@) =~= Seq::empty());
    while i < parts.len()
        invariant
            1 <= i <= parts@.len(),
            all == txt::parts_of(parts@),
            record_texts(list@) == records_upto(all, i as int),
        decreases parts@.len() - i,
    {
        assert(all[i as int] == parts@[i as int]@);
        if let Some(t) = parse_record(parts[i].as_slice()) {
            let ghost was = record_texts(list@);
            let ghost said = t@;
            list.push(t);
            assert(record_texts(list@) =~= was.push(said));
        }
        i = i + 1;
    }
    list
}

/// The commits that the first `n` lines name.
pub open spec fn named_upto(lines: Seq<Seq<char>>, n: int) -> Set<Seq<char>>
    decreases n,
{
    if n <= 0 {
        Set::empty()
    } else if txt::trimmed(lines[n - 1]).len() > 0 {
        named_upto(lines, n - 1).insert(txt::trimmed(lines[n - 1]))
    } else {
        named_upto(lines, n - 1)
    }
}

/// The commits that a `git rev-list` names: none if it failed.
pub open spec fn branch_hashes(out: Option<Output>) -> Set<Seq<char>> {
    match out {
        Some(out) if out.success => {
            let lines = txt::lines(git::output_text(out));
            named_upto(lines, lines.len() as int)
        },
        _ => Set::empty(),
    }
}

/// Commits that belong to the current branch: reachable from `HEAD` but not from
/// the merge base with the base branch, from the output of
/// `git rev-list <merge base>..HEAD`. Empty when there is no base branch, no merge
/// base (both: no output), or `HEAD` *is* the merge base (sitting on the base
/// branch itself); callers treat "empty" as "suppress the pre-branch pill", since
/// flagging every commit would be noise, not signal.
pub fn branch_commits(out: &Option<Output>) -> (r: NameSet)
    ensures
        r@ == branch_hashes(*out),
{
    let mut names = NameSet::new();
    match out {
        None => names,
        Some(out) => {
            if !out.success {
                return names;
            }
            let text = txt::chars_of(txt::utf8_lossy(out.stdout.as_slice()).as_str());
            let lines = txt::lines_of(text.as_slice());
            let ghost all = txt::parts_of(lines@);
            let mut i: usize = 0;
            while i < lines.len()
                invariant
                    i <= lines@.len(),
                    all == txt::parts_of(lines@),
                    names@ == named_upto(all, i as int),
                decreases lines@.len() - i,
            {
                assert(all[i as int] == lines@[i as int]@);
                let name = txt::trim_chars(lines[i].as_slice());
                if name.len() > 0 {
                    names.insert(txt::string_of(name).as_str());
                }
                i = i + 1;
            }
            assert(all.len() == lines@.len());
            names
        },
    }
}

/// A commit of the log; with an empty `branch` no commit is flagged.
pub open spec fn flagged(
    r: (Seq<char>, Seq<char>, Seq<char>, Seq<char>),
    branch: Set<Seq<char>>,
) -> Commit {
    Commit {
        hash: r.0,
        short_hash: r.1,
        subject: r.2,
        path_at_commit: r.3,
        pre_branch: branch != Set::<Seq<char>>::empty() && !branch.contains(r.0),
    }
}

/// The commits of the first `n` records.
pub open spec fn flagged_upto(
    records: Seq<(Seq<char>, Seq<char>, Seq<char>, Seq<char>)>,
    branch: Set<Seq<char>>,
    n: int,
) -> Seq<Commit>
    decreases n,
{
    if n <= 0 {
        Seq::empty()
    } else {
        flagged_upto(records, branch, n - 1).push(flagged(records[n - 1], branch))
    }
}

/// What a `git log` over `path` comes to, or the error's message.
pub open spec fn history_of(out: Output, path: Seq<char>, branch: Set<Seq<char>>) -> Result<
    Seq<Commit>,
    Seq<char>,
> {
    if !out.success {
        Err(
            "`git log --follow` failed for "@ + path + ": "@ + txt::trimmed(
                txt::decoded(out.stderr@),
            ),
        )
    } else {
        let records = log_records(git::output_text(out));
        Ok(flagged_upto(records, branch, records.len() as int))
    }
}

/// What a history result says.
pub open spec fn history_result(r: Result<Vec<HistoryEntry>, String>) -> Result<
    Seq<Commit>,
    Seq<char>,
> {
    match r {
        Ok(list) => Ok(commits(list@)),
        Err(message) => Err(message@),
    }
}

/// The commits that touched `path`, newest first, following renames, from the
/// output of its `git log`. `branch` is [`branch_commits`]' result; when empty, no
/// entry is flagged `pre_branch`.
pub fn file_history(out: &Output, path: &str, branch: &NameSet) -> (r: Result<
    Vec<HistoryEntry>,
    String,
>)
    ensures
        history_result(r) == history_of(*out, path@, branch@),
{
    if !out.success {
        let mut complaint = "`git log --follow` failed for ".to_owned();
        complaint.append(path);
        complaint.append(": ");
        return Err(delta::complaint(complaint.as_str(), out.stderr.as_slice()));
    }
    let suppress = branch.is_empty();
    let found = parse_file_history(txt::utf8_lossy(out.stdout.as_slice()).as_str());
    let ghost records = record_texts(found@);
    let mut list: Vec<HistoryEntry> = Vec::new();
    let mut i: usize = 0;
    assert(commits(list@) =~= Seq::<Commit>::empty());
    while i < found.len()
        invariant
            i <= found@.len(),
            records == record_texts(found@),
            suppress == (branch@ == Set::<Seq<char>>::empty()),
            commits(list@) == flagged_upto(records, branch@, i as int),
        decreases found@.len() - i,
    {
        assert(records[i as int] == found@[i as int]@);
        let entry = HistoryEntry {
            hash: found[i].0.clone(),
            short_hash: found[i].1.clone(),
            subject: found[i].2.clone(),
            path_at_commit: found[i].3.clone(),
            pre_branch: !suppress && !branch.contains(found[i].0.as_str()),
        };
        let ghost was = commits(list@);
        let ghost commit = entry@;
        assert(commit =~= flagged(records[i as int], branch@));
        list.push(entry);
        assert(commits(list@) =~= was.push(commit));
        i = i + 1;
    }
    assert(records.len() == found@.len());
    Ok(list)
}

// --- laws ----------------------------------------------------------------------

proof fn lemma_flagged_upto(
    records: Seq<(Seq<char>, Seq<char>, Seq<char>, Seq<char>)>,
    branch: Set<Seq<char>>,
    n: int,
)
    requires
        0 <= n <= records.len(),
    ensures
        flagged_upto(records, branch, n).len() == n,
        forall|i: int|
            0 <= i < n ==> #[trigger] flagged_upto(records, branch, n)[i] == flagged(
                records[i],
                branch,
            ),
    decreases n,
{
    if n > 0 {
        lemma_flagged_upto(records, branch, n - 1);
    }
}

/// A history keeps the log's commits and their order, one for one.
pub proof fn law_history_follows_the_log(
    out: Output,
    path: Seq<char>,
    branch: Set<Seq<char>>,
    i: int,
)
    requires
        out.success,
        0 <= i < log_records(git::output_text(out)).len(),
    ensures
        history_of(out, path, branch)->Ok_0.len() == log_records(git::output_text(out)).len(),
        history_of(out, path, branch)->Ok_0[i] == flagged(
            log_records(git::output_text(out))[i],
            branch,
        ),
{
    let records = log_records(git::output_text(out));
    lemma_flagged_upto(records, branch, records.len() as int);
}

/// With no branch commits known, no commit is flagged as predating the branch.
pub proof fn law_no_branch_flags_nothing(out: Output, path: Seq<char>, i: int)
    requires
        out.success,
        0 <= i < log_records(git::output_text(out)).len(),
    ensures
        !history_of(out, path, Set::empty())->Ok_0[i].pre_branch,
{
    law_history_follows_the_log(out, path, Set::empty(), i);
}

/// A commit is flagged exactly if some branch commits are known and it is none of
/// them.
pub proof fn law_branch_work_is_not_flagged(
    out: Output,
    path: Seq<char>,
    branch: Set<Seq<char>>,
    hash: Seq<char>,
    i: int,
)
    requires
        out.success,
        0 <= i < log_records(git::output_text(out)).len(),
        branch.contains(hash),
    ensures
        history_of(out, path, branch)->Ok_0[i].pre_branch == !branch.contains(
            history_of(out, path, branch)->Ok_0[i].hash,
        ),
{
    law_history_follows_the_log(out, path, branch, i);
}

proof fn lemma_records_joined(p: Seq<Seq<char>>, head: Seq<char>, q: Seq<Seq<char>>, k: int)
    requires
        p.len() >= 1,
        0 <= k <= q.len(),
    ensures
        records_upto(p + q, p.len() + k) == records_upto(p, p.len() as int) + records_upto(
            seq![head] + q,
            1 + k,
        ),
    decreases k,
{
    let (all, own) = (p + q, seq![head] + q);
    let first = records_upto(p, p.len() as int);
    if k == 0 {
        lemma_records_start(all, p, p.len() as int);
        assert(records_upto(all, p.len() + k) =~= first + records_upto(own, 1 + k));
    } else {
        lemma_records_joined(p, head, q, k - 1);
        assert(all[p.len() + k - 1] == q[k - 1]);
        assert(own[k] == q[k - 1]);
        assert(records_upto(all, p.len() + k) =~= first + records_upto(own, 1 + k));
    }
}

proof fn lemma_records_start(a: Seq<Seq<char>>, b: Seq<Seq<char>>, n: int)
    requires
        n <= a.len(),
        n <= b.len(),
        forall|i: int| 0 <= i < n ==> #[trigger] a[i] == b[i],
    ensures
        records_upto(a, n) == records_upto(b, n),
    decreases n,
{
    if n > 1 {
        lemma_records_start(a, b, n - 1);
        assert(a[n - 1] == b[n - 1]);
    }
}

/// The records of two logs put together are those of each.
pub proof fn law_logs_put_together(a: Seq<char>, b: Seq<char>)
    requires
        b.len() > 0 && b[0] == '\u{1}',
    ensures
        log_records(a + b) == log_records(a) + log_records(b),
{
    let sep = '\u{1}';
    let rest = b.skip(1);
    let (p, q) = (txt::split(a, sep), txt::split(rest, sep));
    txt::lemma_split_nonempty(a, sep);
    assert(a + b =~= a.push(sep) + rest);
    txt::lemma_split_join(a, rest, sep);
    let head = Seq::<char>::empty();
    assert(txt::split(b, sep) == seq![head] + q);
    lemma_records_joined(p, head, q, q.len() as int);
}

/// Whether a record of the log is malformed: its head line has fewer than two field
/// separators, or no line after it holds anything.
pub open spec fn malformed(text: Seq<char>) -> bool {
    let lines = txt::lines(text);
    ||| lines.len() == 0
    ||| txt::split(lines[0], '\u{1f}').len() < 3
    ||| forall|i: int| 1 <= i < lines.len() ==> (#[trigger] lines[i]).len() == 0
}

/// Each cut takes one piece off.
proof fn lemma_cut_pieces(s: Seq<char>, sep: char)
    ensures
        match txt::cut(s, sep) {
            Some((_, rest)) => txt::split(s, sep).len() == 1 + txt::split(rest, sep).len(),
            None => txt::split(s, sep).len() == 1,
        },
{
    txt::lemma_find_from(s, seq![sep], 0);
    match txt::find_from(s, seq![sep], 0) {
        Some(i) => {
            let (a, rest) = (s.take(i), s.skip(i + 1));
            assert(s.subrange(i, i + 1)[0] == sep);
            assert(s =~= a.push(sep) + rest);
            assert forall|k: int| 0 <= k < a.len() implies a[k] != sep by {
                assert(!txt::occurs_at(s, seq![sep], k));
                if s[k] == sep {
                    assert(s.subrange(k, k + 1) =~= seq![sep]);
                }
            }
            txt::lemma_split_one(a, sep);
            txt::lemma_split_join(a, rest, sep);
        },
        None => {
            assert forall|k: int| 0 <= k < s.len() implies s[k] != sep by {
                assert(!txt::occurs_at(s, seq![sep], k));
                if s[k] == sep {
                    assert(s.subrange(k, k + 1) =~= seq![sep]);
                }
            }
            txt::lemma_split_one(s, sep);
        },
    }
}

proof fn lemma_first_filled(lines: Seq<Seq<char>>, i: int)
    requires
        0 <= i,
    ensures
        match first_filled(lines, i) {
            Some(line) => line.len() > 0,
            None => forall|k: int| i <= k < lines.len() ==> (#[trigger] lines[k]).len() == 0,
        },
    decreases lines.len() - i,
{
    if i < lines.len() && lines[i].len() == 0 {
        lemma_first_filled(lines, i + 1);
    }
}

/// A record says something exactly if it is not malformed, and then names a path.
pub proof fn law_malformed_records_say_nothing(text: Seq<char>)
    ensures
        record(text) is None <==> malformed(text),
        record(text) matches Some(r) ==> r.3.len() > 0,
{
    let lines = txt::lines(text);
    if lines.len() > 0 {
        lemma_cut_pieces(lines[0], '\u{1f}');
        if let Some((_, rest)) = txt::cut(lines[0], '\u{1f}') {
            lemma_cut_pieces(rest, '\u{1f}');
            if let Some((_, subject)) = txt::cut(rest, '\u{1f}') {
                txt::lemma_split_nonempty(subject, '\u{1f}');
            }
        }
        lemma_first_filled(lines, 1);
        if first_filled(lines, 1) is Some && forall|i: int|
            1 <= i < lines.len() ==> (#[trigger] lines[i]).len() == 0 {
            lemma_nothing_filled(lines, 1);
        }
    }
}

proof fn lemma_nothing_filled(lines: Seq<Seq<char>>, i: int)
    requires
        0 <= i,
        forall|k: int| i <= k < lines.len() ==> (#[trigger] lines[k]).len() == 0,
    ensures
        first_filled(lines, i) is None,
    decreases lines.len() - i,
{
    if i < lines.len() {
        assert(lines[i].len() == 0);
        lemma_nothing_filled(lines, i + 1);
    }
}

/// A malformed record adds nothing to the log and disturbs no other record.
pub proof fn law_malformed_records_disturb_nothing(a: Seq<char>, text: Seq<char>, b: Seq<char>)
    requires
        malformed(text),
        !text.contains('\u{1}'),
        b.len() > 0 ==> b[0] == '\u{1}',
    ensures
        log_records(a + (seq!['\u{1}'] + text) + b) == log_records(a + b),
        log_records(a + b) == log_records(a) + log_records(b),
{
    let sep = '\u{1}';
    let one = seq![sep] + text;
    law_malformed_records_say_nothing(text);
    assert(one.skip(1) =~= text);
    txt::lemma_split_one(text, sep);
    let head = Seq::<char>::empty();
    assert(txt::split(one, sep) =~= seq![head, text]);
    reveal_with_fuel(records_upto, 3);
    assert(log_records(one).len() == 0);
    law_logs_put_together(a, one);
    assert(log_records(a) + log_records(one) =~= log_records(a));
    law_empty_logs();
    if b.len() > 0 {
        law_logs_put_together(a + one, b);
        law_logs_put_together(a, b);
    } else {
        assert(b =~= Seq::<char>::empty());
        assert(a + one + b =~= a + one);
        assert(a + b =~= a);
        assert(log_records(a) + log_records(b) =~= log_records(a));
    }
}

/// An empty log has no records.
pub proof fn law_empty_logs()
    ensures
        log_records(Seq::empty()).len() == 0,
{
    let nothing = Seq::<char>::empty();
    assert(txt::split(nothing, '\u{1}') =~= seq![nothing]);
}

proof fn lemma_record_paths(parts: Seq<Seq<char>>, n: int, i: int)
    requires
        0 <= i < records_upto(parts, n).len(),
    ensures
        records_upto(parts, n)[i].3.len() > 0,
    decreases n,
{
    if n > 1 {
        law_malformed_records_say_nothing(parts[n - 1]);
        if i < records_upto(parts, n - 1).len() {
            lemma_record_paths(parts, n - 1, i);
        }
    }
}

/// Every commit of a log names the file's path there.
pub proof fn law_every_record_names_a_path(out: Seq<char>, i: int)
    requires
        0 <= i < log_records(out).len(),
    ensures
        log_records(out)[i].3.len() > 0,
{
    lemma_record_paths(txt::split(out, '\u{1}'), txt::split(out, '\u{1}').len() as int, i);
}

} // verus!
