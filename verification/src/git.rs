//! What git is asked, and what its answers mean: the changed files and their
//! line counts, the diff base, and a file's commit history.
//!
//! git itself is run by the program around this library, which hands over the
//! output of each command.

use vstd::prelude::*;
use vstd::string::StringSliceAdditionalSpecFns;
use vstd::utf8::{decode_utf8, encode_utf8, is_char_boundary};
use crate::delta;
use crate::delta::Output;
use crate::table::Table;
use crate::txt;

verus! {

/// The empty-tree object id. Used as the diff base when the repo has no commits
/// yet (no `HEAD`), so staged/tracked files still render as fully added.
pub const EMPTY_TREE: &'static str = "4b825dc642cb6eb9a060e54bf8d69288fbee4904";

#[derive(Debug, Clone, Copy, PartialEq, Eq, Hash, Structural)]
pub enum ChangeKind {
    Modified,
    Added,
    Deleted,
    Renamed,
    Untracked,
}

/// The status marker of a change kind.
pub open spec fn marker_of(kind: ChangeKind) -> char {
    match kind {
        ChangeKind::Modified => 'M',
        ChangeKind::Added => 'A',
        ChangeKind::Deleted => 'D',
        ChangeKind::Renamed => 'R',
        ChangeKind::Untracked => 'U',
    }
}

impl ChangeKind {
    /// Single-character status marker shown in the file list.
    pub fn marker(self) -> (c: char)
        ensures
            c == marker_of(self),
    {
        match self {
            ChangeKind::Modified => 'M',
            ChangeKind::Added => 'A',
            ChangeKind::Deleted => 'D',
            ChangeKind::Renamed => 'R',
            ChangeKind::Untracked => 'U',
        }
    }
}

/// Canonical order the five change kinds are always shown in: chips, footer
/// pills, and the kind-filter keyboard mode all share this order so rendering
/// and click hit-testing can never drift out of sync.
pub const KIND_ORDER: [ChangeKind; 5] = [
    ChangeKind::Added,
    ChangeKind::Modified,
    ChangeKind::Deleted,
    ChangeKind::Renamed,
    ChangeKind::Untracked,
];

/// A changed file.
#[derive(Debug)]
pub struct FileEntry {
    /// Repo-relative path (used both for display and as the git pathspec).
    pub path: String,
    pub kind: ChangeKind,
    /// Worktree mtime in nanoseconds since the UNIX epoch, used for the "sort by
    /// modified date" mode. Deleted files (no worktree entry) have 0.
    pub mtime: i128,
    /// Added / removed line counts (`None` for binary files or when unknown).
    pub added: Option<u32>,
    pub removed: Option<u32>,
}

/// What is known of a changed file.
#[verifier::ext_equal]
pub struct Entry {
    pub path: Seq<char>,
    pub kind: ChangeKind,
    pub mtime: int,
    pub added: Option<u32>,
    pub removed: Option<u32>,
}

impl View for FileEntry {
    type V = Entry;

    open spec fn view(&self) -> Entry {
        Entry {
            path: self.path@,
            kind: self.kind,
            mtime: self.mtime as int,
            added: self.added,
            removed: self.removed,
        }
    }
}

impl Clone for FileEntry {
    fn clone(&self) -> (r: FileEntry)
        ensures
            r@ == self@,
    {
        FileEntry {
            path: self.path.clone(),
            kind: self.kind,
            mtime: self.mtime,
            added: self.added,
            removed: self.removed,
        }
    }
}

/// What is known of a list of changed files.
pub open spec fn entries(list: Seq<FileEntry>) -> Seq<Entry> {
    list.map_values(|f: FileEntry| f@)
}

/// An entry as git first lists it: without mtime and line counts.
pub open spec fn listed(path: Seq<char>, kind: ChangeKind) -> Entry {
    Entry { path, kind, mtime: 0, added: None, removed: None }
}

fn push_listed(out: &mut Vec<FileEntry>, path: String, kind: ChangeKind)
    ensures
        entries(final(out)@) == entries(old(out)@).push(listed(path@, kind)),
{
    let ghost was = entries(out@);
    let entry = FileEntry { path, kind, mtime: 0, added: None, removed: None };
    let ghost e = entry@;
    out.push(entry);
    assert(entries(out@) =~= was.push(e));
}

/// The text a command's output decodes to.
pub open spec fn output_text(out: Output) -> Seq<char> {
    txt::decoded(out.stdout@)
}

fn output_chars(out: &Output) -> (r: Vec<char>)
    ensures
        r@ == output_text(*out),
{
    txt::chars_of(txt::utf8_lossy(out.stdout.as_slice()).as_str())
}

// --- changed files -------------------------------------------------------------

/// The kind of change that a two-letter status code stands for.
pub open spec fn classified(x: char, y: char) -> ChangeKind {
    if x == '?' && y == '?' {
        ChangeKind::Untracked
    } else if x == 'D' || y == 'D' {
        ChangeKind::Deleted
    } else if x == 'R' || y == 'R' || x == 'C' || y == 'C' {
        ChangeKind::Renamed
    } else if x == 'A' {
        ChangeKind::Added
    } else {
        ChangeKind::Modified
    }
}

/// The kind of change that a two-letter status code stands for.
pub fn classify(x: char, y: char) -> (k: ChangeKind)
    ensures
        k == classified(x, y),
{
    if x == '?' && y == '?' {
        ChangeKind::Untracked
    } else if x == 'D' || y == 'D' {
        ChangeKind::Deleted
    } else if x == 'R' || y == 'R' || x == 'C' || y == 'C' {
        ChangeKind::Renamed
    } else if x == 'A' {
        ChangeKind::Added
    } else {
        ChangeKind::Modified
    }
}

/// Byte `i` of a token, read as a character.
pub open spec fn byte_char(tok: Seq<char>, i: int) -> char {
    encode_utf8(tok)[i] as char
}

/// Whether a token can be cut at byte `n`: no character's encoding spans it.
pub open spec fn cuts_at(tok: Seq<char>, n: int) -> bool {
    is_char_boundary(encode_utf8(tok), n)
}

/// The text of a token from byte `n` on.
pub open spec fn from_byte(tok: Seq<char>, n: int) -> Seq<char> {
    decode_utf8(encode_utf8(tok).subrange(n, encode_utf8(tok).len() as int))
}

/// Whether a status code announces that the next token is a rename's origin.
pub open spec fn has_origin(tok: Seq<char>) -> bool {
    ({
        let x = byte_char(tok, 0);
        let y = byte_char(tok, 1);
        x == 'R' || x == 'C' || y == 'R' || y == 'C'
    })
}

/// Where the record after the one at `i` starts in `git status`'s records.
pub open spec fn next_record(tokens: Seq<Seq<char>>, i: int) -> int {
    if encode_utf8(tokens[i]).len() >= 3 && has_origin(tokens[i]) {
        i + 2
    } else {
        i + 1
    }
}

/// The files that `git status`'s records list from token `i` on. A record is a
/// two-letter code, a blank and a path; a rename's (or copy's) is followed by the
/// original path.
pub open spec fn status_files(tokens: Seq<Seq<char>>, i: int) -> Seq<Entry>
    decreases tokens.len() + 1 - i,
{
    if i < 0 || i >= tokens.len() {
        Seq::empty()
    } else if encode_utf8(tokens[i]).len() < 3 {
        status_files(tokens, i + 1)
    } else {
        seq![
            listed(
                from_byte(tokens[i], 3),
                classified(byte_char(tokens[i], 0), byte_char(tokens[i], 1)),
            ),
        ] + status_files(tokens, next_record(tokens, i))
    }
}

/// Whether the path of every record from token `i` on starts at a character.
pub open spec fn status_readable(tokens: Seq<Seq<char>>, i: int) -> bool
    decreases tokens.len() + 1 - i,
{
    if i < 0 || i >= tokens.len() {
        true
    } else {
        (encode_utf8(tokens[i]).len() >= 3 ==> cuts_at(tokens[i], 3)) && status_readable(
            tokens,
            next_record(tokens, i),
        )
    }
}

/// The part of a token from byte `n` on.
pub fn tail_from(tok: &str, n: usize) -> (r: String)
    requires
        cuts_at(tok@, n as int),
    ensures
        r@ == from_byte(tok@, n as int),
{
    broadcast use vstd::utf8::encode_utf8_decode_utf8;

    let (_, rest) = tok.split_at(n);
    rest.to_owned()
}

/// Whether the records of a `git status` output are readable.
pub open spec fn readable_status(out: Output) -> bool {
    status_readable(txt::fields(output_text(out), '\0'), 0)
}

/// Whether the records of a `git status` output are readable.
pub fn can_read_status(out: &Output) -> (r: bool)
    ensures
        r == readable_status(*out),
{
    let tokens = txt::fields_of(output_chars(out).as_slice(), '\0');
    let ghost all = txt::parts_of(tokens@);
    let mut i: usize = 0;
    while i < tokens.len()
        invariant
            all == txt::parts_of(tokens@),
            all == txt::fields(output_text(*out), '\0'),
            status_readable(all, 0) == status_readable(all, i as int),
        decreases tokens@.len() - i,
    {
        let tok = txt::string_of(tokens[i].as_slice());
        assert(all[i as int] == tok@);
        let bytes = tok.as_str().as_bytes();
        if bytes.len() < 3 {
            i = i + 1;
            continue;
        }
        if !tok.as_str().is_char_boundary(3) {
            return false;
        }
        let x = bytes[0] as char;
        let y = bytes[1] as char;
        if x == 'R' || x == 'C' || y == 'R' || y == 'C' {
            if tokens.len() - i < 2 {
                assert(status_readable(all, i as int + 2));
                return true;
            }
            i = i + 2;
        } else {
            i = i + 1;
        }
    }
    true
}

/// What `git status` lists, or the error's message.
pub open spec fn status_list(out: Output) -> Result<Seq<Entry>, Seq<char>> {
    if !out.success {
        Err("`git status` failed: "@ + txt::trimmed(txt::decoded(out.stderr@)))
    } else {
        Ok(status_files(txt::fields(output_text(out), '\0'), 0))
    }
}

/// What a listing result says.
pub open spec fn listing(r: Result<Vec<FileEntry>, String>) -> Result<Seq<Entry>, Seq<char>> {
    match r {
        Ok(list) => Ok(entries(list@)),
        Err(message) => Err(message@),
    }
}

/// All files changed since the diff base, including untracked files, from the
/// output of `git status --porcelain=v1 -z --untracked-files=all` (which honors
/// `.gitignore` automatically). The mtimes and line counts are still to be
/// filled in.
pub fn changed_files(out: &Output) -> (r: Result<Vec<FileEntry>, String>)
    requires
        out.success ==> readable_status(*out),
    ensures
        listing(r) == status_list(*out),
{
    if !out.success {
        return Err(delta::complaint("`git status` failed: ", out.stderr.as_slice()));
    }
    let tokens = txt::fields_of(output_chars(out).as_slice(), '\0');
    let ghost all = txt::parts_of(tokens@);
    let mut list: Vec<FileEntry> = Vec::new();
    let mut i: usize = 0;
    assert(entries(list@) + status_files(all, 0) =~= status_files(all, 0));
    while i < tokens.len()
        invariant
            out.success,
            all == txt::parts_of(tokens@),
            all == txt::fields(output_text(*out), '\0'),
            status_readable(all, i as int),
            entries(list@) + status_files(all, i as int) == status_files(all, 0),
        decreases tokens@.len() - i,
    {
        let tok = txt::string_of(tokens[i].as_slice());
        assert(all[i as int] == tok@);
        let bytes = tok.as_str().as_bytes();
        if bytes.len() < 3 {
            i = i + 1;
            continue;
        }
        let x = bytes[0] as char;
        let y = bytes[1] as char;
        let path = tail_from(tok.as_str(), 3);
        let kind = classify(x, y);
        let is_rename = x == 'R' || x == 'C' || y == 'R' || y == 'C';
        let ghost was = entries(list@);
        let ghost entry = listed(path@, kind);
        push_listed(&mut list, path, kind);
        // Skip the original-path token that follows a rename/copy record.
        let step: usize = if is_rename {
            2
        } else {
            1
        };
        proof {
            let rest = status_files(all, i + step);
            assert(was.push(entry) + rest =~= was + (seq![entry] + rest));
        }
        if tokens.len() - i < step {
            assert(entries(list@) + Seq::<Entry>::empty() =~= entries(list@));
            return Ok(list);
        }
        i = i + step;
    }
    assert(entries(list@) + Seq::<Entry>::empty() =~= entries(list@));
    Ok(list)
}

/// The kind of change that a `--name-status` code stands for.
pub open spec fn name_status_kind(code: char) -> ChangeKind {
    if code == 'A' {
        ChangeKind::Added
    } else if code == 'D' {
        ChangeKind::Deleted
    } else if code == 'R' || code == 'C' {
        ChangeKind::Renamed
    } else {
        ChangeKind::Modified
    }
}

/// How many tokens the record at `i` takes: a rename's (or copy's) holds a
/// status, the old path and the new one, any other a status and a path.
pub open spec fn record_len(tokens: Seq<Seq<char>>, i: int) -> int {
    if tokens[i][0] == 'R' || tokens[i][0] == 'C' {
        3
    } else {
        2
    }
}

/// The files that `git diff --name-status`'s records list from token `i` on; a
/// record that was cut short ends the list.
pub open spec fn name_status_files(tokens: Seq<Seq<char>>, i: int) -> Seq<Entry>
    decreases tokens.len() - i,
{
    if i < 0 || i + record_len(tokens, i) > tokens.len() {
        Seq::empty()
    } else {
        let next = i + record_len(tokens, i);
        seq![listed(tokens[next - 1], name_status_kind(tokens[i][0]))] + name_status_files(
            tokens,
            next,
        )
    }
}

/// The untracked files that `git status`'s records list from token `i` on.
pub open spec fn untracked_from(tokens: Seq<Seq<char>>, i: int) -> Seq<Entry>
    decreases tokens.len() + 1 - i,
{
    if i < 0 || i >= tokens.len() {
        Seq::empty()
    } else if is_untracked(tokens[i]) {
        seq![listed(from_byte(tokens[i], 3), ChangeKind::Untracked)] + untracked_from(tokens, i + 1)
    } else {
        untracked_from(tokens, after_tracked(tokens, i))
    }
}

/// Whether a status record is that of an untracked file.
pub open spec fn is_untracked(tok: Seq<char>) -> bool {
    encode_utf8(tok).len() >= 3 && byte_char(tok, 0) == '?' && byte_char(tok, 1) == '?'
}

/// Where the record after a tracked one at `i` starts: past the original path of
/// a rename (or copy).
pub open spec fn after_tracked(tokens: Seq<Seq<char>>, i: int) -> int {
    if encode_utf8(tokens[i]).len() >= 2 && (byte_char(tokens[i], 0) == 'R' || byte_char(
        tokens[i],
        0,
    ) == 'C') {
        i + 2
    } else {
        i + 1
    }
}

/// Whether every record from token `i` on can be told from an untracked one, and
/// every untracked path starts at a character.
pub open spec fn untracked_readable(tokens: Seq<Seq<char>>, i: int) -> bool
    decreases tokens.len() + 1 - i,
{
    if i < 0 || i >= tokens.len() {
        true
    } else {
        &&& encode_utf8(tokens[i]).len() >= 3 ==> cuts_at(tokens[i], 2)
        &&& is_untracked(tokens[i]) ==> cuts_at(tokens[i], 3) && untracked_readable(tokens, i + 1)
        &&& !is_untracked(tokens[i]) ==> untracked_readable(tokens, after_tracked(tokens, i))
    }
}

/// Whether the untracked records of a `git status` output are readable.
pub open spec fn readable_untracked(out: Output) -> bool {
    untracked_readable(txt::fields(output_text(out), '\0'), 0)
}

/// Whether the untracked records of a `git status` output are readable.
pub fn can_read_untracked(out: &Output) -> (r: bool)
    ensures
        r == readable_untracked(*out),
{
    let tokens = txt::fields_of(output_chars(out).as_slice(), '\0');
    let ghost all = txt::parts_of(tokens@);
    let mut i: usize = 0;
    while i < tokens.len()
        invariant
            all == txt::parts_of(tokens@),
            all == txt::fields(output_text(*out), '\0'),
            untracked_readable(all, 0) == untracked_readable(all, i as int),
        decreases tokens@.len() - i,
    {
        let tok = txt::string_of(tokens[i].as_slice());
        assert(all[i as int] == tok@);
        let bytes = tok.as_str().as_bytes();
        let n = bytes.len();
        if n >= 3 && !tok.as_str().is_char_boundary(2) {
            return false;
        }
        if n >= 3 && bytes[0] as char == '?' && bytes[1] as char == '?' {
            if !tok.as_str().is_char_boundary(3) {
                return false;
            }
            i = i + 1;
        } else if n >= 2 && (bytes[0] as char == 'R' || bytes[0] as char == 'C') {
            if tokens.len() - i < 2 {
                assert(untracked_readable(all, i as int + 2));
                return true;
            }
            i = i + 2;
        } else {
            i = i + 1;
        }
    }
    true
}

/// Untracked (and not-ignored) files, from the output of `git status`.
pub fn untracked_files(out: &Output) -> (r: Vec<FileEntry>)
    requires
        readable_untracked(*out),
    ensures
        entries(r@) == untracked_from(txt::fields(output_text(*out), '\0'), 0),
{
    let tokens = txt::fields_of(output_chars(out).as_slice(), '\0');
    let ghost all = txt::parts_of(tokens@);
    let mut list: Vec<FileEntry> = Vec::new();
    let mut i: usize = 0;
    assert(entries(list@) + untracked_from(all, 0) =~= untracked_from(all, 0));
    while i < tokens.len()
        invariant
            all == txt::parts_of(tokens@),
            all == txt::fields(output_text(*out), '\0'),
            untracked_readable(all, i as int),
            entries(list@) + untracked_from(all, i as int) == untracked_from(all, 0),
        decreases tokens@.len() - i,
    {
        let tok = txt::string_of(tokens[i].as_slice());
        assert(all[i as int] == tok@);
        let bytes = tok.as_str().as_bytes();
        let n = bytes.len();
        if n >= 3 && bytes[0] as char == '?' && bytes[1] as char == '?' {
            let path = tail_from(tok.as_str(), 3);
            let ghost was = entries(list@);
            let ghost entry = listed(path@, ChangeKind::Untracked);
            push_listed(&mut list, path, ChangeKind::Untracked);
            proof {
                let rest = untracked_from(all, i as int + 1);
                assert(was.push(entry) + rest =~= was + (seq![entry] + rest));
            }
            i = i + 1;
        } else if n >= 2 && (bytes[0] as char == 'R' || bytes[0] as char == 'C') {
            // Consume the rename original-path token so it isn't misread.
            if tokens.len() - i < 2 {
                assert(untracked_from(all, i as int + 2) =~= Seq::<Entry>::empty());
                assert(entries(list@) + Seq::<Entry>::empty() =~= entries(list@));
                return list;
            }
            i = i + 2;
        } else {
            i = i + 1;
        }
    }
    assert(entries(list@) + Seq::<Entry>::empty() =~= entries(list@));
    list
}

/// What `git diff --name-status` and `git status` list together, or the error's
/// message.
pub open spec fn branch_list(diff: Output, status: Output) -> Result<Seq<Entry>, Seq<char>> {
    if !diff.success {
        Err("`git diff --name-status` failed: "@ + txt::trimmed(txt::decoded(diff.stderr@)))
    } else {
        Ok(
            name_status_files(txt::fields(output_text(diff), '\0'), 0) + untracked_from(
                txt::fields(output_text(status), '\0'),
                0,
            ),
        )
    }
}

proof fn lemma_fields_nonempty(parts: Seq<Seq<char>>, n: int, i: int)
    requires
        0 <= n <= parts.len(),
        0 <= i < txt::nonempty_upto(parts, n).len(),
    ensures
        txt::nonempty_upto(parts, n)[i].len() > 0,
    decreases n,
{
    if n > 0 {
        if i < txt::nonempty_upto(parts, n - 1).len() {
            lemma_fields_nonempty(parts, n - 1, i);
        }
    }
}

/// Files that differ between a commit and the current working tree (committed
/// *and* uncommitted tracked changes) plus untracked files: the file list for
/// base-branch mode, from the outputs of `git diff --name-status -z <base>` and
/// `git status`. The mtimes and line counts are still to be filled in.
pub fn branch_changes(diff: &Output, status: &Output) -> (r: Result<Vec<FileEntry>, String>)
    requires
        diff.success ==> readable_untracked(*status),
    ensures
        listing(r) == branch_list(*diff, *status),
{
    if !diff.success {
        return Err(
            delta::complaint("`git diff --name-status` failed: ", diff.stderr.as_slice()),
        );
    }
    let text = output_chars(diff);
    let tokens = txt::fields_of(text.as_slice(), '\0');
    let ghost all = txt::parts_of(tokens@);
    let ghost parts = txt::split(text@, '\0');
    let mut list: Vec<FileEntry> = Vec::new();
    let mut i: usize = 0;
    let mut whole = true;
    assert(entries(list@) + name_status_files(all, 0) =~= name_status_files(all, 0));
    while whole && i < tokens.len()
        invariant
            i <= tokens@.len(),
            all == txt::parts_of(tokens@),
            parts == txt::split(text@, '\0'),
            all == txt::nonempty_upto(parts, parts.len() as int),
            !whole ==> name_status_files(all, i as int) == Seq::<Entry>::empty(),
            entries(list@) + name_status_files(all, i as int) == name_status_files(all, 0),
        decreases tokens@.len() - i + (if whole { 1int } else { 0 }),
    {
        proof {
            lemma_fields_nonempty(parts, parts.len() as int, i as int);
        }
        assert(all[i as int] == tokens@[i as int]@);
        let code = tokens[i][0];
        // Rename/copy records are status, old, new; everything else status, path.
        let step: usize = if code == 'R' || code == 'C' {
            3
        } else {
            2
        };
        if tokens.len() - i < step {
            whole = false;
        } else {
            let path = txt::string_of(tokens[i + step - 1].as_slice());
            assert(all[i + step - 1] == path@);
            let kind = match code {
                'A' => ChangeKind::Added,
                'D' => ChangeKind::Deleted,
                'R' | 'C' => ChangeKind::Renamed,
                _ => ChangeKind::Modified,
            };
            let ghost was = entries(list@);
            let ghost entry = listed(path@, kind);
            push_listed(&mut list, path, kind);
            proof {
                let rest = name_status_files(all, i + step);
                assert(was.push(entry) + rest =~= was + (seq![entry] + rest));
            }
            i = i + step;
        }
    }
    assert(entries(list@) + Seq::<Entry>::empty() =~= entries(list@));
    let mut more = untracked_files(status);
    let ghost a = list@;
    let ghost b = more@;
    list.append(&mut more);
    assert(entries(list@) =~= entries(a) + entries(b));
    Ok(list)
}

// --- line counts ---------------------------------------------------------------

/// Whether a brace opens at `i`, in front of the part of a path that a rename changed.
pub open spec fn opens_at(s: Seq<char>, i: int) -> bool {
    s[i] == '{' && (i == 0 || s[i - 1] == '/')
}

/// Whether a brace closes at `i`, behind the part of a path that a rename changed.
pub open spec fn closes_at(s: Seq<char>, i: int) -> bool {
    s[i] == '}' && (i + 1 == s.len() || s[i + 1] == '/')
}

/// The last position before `n` at which a brace opens.
pub open spec fn last_opening(s: Seq<char>, n: int) -> Option<int>
    decreases n,
{
    if n <= 0 {
        None
    } else if opens_at(s, n - 1) {
        Some(n - 1)
    } else {
        last_opening(s, n - 1)
    }
}

/// The first position from `i` on at which a brace closes.
pub open spec fn first_closing(s: Seq<char>, i: int) -> Option<int>
    decreases s.len() - i,
{
    if i < 0 || i >= s.len() {
        None
    } else if closes_at(s, i) {
        Some(i)
    } else {
        first_closing(s, i + 1)
    }
}

/// A path put together from what a rename left and what it changed. Where it took a
/// directory out, the slashes on both sides of it are one.
pub open spec fn respelled(prefix: Seq<char>, part: Seq<char>, suffix: Seq<char>) -> Seq<char> {
    if part.len() == 0 && prefix.len() > 0 && prefix.last() == '/' && suffix.len() > 0
        && suffix[0] == '/' {
        prefix + suffix.skip(1)
    } else {
        prefix + part + suffix
    }
}

/// The path that a `--numstat` line is indexed by. Renames appear as `old => new`, or
/// with braces round the part that differs, `prefix/{old => new}/suffix`; they are
/// indexed by the new path.
pub open spec fn numstat_path(field: Seq<char>) -> Seq<char> {
    match txt::last_found(field, " => "@) {
        None => field,
        Some(at) => {
            let before = field.take(at);
            let after = field.skip(at + " => "@.len());
            match (last_opening(before, at), first_closing(after, 0)) {
                (Some(i), Some(j)) => respelled(before.take(i), after.take(j), after.skip(j + 1)),
                _ => after,
            }
        },
    }
}

/// The last position at which a brace opens.
fn find_opening(s: &[char]) -> (r: Option<usize>)
    ensures
        match r {
            Some(i) => last_opening(s@, s@.len() as int) == Some(i as int) && i < s@.len(),
            None => last_opening(s@, s@.len() as int) is None,
        },
{
    let mut n = s.len();
    while n > 0
        invariant
            n <= s@.len(),
            last_opening(s@, s@.len() as int) == last_opening(s@, n as int),
        decreases n,
    {
        if s[n - 1] == '{' && (n == 1 || s[n - 2] == '/') {
            return Some(n - 1);
        }
        n = n - 1;
    }
    None
}

/// The first position at which a brace closes.
fn find_closing(s: &[char]) -> (r: Option<usize>)
    ensures
        match r {
            Some(j) => first_closing(s@, 0) == Some(j as int) && j < s@.len(),
            None => first_closing(s@, 0) is None,
        },
{
    let mut j: usize = 0;
    while j < s.len()
        invariant
            j <= s@.len(),
            first_closing(s@, 0) == first_closing(s@, j as int),
        decreases s@.len() - j,
    {
        if s[j] == '}' && (j + 1 == s.len() || s[j + 1] == '/') {
            return Some(j);
        }
        j = j + 1;
    }
    None
}

/// A path put together from what a rename left and what it changed.
fn respell(prefix: &[char], part: &[char], suffix: &[char]) -> (r: String)
    ensures
        r@ == respelled(prefix@, part@, suffix@),
{
    let mut out = txt::string_of(prefix);
    let taken_out = part.len() == 0 && prefix.len() > 0 && prefix[prefix.len() - 1] == '/'
        && suffix.len() > 0 && suffix[0] == '/';
    if taken_out {
        let rest = vstd::slice::slice_subrange(suffix, 1, suffix.len());
        assert(rest@ =~= suffix@.skip(1));
        txt::push_chars(&mut out, rest);
    } else {
        txt::push_chars(&mut out, part);
        txt::push_chars(&mut out, suffix);
    }
    out
}

/// The path that a `--numstat` line is indexed by.
fn indexed_path(field: &[char]) -> (r: String)
    ensures
        r@ == numstat_path(field@),
{
    let arrow = txt::chars_of(" => ");
    let at = match txt::rfind(field, arrow.as_slice()) {
        Some(at) => at,
        None => {
            return txt::string_of(field);
        },
    };
    let n = field.len();
    let before = vstd::slice::slice_subrange(field, 0, at);
    let after = vstd::slice::slice_subrange(field, at + arrow.len(), n);
    assert(before@ =~= field@.take(at as int));
    assert(after@ =~= field@.skip(at + arrow@.len()));
    match (find_opening(before), find_closing(after)) {
        (Some(i), Some(j)) => {
            let prefix = vstd::slice::slice_subrange(before, 0, i);
            let part = vstd::slice::slice_subrange(after, 0, j);
            let suffix = vstd::slice::slice_subrange(after, j + 1, after.len());
            assert(prefix@ =~= before@.take(i as int));
            assert(part@ =~= after@.take(j as int));
            assert(suffix@ =~= after@.skip(j + 1));
            respell(prefix, part, suffix)
        },
        _ => txt::string_of(after),
    }
}

/// What a `--numstat` line says: a path with its added and removed counts.
/// Binary files (counts of `-`) say nothing.
pub open spec fn numstat_line(line: Seq<char>) -> Option<(Seq<char>, (u32, u32))> {
    match txt::cut(line, '\t') {
        None => None,
        Some((a, rest)) => match txt::cut(rest, '\t') {
            None => None,
            Some((d, path)) => match (
                txt::parsed(a, u32::MAX as nat),
                txt::parsed(d, u32::MAX as nat),
            ) {
                (Some(a), Some(d)) => Some((numstat_path(path), (a as u32, d as u32))),
                _ => None,
            },
        },
    }
}

/// The line counts that the first `n` lines give; a later line for a path hides
/// an earlier one.
pub open spec fn stats_upto(lines: Seq<Seq<char>>, n: int) -> Map<Seq<char>, (u32, u32)>
    decreases n,
{
    if n <= 0 {
        Map::empty()
    } else {
        match numstat_line(lines[n - 1]) {
            Some((path, counts)) => stats_upto(lines, n - 1).insert(path, counts),
            None => stats_upto(lines, n - 1),
        }
    }
}

/// The line counts that a `git diff --numstat` gives: none if it failed.
pub open spec fn stats_of(out: Option<Output>) -> Map<Seq<char>, (u32, u32)> {
    match out {
        Some(out) if out.success => {
            let lines = txt::lines(output_text(out));
            stats_upto(lines, lines.len() as int)
        },
        _ => Map::empty(),
    }
}

fn parse_numstat(line: &[char]) -> (r: Option<(String, (u32, u32))>)
    ensures
        match r {
            Some((path, counts)) => numstat_line(line@) == Some((path@, counts)),
            None => numstat_line(line@) is None,
        },
{
    let (a, rest) = match txt::cut_chars(line, '\t') {
        Some(p) => p,
        None => {
            return None;
        },
    };
    let (d, path) = match txt::cut_chars(rest, '\t') {
        Some(p) => p,
        None => {
            return None;
        },
    };
    let path = indexed_path(path);
    match (txt::parse_unsigned(a, u32::MAX as u64), txt::parse_unsigned(d, u32::MAX as u64)) {
        (Some(a), Some(d)) => Some((path, (a as u32, d as u32))),
        _ => None,
    }
}

/// Added/removed line counts per path, from the output of
/// `git diff --numstat <base>` (`None`: git could not be run).
pub fn numstat(out: &Option<Output>) -> (r: Table<String, (u32, u32)>)
    ensures
        r@ == stats_of(*out),
{
    let mut map: Table<String, (u32, u32)> = Table::new();
    match out {
        None => map,
        Some(out) => {
            if !out.success {
                return map;
            }
            let lines = txt::lines_of(output_chars(out).as_slice());
            let ghost all = txt::parts_of(lines@);
            let mut i: usize = 0;
            while i < lines.len()
                invariant
                    i <= lines@.len(),
                    all == txt::parts_of(lines@),
                    map@ == stats_upto(all, i as int),
                decreases lines@.len() - i,
            {
                assert(all[i as int] == lines@[i as int]@);
                if let Some((path, counts)) = parse_numstat(lines[i].as_slice()) {
                    map.insert(path, counts);
                }
                i = i + 1;
            }
            assert(all.len() == lines@.len());
            map
        },
    }
}

/// An entry with its line counts: an untracked file counts all the lines of its
/// `contents` as added (`None`: they could not be read); any other has those that
/// git gave, if it gave some.
pub open spec fn counted(
    e: Entry,
    stats: Map<Seq<char>, (u32, u32)>,
    contents: Option<Seq<char>>,
) -> Entry {
    if e.kind == ChangeKind::Untracked {
        Entry {
            added: match contents {
                Some(text) => Some((txt::lines(text).len() % 0x1_0000_0000) as u32),
                None => None,
            },
            removed: Some(0u32),
            ..e
        }
    } else if stats.contains_key(e.path) {
        Entry { added: Some(stats[e.path].0), removed: Some(stats[e.path].1), ..e }
    } else {
        e
    }
}

/// Fills each entry's added/removed counts. Tracked files come from the output of
/// `git diff --numstat <base>`; untracked files count their whole contents as
/// additions.
pub fn fill_stats(
    list: &mut Vec<FileEntry>,
    diff: &Option<Output>,
    contents: &Vec<Option<String>>,
)
    requires
        old(list)@.len() == contents@.len(),
    ensures
        final(list)@.len() == old(list)@.len(),
        forall|i: int|
            0 <= i < old(list)@.len() ==> entries(final(list)@)[i] == counted(
                #[trigger] entries(old(list)@)[i],
                stats_of(*diff),
                txt::opt_text(contents@[i]),
            ),
{
    let stats = numstat(diff);
    let ghost first = list@;
    let mut i: usize = 0;
    while i < list.len()
        invariant
            i <= list@.len(),
            list@.len() == first.len(),
            first.len() == contents@.len(),
            stats@ == stats_of(*diff),
            forall|j: int| i <= j < first.len() ==> list@[j] == first[j],
            forall|j: int|
                0 <= j < i ==> #[trigger] list@[j]@ == counted(
                    first[j]@,
                    stats@,
                    txt::opt_text(contents@[j]),
                ),
        decreases list@.len() - i,
    {
        let ghost was = list@;
        let mut e = list[i].clone();
        if e.kind == ChangeKind::Untracked {
            e.added = match &contents[i] {
                Some(text) => {
                    let n: usize = txt::lines_of(txt::chars_of(text.as_str()).as_slice()).len();
                    Some((n as u64 % 0x1_0000_0000) as u32)
                },
                None => None,
            };
            e.removed = Some(0);
        } else if let Some(counts) = stats.get(&e.path) {
            e.added = Some(counts.0);
            e.removed = Some(counts.1);
        }
        let ghost done = e@;
        assert(done =~= counted(first[i as int]@, stats@, txt::opt_text(contents@[i as int])));
        list.set(i, e);
        i = i + 1;
    }
    assert forall|j: int| 0 <= j < first.len() implies entries(list@)[j] == counted(
        #[trigger] entries(first)[j],
        stats_of(*diff),
        txt::opt_text(contents@[j]),
    ) by {
        assert(entries(list@)[j] == list@[j]@);
    }
}

// --- what the listings show ------------------------------------------------------

/// An ASCII character in front adds its one byte.
pub proof fn lemma_ascii_in_front(c: char, rest: Seq<char>)
    requires
        (c as u32) < 128,
    ensures
        encode_utf8(seq![c] + rest) == seq![c as u8] + encode_utf8(rest),
        forall|n: int| n >= 0 && #[trigger] cuts_at(rest, n) ==> cuts_at(seq![c] + rest, n + 1),
{
    let s = seq![c] + rest;
    assert(s[0] == c);
    assert(s.drop_first() =~= rest);
    assert(encode_utf8(s) =~= vstd::utf8::encode_scalar(c as u32) + encode_utf8(rest));
    let u = c as u32;
    assert(u & 0x7f == u) by (bit_vector)
        requires
            u < 128,
    ;
    assert(vstd::utf8::encode_scalar(u) =~= seq![c as u8]);
    vstd::utf8::encode_utf8_valid_utf8(s);
    vstd::utf8::encode_utf8_first_scalar(s);
    let bytes = encode_utf8(s);
    assert(vstd::utf8::pop_first_scalar(bytes) =~= encode_utf8(rest));
    assert forall|n: int| n >= 0 && #[trigger] cuts_at(rest, n) implies cuts_at(s, n + 1) by {
        vstd::utf8::encode_utf8_valid_utf8(rest);
        assert(n <= encode_utf8(rest).len());
    }
}

/// A status record is a two-letter code, a blank and a path: the letters give the kind
/// of change, and the path is the rest, whatever characters it is made of.
pub proof fn law_status_records(x: char, y: char, path: Seq<char>)
    requires
        (x as u32) < 128,
        (y as u32) < 128,
    ensures
        ({
            let record = seq![x] + (seq![y] + (seq![' '] + path));
            &&& encode_utf8(record).len() >= 3
            &&& byte_char(record, 0) == x && byte_char(record, 1) == y
            &&& cuts_at(record, 3)
            &&& from_byte(record, 3) == path
        }),
{
    let c = seq![' '] + path;
    let b = seq![y] + c;
    let a = seq![x] + b;
    lemma_ascii_in_front(' ', path);
    lemma_ascii_in_front(y, c);
    lemma_ascii_in_front(x, b);
    let bytes = encode_utf8(a);
    vstd::utf8::encode_utf8_valid_utf8(a);
    vstd::utf8::encode_utf8_valid_utf8(path);
    vstd::utf8::encode_utf8_decode_utf8(path);
    assert(bytes.subrange(3, bytes.len() as int) =~= encode_utf8(path));
    assert(cuts_at(path, 0));
    assert(cuts_at(c, 1));
    assert(cuts_at(b, 2));
}

/// Whether every status record stands alone: none is followed by a rename's origin.
pub open spec fn without_origins(tokens: Seq<Seq<char>>) -> bool {
    forall|i: int|
        0 <= i < tokens.len() ==> encode_utf8(#[trigger] tokens[i]).len() >= 3 && !has_origin(
            tokens[i],
        )
}

proof fn lemma_status_from(tokens: Seq<Seq<char>>, i: int, k: int)
    requires
        without_origins(tokens),
        0 <= i <= k < tokens.len(),
    ensures
        status_files(tokens, i).len() == tokens.len() - i,
        status_files(tokens, i)[k - i] == listed(
            from_byte(tokens[k], 3),
            classified(byte_char(tokens[k], 0), byte_char(tokens[k], 1)),
        ),
    decreases tokens.len() - i,
{
    assert(!has_origin(tokens[i]));
    if i < k {
        lemma_status_from(tokens, i + 1, k);
    } else if i + 1 < tokens.len() {
        lemma_status_from(tokens, i + 1, i + 1);
    } else {
        assert(status_files(tokens, i + 1).len() == 0);
    }
}

/// Without renames, `git status` lists one changed file for each record, in its order.
pub proof fn law_every_record_is_listed(tokens: Seq<Seq<char>>, k: int)
    requires
        without_origins(tokens),
        0 <= k < tokens.len(),
    ensures
        status_files(tokens, 0).len() == tokens.len(),
        status_files(tokens, 0)[k] == listed(
            from_byte(tokens[k], 3),
            classified(byte_char(tokens[k], 0), byte_char(tokens[k], 1)),
        ),
{
    lemma_status_from(tokens, 0, k);
}

/// A rename is listed under its new path, and its original path is skipped.
pub proof fn law_renames_skip_the_origin(tokens: Seq<Seq<char>>, i: int)
    requires
        0 <= i < tokens.len(),
        encode_utf8(tokens[i]).len() >= 3,
        has_origin(tokens[i]),
    ensures
        status_files(tokens, i) == seq![
            listed(
                from_byte(tokens[i], 3),
                classified(byte_char(tokens[i], 0), byte_char(tokens[i], 1)),
            ),
        ] + status_files(tokens, i + 2),
{
}

/// Whether a record of `git status` starts at token `k`, counting on from that at `i`.
pub open spec fn starts_record(tokens: Seq<Seq<char>>, i: int, k: int) -> bool
    decreases k + 1 - i,
{
    0 <= i <= k && (i == k || starts_record(
        tokens,
        if is_untracked(tokens[i]) {
            i + 1
        } else {
            after_tracked(tokens, i)
        },
        k,
    ))
}

proof fn lemma_untracked_from(tokens: Seq<Seq<char>>, i: int, k: int)
    requires
        starts_record(tokens, i, k),
        k < tokens.len(),
        is_untracked(tokens[k]),
    ensures
        untracked_from(tokens, i).contains(
            listed(from_byte(tokens[k], 3), ChangeKind::Untracked),
        ),
    decreases k + 1 - i,
{
    let e = listed(from_byte(tokens[k], 3), ChangeKind::Untracked);
    let all = untracked_from(tokens, i);
    if i == k {
        assert(all[0] == e);
    } else if is_untracked(tokens[i]) {
        lemma_untracked_from(tokens, i + 1, k);
        let rest = untracked_from(tokens, i + 1);
        let j = choose|j: int| 0 <= j < rest.len() && rest[j] == e;
        assert(all[j + 1] == e);
    } else {
        lemma_untracked_from(tokens, after_tracked(tokens, i), k);
    }
}

/// A branch's changes hold every untracked file that the status lists.
pub proof fn law_branch_changes_hold_untracked_files(diff: Output, status: Output, k: int)
    requires
        diff.success,
        0 <= k < txt::fields(output_text(status), '\0').len(),
        starts_record(txt::fields(output_text(status), '\0'), 0, k),
        is_untracked(txt::fields(output_text(status), '\0')[k]),
    ensures
        branch_list(diff, status) matches Ok(list) && list.contains(
            listed(
                from_byte(txt::fields(output_text(status), '\0')[k], 3),
                ChangeKind::Untracked,
            ),
        ),
{
    let tokens = txt::fields(output_text(status), '\0');
    lemma_untracked_from(tokens, 0, k);
    let first = name_status_files(txt::fields(output_text(diff), '\0'), 0);
    let second = untracked_from(tokens, 0);
    let e = listed(from_byte(tokens[k], 3), ChangeKind::Untracked);
    let j = choose|j: int| 0 <= j < second.len() && second[j] == e;
    assert((first + second)[first.len() + j] == e);
}

/// Whether a rename's field can be read in one way only: its parts hold neither a
/// further arrow nor a further brace round them.
pub open spec fn reads_one_way(
    prefix: Seq<char>,
    old: Seq<char>,
    new: Seq<char>,
    suffix: Seq<char>,
) -> bool {
    &&& prefix.len() == 0 || prefix.last() == '/'
    &&& suffix.len() == 0 || suffix[0] == '/'
    &&& forall|i: int| 0 <= i < old.len() ==> #[trigger] old[i] != '{'
    &&& forall|i: int| 0 <= i < new.len() ==> #[trigger] new[i] != '}'
    &&& !txt::holds(seq![' '] + (new + seq!['}'] + suffix), " => "@)
}

proof fn lemma_opening(s: Seq<char>, i: int, n: int)
    requires
        0 <= i < n <= s.len(),
        opens_at(s, i),
        forall|k: int| i < k < n ==> #[trigger] s[k] != '{',
    ensures
        last_opening(s, n) == Some(i),
    decreases n,
{
    if i < n - 1 {
        assert(s[n - 1] != '{');
        lemma_opening(s, i, n - 1);
    }
}

proof fn lemma_closing(s: Seq<char>, i: int, j: int)
    requires
        0 <= i <= j < s.len(),
        closes_at(s, j),
        forall|k: int| i <= k < j ==> #[trigger] s[k] != '}',
    ensures
        first_closing(s, i) == Some(j),
    decreases j - i,
{
    if i < j {
        assert(s[i] != '}');
        lemma_closing(s, i + 1, j);
    }
}

proof fn lemma_last_found(s: Seq<char>, pat: Seq<char>, at: int, i: int)
    requires
        0 <= at <= i,
        txt::occurs_at(s, pat, at),
        forall|k: int| at < k <= i ==> !#[trigger] txt::occurs_at(s, pat, k),
    ensures
        txt::rfind_from(s, pat, i) == Some(at),
    decreases i - at,
{
    if at < i {
        assert(!txt::occurs_at(s, pat, i));
        lemma_last_found(s, pat, at, i - 1);
    }
}

/// The arrow of a rename is found in front of a new path that holds no further one.
pub proof fn lemma_arrow(before: Seq<char>, after: Seq<char>)
    requires
        !txt::holds(seq![' '] + after, " => "@),
    ensures
        txt::last_found(before + " => "@ + after, " => "@) == Some(before.len() as int),
        (before + " => "@ + after).take(before.len() as int) == before,
        (before + " => "@ + after).skip(before.len() + " => "@.len() as int) == after,
{
    reveal_strlit(" => ");
    let arrow = " => "@;
    let field = before + arrow + after;
    let at = before.len() as int;
    let tail = seq![' '] + after;
    assert(field.subrange(at, at + 4) =~= arrow);
    assert(txt::occurs_at(field, arrow, at));
    assert forall|k: int| at < k <= field.len() - 4 implies !#[trigger] txt::occurs_at(
        field,
        arrow,
        k,
    ) by {
        if txt::occurs_at(field, arrow, k) {
            assert(field.subrange(k, k + 4)[0] == ' ');
            assert(field[k] == ' ');
            assert(k >= at + 3);
            assert(field.subrange(k, k + 4) =~= tail.subrange(k - at - 3, k - at + 1));
            assert(txt::occurs_at(tail, arrow, k - at - 3));
        }
    }
    lemma_last_found(field, arrow, at, field.len() - 4);
    assert(field.take(at) =~= before);
    assert(field.skip(at + 4) =~= after);
}

proof fn lemma_no_opening(s: Seq<char>, n: int)
    requires
        0 <= n <= s.len(),
        forall|k: int| 0 <= k < n ==> #[trigger] s[k] != '{',
    ensures
        last_opening(s, n) is None,
    decreases n,
{
    if n > 0 {
        assert(s[n - 1] != '{');
        lemma_no_opening(s, n - 1);
    }
}

/// A rename's line counts are found under its new path: the parts that it left, round
/// the new part.
pub proof fn law_renames_count_for_the_new_path(
    prefix: Seq<char>,
    old: Seq<char>,
    new: Seq<char>,
    suffix: Seq<char>,
)
    requires
        reads_one_way(prefix, old, new, suffix),
    ensures
        numstat_path(
            prefix + seq!['{'] + old + " => "@ + (new + seq!['}'] + suffix),
        ) == respelled(prefix, new, suffix),
        new.len() > 0 ==> respelled(prefix, new, suffix) == prefix + new + suffix,
{
    let before = prefix + seq!['{'] + old;
    let after = new + seq!['}'] + suffix;
    lemma_arrow(before, after);
    lemma_opening(before, prefix.len() as int, before.len() as int);
    lemma_closing(after, 0, new.len() as int);
    assert(before.take(prefix.len() as int) =~= prefix);
    assert(after.take(new.len() as int) =~= new);
    assert(after.skip(new.len() as int + 1) =~= suffix);
}

/// A rename that leaves no part of the path is counted for all of the new path.
pub proof fn law_whole_renames_count_for_the_new_path(old: Seq<char>, new: Seq<char>)
    requires
        forall|i: int| 0 <= i < old.len() ==> #[trigger] old[i] != '{',
        !txt::holds(seq![' '] + new, " => "@),
    ensures
        numstat_path(old + " => "@ + new) == new,
{
    lemma_arrow(old, new);
    lemma_no_opening(old, old.len() as int);
}

} // verus!
