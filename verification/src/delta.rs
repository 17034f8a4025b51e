//! Diff rendering via the `delta` binary, plus a small cache.
//!
//! delta is run by the program around this library; here stands what it is asked
//! for, what becomes of its output, and which renders are kept.

use vstd::prelude::*;
use ansi_to_tui::IntoText;
use crate::search;
use crate::rich::{Ink, Line, Row, Span, Style, Text};
use crate::table;
use crate::table::Table;
use crate::txt;

verus! {

/// What a finished process left behind.
pub struct Output {
    pub success: bool,
    pub stdout: Vec<u8>,
    pub stderr: Vec<u8>,
}

/// What came of running delta over a diff.
pub enum DeltaRun {
    /// delta isn't installed.
    Missing,
    /// delta could not be started.
    NotSpawned,
    /// delta's output could not be read.
    NotRead,
    Ran(Output),
}

// --- parsing ANSI output -------------------------------------------------------

/// The error of the ANSI parser.
#[verifier::external_type_specification]
#[verifier::external_body]
pub struct ExAnsiError(ansi_to_tui::Error);

/// The rows that `ansi_to_tui` parses from `bytes`, if it parses them.
pub uninterp spec fn ansi_rows(bytes: Seq<u8>) -> Option<Seq<Row>>;

/// `ansi_to_tui`'s `IntoText::into_text`: parses text with ANSI escapes into styled
/// lines. What it parses depends on the bytes alone.
#[verifier::external_body]
fn parse_ansi(bytes: &[u8]) -> (r: Result<Text, ansi_to_tui::Error>)
    ensures
        r is Ok <==> ansi_rows(bytes@) is Some,
        r matches Ok(t) ==> ansi_rows(bytes@) == Some(t@),
{
    let own = |s: ratatui::style::Style| Style {
        fg: s.fg.map(Ink::Parsed),
        bg: s.bg.map(Ink::Parsed),
        underline_color: s.underline_color.map(Ink::Parsed),
        add_modifier: s.add_modifier.bits(),
        sub_modifier: s.sub_modifier.bits(),
    };
    let span = |s: ratatui::text::Span| Span { content: s.content.into_owned(), style: own(s.style) };
    let line = |l: ratatui::text::Line<'static>| {
        Line { style: own(l.style), spans: l.spans.into_iter().map(span).collect() }
    };
    Ok(Text { lines: bytes.into_text()?.lines.into_iter().map(line).collect() })
}

// --- listing themes ------------------------------------------------------------

/// What listing delta's syntax themes comes to: the message of the error, if there is
/// one. `run` tells whether delta succeeded (`None`: it could not be run).
pub open spec fn themes_complaint(available: bool, run: Option<bool>) -> Option<Seq<char>> {
    if !available {
        Some(
            "`delta` was not found on PATH.\nInstall it with `cargo install git-delta` or your system package manager."@,
        )
    } else {
        match run {
            None => Some("failed to run `delta --list-syntax-themes`"@),
            Some(false) => Some("`delta --list-syntax-themes` failed"@),
            Some(true) => None,
        }
    }
}

/// What listing delta's syntax themes came to.
pub fn list_syntax_themes(available: bool, run: Option<bool>) -> (r: Result<(), String>)
    ensures
        match r {
            Ok(_) => themes_complaint(available, run) is None,
            Err(message) => themes_complaint(available, run) == Some(message@),
        },
{
    if !available {
        return Err(
            "`delta` was not found on PATH.\nInstall it with `cargo install git-delta` or your system package manager.".to_owned(),
        );
    }
    match run {
        None => Err("failed to run `delta --list-syntax-themes`".to_owned()),
        Some(success) => if success {
            Ok(())
        } else {
            Err("`delta --list-syntax-themes` failed".to_owned())
        },
    }
}

// --- rendering -----------------------------------------------------------------

/// The arguments delta is run with. delta needs a sane width for its decorations
/// and background fills.
pub open spec fn delta_arguments(width: u16, theme: Option<Seq<char>>, tabs: u16) -> Seq<Seq<char>> {
    let wide: nat = if width < 20 {
        20
    } else {
        width as nat
    };
    let always = seq![
        "--paging"@,
        "never"@,
        "--true-color"@,
        "always"@,
        "--width"@,
        txt::decimal(wide),
        "--tabs"@,
        txt::decimal(tabs as nat),
    ];
    match theme {
        Some(t) => always + seq!["--syntax-theme"@, t],
        None => always,
    }
}

/// The arguments to run delta with, for a pane of `width` columns, a theme
/// (`None`: the one of the user's gitconfig) and the number of spaces a tab
/// expands to.
pub fn delta_args(width: u16, theme: &Option<String>, tabs: u16) -> (r: Vec<String>)
    ensures
        txt::texts(r@) == delta_arguments(width, txt::opt_text(*theme), tabs),
{
    let wide: u16 = if width < 20 {
        20
    } else {
        width
    };
    let mut r: Vec<String> = Vec::new();
    assert(txt::texts(r@) =~= Seq::<Seq<char>>::empty());
    txt::push_text(&mut r, "--paging".to_owned());
    txt::push_text(&mut r, "never".to_owned());
    txt::push_text(&mut r, "--true-color".to_owned());
    txt::push_text(&mut r, "always".to_owned());
    txt::push_text(&mut r, "--width".to_owned());
    txt::push_text(&mut r, txt::decimal_string(wide as u64));
    txt::push_text(&mut r, "--tabs".to_owned());
    txt::push_text(&mut r, txt::decimal_string(tabs as u64));
    if let Some(theme) = theme {
        txt::push_text(&mut r, "--syntax-theme".to_owned());
        txt::push_text(&mut r, theme.clone());
    }
    assert(txt::texts(r@) =~= delta_arguments(width, txt::opt_text(*theme), tabs));
    r
}

/// What a run of delta over `raw` comes to: the bytes to show, or the message of
/// the error. Without delta, git's own colored output is shown.
pub open spec fn shown_bytes(raw: Seq<u8>, run: DeltaRun) -> Result<Seq<u8>, Seq<char>> {
    match run {
        DeltaRun::Missing => Ok(raw),
        DeltaRun::NotSpawned => Err("failed to spawn `delta`"@),
        DeltaRun::NotRead => Err("failed to read delta output"@),
        DeltaRun::Ran(out) => if !out.success && out.stdout@.len() == 0 {
            Err("delta failed: "@ + txt::trimmed(txt::decoded(out.stderr@)))
        } else {
            Ok(out.stdout@)
        },
    }
}

/// The message for output that can't be parsed.
pub open spec fn parse_failure(run: DeltaRun) -> Seq<char> {
    match run {
        DeltaRun::Missing => "failed to parse git's ANSI output"@,
        _ => "failed to parse delta's ANSI output"@,
    }
}

/// What is shown for a run of delta over `raw`, given what parses.
pub open spec fn rendered(raw: Seq<u8>, run: DeltaRun) -> Result<Seq<Row>, Seq<char>> {
    match shown_bytes(raw, run) {
        Err(message) => Err(message),
        Ok(bytes) => settled(ansi_rows(bytes), run),
    }
}

/// What a rendering result shows.
pub open spec fn outcome(r: Result<Text, String>) -> Result<Seq<Row>, Seq<char>> {
    match r {
        Ok(text) => Ok(text@),
        Err(message) => Err(message@),
    }
}

/// A process's complaint: `prefix`, then its error output without surrounding
/// whitespace.
pub fn complaint(prefix: &str, stderr: &[u8]) -> (r: String)
    ensures
        r@ == prefix@ + txt::trimmed(txt::decoded(stderr@)),
{
    let mut message = prefix.to_owned();
    let text = txt::utf8_lossy(stderr);
    message.append(txt::trim(text.as_str()).as_str());
    message
}

/// The bytes to show for a run of delta over `raw`, or the error's message.
pub fn bytes_to_show<'a>(raw: &'a [u8], run: &'a DeltaRun) -> (r: Result<&'a [u8], String>)
    ensures
        match r {
            Ok(bytes) => shown_bytes(raw@, *run) == Ok::<Seq<u8>, Seq<char>>(bytes@),
            Err(message) => shown_bytes(raw@, *run) == Err::<Seq<u8>, Seq<char>>(message@),
        },
{
    match run {
        DeltaRun::Missing => Ok(raw),
        DeltaRun::NotSpawned => Err("failed to spawn `delta`".to_owned()),
        DeltaRun::NotRead => Err("failed to read delta output".to_owned()),
        DeltaRun::Ran(out) => {
            if !out.success && out.stdout.len() == 0 {
                Err(complaint("delta failed: ", out.stderr.as_slice()))
            } else {
                Ok(out.stdout.as_slice())
            }
        },
    }
}

/// What the parser made of the output of a run: the text, or the error's message.
pub open spec fn settled(parsed: Option<Seq<Row>>, run: DeltaRun) -> Result<Seq<Row>, Seq<char>> {
    match parsed {
        Some(text) => Ok(text),
        None => Err(parse_failure(run)),
    }
}

/// The text that the output of a run was parsed to, or the error's message.
pub fn settle(parsed: Option<Text>, run: &DeltaRun) -> (r: Result<Text, String>)
    ensures
        outcome(r) == settled(
            match parsed {
                Some(text) => Some(text@),
                None => None,
            },
            *run,
        ),
{
    match parsed {
        Some(text) => Ok(text),
        None => match run {
            DeltaRun::Missing => Err("failed to parse git's ANSI output".to_owned()),
            _ => Err("failed to parse delta's ANSI output".to_owned()),
        },
    }
}

/// Turns a run of delta over a raw (already git-colored) diff into styled text.
pub fn render(raw: &[u8], run: &DeltaRun) -> (r: Result<Text, String>)
    ensures
        outcome(r) == rendered(raw@, *run),
{
    match bytes_to_show(raw, run) {
        Err(message) => Err(message),
        Ok(bytes) => {
            let parsed = match parse_ansi(bytes) {
                Ok(text) => Some(text),
                Err(_) => None,
            };
            settle(parsed, run)
        },
    }
}

// --- the cache -----------------------------------------------------------------

/// Caches rendered diffs keyed by `(path, content signature, width)`.
///
/// The signature changes when a file's content changes, so an edit naturally
/// produces a cache miss and re-render. Width is part of the key so a terminal
/// resize lazily re-renders each file at the new width.
pub struct DiffCache {
    map: Table<(String, u64, u16), Text>,
    /// ANSI-stripped raw diff text per (path, signature): width- and
    /// theme-independent, used by content search.
    raw: Table<(String, u64), String>,
}

/// What the cache holds.
#[verifier::ext_equal]
pub struct Cached {
    pub map: Map<(Seq<char>, u64, u16), Seq<Row>>,
    pub raw: Map<(Seq<char>, u64), Seq<char>>,
}

impl View for DiffCache {
    type V = Cached;

    closed spec fn view(&self) -> Cached {
        Cached { map: self.map@, raw: self.raw@ }
    }
}

/// The searchable text of a raw diff: decoded, and without ANSI escapes.
pub open spec fn searchable(raw: Seq<u8>) -> Seq<char> {
    search::plain_text(txt::decoded(raw))
}

/// The searchable text of a raw diff.
pub fn searchable_text(raw: &[u8]) -> (r: String)
    ensures
        r@ == searchable(raw@),
{
    search::strip_ansi(txt::utf8_lossy(raw).as_str())
}

/// What producing a file's diff came to: git's raw output or the error's message,
/// and the run of delta over it.
pub struct Production {
    pub raw: Result<Vec<u8>, String>,
    pub run: DeltaRun,
}

impl Production {
    /// What was produced, rendered.
    pub open spec fn shown(self) -> Result<Seq<Row>, Seq<char>> {
        match self.raw {
            Err(message) => Err(message@),
            Ok(raw) => rendered(raw@, self.run),
        }
    }

    /// Renders what was produced.
    pub fn show(&self) -> (r: Result<Text, String>)
        ensures
            outcome(r) == self.shown(),
    {
        match &self.raw {
            Err(message) => Err(message.clone()),
            Ok(raw) => render(raw.as_slice(), &self.run),
        }
    }
}

impl Cached {
    /// The empty cache.
    pub open spec fn empty() -> Cached {
        Cached { map: Map::empty(), raw: Map::empty() }
    }

    /// Whether the render for this key is cached.
    pub open spec fn contains(self, path: Seq<char>, sig: u64, width: u16) -> bool {
        self.map.contains_key((path, sig, width))
    }

    /// The searchable text for `path` at `sig`, if retained.
    pub open spec fn raw_text(self, path: Seq<char>, sig: u64) -> Option<Seq<char>> {
        if self.raw.contains_key((path, sig)) {
            Some(self.raw[(path, sig)])
        } else {
            None
        }
    }

    /// With a render stored.
    pub open spec fn insert(self, path: Seq<char>, sig: u64, width: u16, text: Seq<Row>) -> Cached {
        Cached { map: self.map.insert((path, sig, width), text), ..self }
    }

    /// With a searchable text stored.
    pub open spec fn insert_raw(self, path: Seq<char>, sig: u64, text: Seq<char>) -> Cached {
        Cached { raw: self.raw.insert((path, sig), text), ..self }
    }

    /// Without anything stored for `path`.
    pub open spec fn invalidate_path(self, path: Seq<char>) -> Cached {
        Cached {
            map: table::without_name::<(String, u64, u16), Seq<Row>>(self.map, path),
            raw: table::without_name::<(String, u64), Seq<char>>(self.raw, path),
        }
    }

    /// Without any render; searchable texts stay.
    pub open spec fn clear(self) -> Cached {
        Cached { map: Map::empty(), ..self }
    }

    /// What a file shows: its cached render, else what was produced for it.
    pub open spec fn shown(
        self,
        path: Seq<char>,
        sig: u64,
        width: u16,
        made: Production,
    ) -> Result<Seq<Row>, Seq<char>> {
        if self.contains(path, sig, width) {
            Ok(self.map[(path, sig, width)])
        } else {
            made.shown()
        }
    }

    /// The cache after showing a file: what was produced on a miss is retained.
    pub open spec fn after_showing(
        self,
        path: Seq<char>,
        sig: u64,
        width: u16,
        made: Production,
    ) -> Cached {
        if self.contains(path, sig, width) {
            self
        } else {
            match made.raw {
                Err(_) => self,
                Ok(raw) => {
                    let kept = if self.raw.contains_key((path, sig)) {
                        self
                    } else {
                        self.insert_raw(path, sig, searchable(raw@))
                    };
                    match rendered(raw@, made.run) {
                        Ok(text) => kept.insert(path, sig, width, text),
                        Err(_) => kept,
                    }
                },
            }
        }
    }
}

impl DiffCache {
    pub fn new() -> (r: DiffCache)
        ensures
            r@ == Cached::empty(),
    {
        DiffCache { map: Table::new(), raw: Table::new() }
    }

    /// The rendered diff for `path`: the cached one, else what `made` comes to,
    /// which is then cached. `made` is looked at only on a miss.
    pub fn get_or_render(&mut self, path: &str, sig: u64, width: u16, made: &Production) -> (r: Result<
        Text,
        String,
    >)
        ensures
            outcome(r) == old(self)@.shown(path@, sig, width, *made),
            final(self)@ == old(self)@.after_showing(path@, sig, width, *made),
    {
        let key = (path.to_owned(), sig, width);
        if let Some(text) = self.map.get(&key) {
            return Ok(text.clone());
        }
        match &made.raw {
            Err(message) => Err(message.clone()),
            Ok(raw) => {
                let raw_key = (path.to_owned(), sig);
                if !self.raw.contains(&raw_key) {
                    self.raw.insert(raw_key, searchable_text(raw.as_slice()));
                }
                let text = render(raw.as_slice(), &made.run);
                match text {
                    Err(message) => Err(message),
                    Ok(text) => {
                        self.map.insert(key, text.clone());
                        Ok(text)
                    },
                }
            },
        }
    }

    /// True if a render for this key is already cached.
    pub fn contains(&self, path: &str, sig: u64, width: u16) -> (r: bool)
        ensures
            r == self@.contains(path@, sig, width),
    {
        self.map.contains(&(path.to_owned(), sig, width))
    }

    /// Store a pre-rendered diff.
    pub fn insert(&mut self, path: &str, sig: u64, width: u16, text: Text)
        ensures
            final(self)@ == old(self)@.insert(path@, sig, width, text@),
    {
        self.map.insert((path.to_owned(), sig, width), text);
    }

    /// The ANSI-stripped raw diff for `path` at `sig`, if retained.
    pub fn raw_text(&self, path: &str, sig: u64) -> (r: Option<&str>)
        ensures
            match r {
                Some(text) => self@.raw_text(path@, sig) == Some(text@),
                None => self@.raw_text(path@, sig) is None,
            },
    {
        match self.raw.get(&(path.to_owned(), sig)) {
            Some(text) => Some(text.as_str()),
            None => None,
        }
    }

    /// Retain the ANSI-stripped raw diff for `path` at `sig`.
    pub fn insert_raw(&mut self, path: &str, sig: u64, stripped: String)
        ensures
            final(self)@ == old(self)@.insert_raw(path@, sig, stripped@),
    {
        self.raw.insert((path.to_owned(), sig), stripped);
    }

    /// Drop all cached renders for a path (any signature/width).
    pub fn invalidate_path(&mut self, path: &str)
        ensures
            final(self)@ == old(self)@.invalidate_path(path@),
    {
        self.map.drop_named(path);
        self.raw.drop_named(path);
    }

    /// Drop every cached render. Raw text is kept: it's theme-independent, so a
    /// theme switch shouldn't force content search to re-fetch and re-strip diffs.
    pub fn clear(&mut self)
        ensures
            final(self)@ == old(self)@.clear(),
    {
        self.map = Table::new();
    }
}

// --- laws ----------------------------------------------------------------------

/// What was retained is read back.
pub proof fn law_raw_text_round_trip(c: Cached, path: Seq<char>, sig: u64, text: Seq<char>)
    ensures
        c.insert_raw(path, sig, text).raw_text(path, sig) == Some(text),
{
}

/// A text is retained under its own path and signature only.
pub proof fn law_raw_text_is_keyed(
    c: Cached,
    path: Seq<char>,
    sig: u64,
    text: Seq<char>,
    other: Seq<char>,
    other_sig: u64,
)
    requires
        other != path || other_sig != sig,
    ensures
        c.insert_raw(path, sig, text).raw_text(other, other_sig) == c.raw_text(other, other_sig),
{
}

/// A theme change drops every render and keeps every searchable text.
pub proof fn law_clearing_keeps_raw_text(c: Cached, path: Seq<char>, sig: u64, width: u16)
    ensures
        c.clear().raw_text(path, sig) == c.raw_text(path, sig),
        !c.clear().contains(path, sig, width),
{
}

/// Invalidating a path drops everything of that path and nothing of others.
pub proof fn law_invalidation_is_per_path(
    c: Cached,
    path: Seq<char>,
    other: Seq<char>,
    sig: u64,
    width: u16,
)
    requires
        other != path,
    ensures
        c.invalidate_path(path).raw_text(path, sig) is None,
        !c.invalidate_path(path).contains(path, sig, width),
        c.invalidate_path(path).raw_text(other, sig) == c.raw_text(other, sig),
        c.invalidate_path(path).contains(other, sig, width) == c.contains(other, sig, width),
{
}

/// Once shown, a file is shown the same again, whatever would be produced for it
/// the second time.
pub proof fn law_a_shown_file_is_cached(
    c: Cached,
    path: Seq<char>,
    sig: u64,
    width: u16,
    made: Production,
    again: Production,
)
    requires
        c.shown(path, sig, width, made) is Ok,
    ensures
        c.after_showing(path, sig, width, made).shown(path, sig, width, again) == c.shown(
            path,
            sig,
            width,
            made,
        ),
        c.after_showing(path, sig, width, made).after_showing(path, sig, width, again)
            == c.after_showing(path, sig, width, made),
{
}

/// Without delta, git's own colored diff is shown.
pub proof fn law_without_delta_the_diff_is_plain(raw: Seq<u8>)
    ensures
        rendered(raw, DeltaRun::Missing) == (match ansi_rows(raw) {
            Some(text) => Ok::<Seq<Row>, Seq<char>>(text),
            None => Err(parse_failure(DeltaRun::Missing)),
        }),
{
}

} // verus!
