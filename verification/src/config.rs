//! Persisted UI state (sort order, theme, diff mode, ...) so the program opens the
//! same way every time, as a tiny `key=value` text.

use vstd::prelude::*;
use crate::sort;
use crate::sort::SortField;
use crate::txt;

verus! {

/// What the diff is taken against.
#[derive(Debug, Clone, Copy, PartialEq, Eq, Structural)]
pub enum DiffMode {
    /// Working-tree changes since the last commit (`HEAD`), plus untracked files.
    Working,
    /// Everything on this branch versus its base branch (the merge base).
    BaseBranch,
}

/// The persisted name of a diff mode.
pub open spec fn mode_name(mode: DiffMode) -> Seq<char> {
    match mode {
        DiffMode::Working => "working"@,
        DiffMode::BaseBranch => "base"@,
    }
}

/// The diff mode that a persisted name stands for.
pub open spec fn named_mode(s: Seq<char>) -> Option<DiffMode> {
    if s == "working"@ {
        Some(DiffMode::Working)
    } else if s == "base"@ {
        Some(DiffMode::BaseBranch)
    } else {
        None
    }
}

/// The other diff mode.
pub open spec fn other_mode(mode: DiffMode) -> DiffMode {
    match mode {
        DiffMode::Working => DiffMode::BaseBranch,
        DiffMode::BaseBranch => DiffMode::Working,
    }
}

impl DiffMode {
    pub fn as_key(self) -> (r: &'static str)
        ensures
            r@ == mode_name(self),
    {
        match self {
            DiffMode::Working => "working",
            DiffMode::BaseBranch => "base",
        }
    }

    pub fn from_key(s: &str) -> (r: Option<DiffMode>)
        ensures
            r == named_mode(s@),
    {
        if txt::same(s, "working") {
            Some(DiffMode::Working)
        } else if txt::same(s, "base") {
            Some(DiffMode::BaseBranch)
        } else {
            None
        }
    }

    /// The other mode.
    pub fn toggled(self) -> (r: DiffMode)
        ensures
            r == other_mode(self),
    {
        match self {
            DiffMode::Working => DiffMode::BaseBranch,
            DiffMode::BaseBranch => DiffMode::Working,
        }
    }
}

/// The persisted settings.
#[derive(Debug)]
pub struct Config {
    pub sort_field: SortField,
    pub sort_desc: bool,
    pub theme: Option<String>,
    pub diff_mode: DiffMode,
    /// Left (file-list) pane width as a percentage of the terminal.
    pub split_pct: u16,
    /// Follow-latest: jump the view to files as they change on disk.
    pub follow: bool,
    /// Check for and install updates in the background on startup.
    pub auto_update: bool,
    /// Spaces a tab expands to in the diff.
    pub tab_width: u16,
    /// The tab width to persist, where `tab_width` holds for this run only.
    pub saved_tab_width: Option<u16>,
    /// Hide the file-list sidebar.
    pub sidebar_collapsed: bool,
}

/// What the settings say.
#[verifier::ext_equal]
pub struct Settings {
    pub sort_field: SortField,
    pub sort_desc: bool,
    pub theme: Option<Seq<char>>,
    pub diff_mode: DiffMode,
    pub split_pct: u16,
    pub follow: bool,
    pub auto_update: bool,
    pub tab_width: u16,
    pub saved_tab_width: Option<u16>,
    pub sidebar_collapsed: bool,
}

impl View for Config {
    type V = Settings;

    open spec fn view(&self) -> Settings {
        Settings {
            sort_field: self.sort_field,
            sort_desc: self.sort_desc,
            theme: txt::opt_text(self.theme),
            diff_mode: self.diff_mode,
            split_pct: self.split_pct,
            follow: self.follow,
            auto_update: self.auto_update,
            tab_width: self.tab_width,
            saved_tab_width: self.saved_tab_width,
            sidebar_collapsed: self.sidebar_collapsed,
        }
    }
}

/// The settings of a first run.
pub open spec fn default_settings() -> Settings {
    Settings {
        sort_field: SortField::Tree,
        sort_desc: false,
        theme: None,
        diff_mode: DiffMode::Working,
        split_pct: 30,
        follow: false,
        auto_update: true,
        tab_width: 4,
        saved_tab_width: None,
        sidebar_collapsed: false,
    }
}

impl Default for Config {
    fn default() -> (c: Config)
        ensures
            c@ == default_settings(),
    {
        Config {
            sort_field: SortField::Tree,
            sort_desc: false,
            theme: None,
            diff_mode: DiffMode::Working,
            split_pct: 30,
            follow: false,
            auto_update: true,
            tab_width: 4,
            saved_tab_width: None,
            sidebar_collapsed: false,
        }
    }
}

/// A pane split kept within the range that leaves both panes usable.
pub open spec fn split_within(pct: int) -> u16 {
    if pct < 15 {
        15
    } else if pct > 85 {
        85
    } else {
        pct as u16
    }
}

/// A pane split kept within the range that leaves both panes usable.
pub fn clamp_split(pct: u16) -> (r: u16)
    ensures
        r == split_within(pct as int),
{
    if pct < 15 {
        15
    } else if pct > 85 {
        85
    } else {
        pct
    }
}

// --- reading -------------------------------------------------------------------

/// The settings with `key` set to `value`; unknown keys and values that make no
/// sense for their key change nothing.
pub open spec fn with_setting(c: Settings, key: Seq<char>, value: Seq<char>) -> Settings {
    if key == "sort_field"@ {
        match sort::named_field(value) {
            Some(v) => Settings { sort_field: v, ..c },
            None => c,
        }
    } else if key == "sort_desc"@ {
        Settings { sort_desc: value == "true"@, ..c }
    } else if key == "theme"@ {
        Settings {
            theme: if value.len() == 0 {
                None
            } else {
                Some(value)
            },
            ..c
        }
    } else if key == "diff_mode"@ {
        match named_mode(value) {
            Some(v) => Settings { diff_mode: v, ..c },
            None => c,
        }
    } else if key == "split_pct"@ {
        match txt::parsed(value, u16::MAX as nat) {
            Some(v) => Settings { split_pct: split_within(v as int), ..c },
            None => c,
        }
    } else if key == "follow"@ {
        Settings { follow: value == "true"@, ..c }
    } else if key == "auto_update"@ {
        Settings { auto_update: value != "false"@, ..c }
    } else if key == "tab_width"@ {
        match txt::parsed(value, u16::MAX as nat) {
            Some(v) => Settings { tab_width: v as u16, ..c },
            None => c,
        }
    } else if key == "sidebar_collapsed"@ {
        Settings { sidebar_collapsed: value == "true"@, ..c }
    } else {
        c
    }
}

/// The settings after reading one line.
pub open spec fn with_line(c: Settings, line: Seq<char>) -> Settings {
    match txt::cut(line, '=') {
        Some((key, value)) => with_setting(c, txt::trimmed(key), txt::trimmed(value)),
        None => c,
    }
}

/// The settings after reading the first `n` lines.
pub open spec fn read_upto(lines: Seq<Seq<char>>, n: int) -> Settings
    decreases n,
{
    if n <= 0 {
        default_settings()
    } else {
        with_line(read_upto(lines, n - 1), lines[n - 1])
    }
}

/// The settings that a text holds; what it leaves out has its default.
pub open spec fn read_settings(text: Seq<char>) -> Settings {
    read_upto(txt::lines(text), txt::lines(text).len() as int)
}

impl Config {
    fn set(&mut self, key: &[char], value: &[char])
        ensures
            final(self)@ == with_setting(old(self)@, key@, value@),
    {
        if txt::is_word(key, "sort_field") {
            if let Some(v) = SortField::from_key(txt::string_of(value).as_str()) {
                self.sort_field = v;
            }
        } else if txt::is_word(key, "sort_desc") {
            self.sort_desc = txt::is_word(value, "true");
        } else if txt::is_word(key, "theme") {
            self.theme = if value.len() == 0 {
                None
            } else {
                Some(txt::string_of(value))
            };
        } else if txt::is_word(key, "diff_mode") {
            if let Some(v) = DiffMode::from_key(txt::string_of(value).as_str()) {
                self.diff_mode = v;
            }
        } else if txt::is_word(key, "split_pct") {
            if let Some(v) = txt::parse_unsigned(value, u16::MAX as u64) {
                self.split_pct = clamp_split(v as u16);
            }
        } else if txt::is_word(key, "follow") {
            self.follow = txt::is_word(value, "true");
        } else if txt::is_word(key, "auto_update") {
            self.auto_update = !txt::is_word(value, "false");
        } else if txt::is_word(key, "tab_width") {
            if let Some(v) = txt::parse_unsigned(value, u16::MAX as u64) {
                self.tab_width = v as u16;
            }
        } else if txt::is_word(key, "sidebar_collapsed") {
            self.sidebar_collapsed = txt::is_word(value, "true");
        }
    }

    /// Loads the config from its text, with defaults for what is missing or
    /// unreadable.
    pub fn load(text: &str) -> (c: Config)
        ensures
            c@ == read_settings(text@),
    {
        let mut cfg = Config::default();
        let chars = txt::chars_of(text);
        let lines = txt::lines_of(chars.as_slice());
        let ghost all = txt::parts_of(lines@);
        let mut i: usize = 0;
        while i < lines.len()
            invariant
                i <= lines@.len(),
                all == txt::parts_of(lines@),
                cfg@ == read_upto(all, i as int),
            decreases lines@.len() - i,
        {
            assert(all[i as int] == lines@[i as int]@);
            if let Some((key, value)) = txt::cut_chars(lines[i].as_slice(), '=') {
                cfg.set(txt::trim_chars(key), txt::trim_chars(value));
            }
            i = i + 1;
        }
        assert(all.len() == lines@.len());
        cfg
    }
}

// --- writing -------------------------------------------------------------------

/// `true` or `false`.
pub open spec fn bool_text(b: bool) -> Seq<char> {
    if b {
        "true"@
    } else {
        "false"@
    }
}

fn bool_str(b: bool) -> (r: &'static str)
    ensures
        r@ == bool_text(b),
{
    if b {
        "true"
    } else {
        "false"
    }
}

/// The tab width to persist.
pub open spec fn kept_tab_width(c: Settings) -> u16 {
    match c.saved_tab_width {
        Some(n) => n,
        None => c.tab_width,
    }
}

/// The keys and values of the settings, in the order they are written in.
pub open spec fn written_settings(c: Settings) -> Seq<(Seq<char>, Seq<char>)> {
    seq![
        ("sort_field"@, sort::field_name(c.sort_field)),
        ("sort_desc"@, bool_text(c.sort_desc)),
        (
            "theme"@,
            match c.theme {
                Some(t) => t,
                None => Seq::empty(),
            },
        ),
        ("diff_mode"@, mode_name(c.diff_mode)),
        ("split_pct"@, txt::decimal(c.split_pct as nat)),
        ("follow"@, bool_text(c.follow)),
        ("auto_update"@, bool_text(c.auto_update)),
        ("tab_width"@, txt::decimal(kept_tab_width(c) as nat)),
        ("sidebar_collapsed"@, bool_text(c.sidebar_collapsed)),
    ]
}

/// The line that a setting is written as.
pub open spec fn setting_line(s: (Seq<char>, Seq<char>)) -> Seq<char> {
    s.0.push('=') + s.1
}

/// The first `n` settings, each on a line of its own.
pub open spec fn written_upto(list: Seq<(Seq<char>, Seq<char>)>, n: int) -> Seq<char>
    decreases n,
{
    if n <= 0 {
        Seq::empty()
    } else {
        written_upto(list, n - 1) + setting_line(list[n - 1]).push('\n')
    }
}

/// The text that the settings are persisted as.
pub open spec fn config_text(c: Settings) -> Seq<char> {
    written_upto(written_settings(c), 9)
}

fn write_setting(out: &mut String, key: &str, value: &str)
    ensures
        final(out)@ == old(out)@ + setting_line((key@, value@)).push('\n'),
{
    let ghost was = out@;
    out.append(key);
    out.push('=');
    out.append(value);
    out.push('\n');
    assert(out@ =~= was + setting_line((key@, value@)).push('\n'));
}

/// The settings with what the command line says: a theme replaces the saved one; a number
/// of spaces per tab, up to 16, holds for this run, and what is persisted stays as it was.
pub open spec fn with_flags(c: Settings, theme: Option<Seq<char>>, tabs: Option<u16>) -> Settings {
    let c = if theme is Some {
        Settings { theme, ..c }
    } else {
        c
    };
    match tabs {
        Some(n) => Settings {
            tab_width: if n < 16 {
                n
            } else {
                16
            },
            saved_tab_width: Some(kept_tab_width(c)),
            ..c
        },
        None => c,
    }
}

impl Config {
    /// The tab width to persist.
    pub fn kept_tabs(&self) -> (r: u16)
        ensures
            r == kept_tab_width(self@),
    {
        match self.saved_tab_width {
            Some(n) => n,
            None => self.tab_width,
        }
    }

    /// Take over what the command line says: a theme replaces the saved one; a number of
    /// spaces per tab, up to 16, holds for this run and is not persisted.
    pub fn take_flags(&mut self, theme: Option<String>, tabs: Option<u16>)
        ensures
            final(self)@ == with_flags(old(self)@, txt::opt_text(theme), tabs),
    {
        if theme.is_some() {
            self.theme = theme;
        }
        if let Some(n) = tabs {
            self.saved_tab_width = Some(self.kept_tabs());
            self.tab_width = if n < 16 {
                n
            } else {
                16
            };
        }
    }

    /// The text to persist the config as.
    pub fn save(&self) -> (r: String)
        ensures
            r@ == config_text(self@),
    {
        let ghost list = written_settings(self@);
        let mut out = String::new();
        assert(out@ =~= written_upto(list, 0));
        write_setting(&mut out, "sort_field", self.sort_field.as_key());
        assert(out@ == written_upto(list, 1));
        write_setting(&mut out, "sort_desc", bool_str(self.sort_desc));
        assert(out@ == written_upto(list, 2));
        match &self.theme {
            Some(theme) => write_setting(&mut out, "theme", theme.as_str()),
            None => {
                let nothing = String::new();
                write_setting(&mut out, "theme", nothing.as_str());
                assert(nothing@ =~= Seq::<char>::empty());
            },
        }
        assert(out@ == written_upto(list, 3));
        write_setting(&mut out, "diff_mode", self.diff_mode.as_key());
        assert(out@ == written_upto(list, 4));
        write_setting(&mut out, "split_pct", txt::decimal_string(self.split_pct as u64).as_str());
        assert(out@ == written_upto(list, 5));
        write_setting(&mut out, "follow", bool_str(self.follow));
        assert(out@ == written_upto(list, 6));
        write_setting(&mut out, "auto_update", bool_str(self.auto_update));
        assert(out@ == written_upto(list, 7));
        write_setting(&mut out, "tab_width", txt::decimal_string(self.kept_tabs() as u64).as_str());
        assert(out@ == written_upto(list, 8));
        write_setting(&mut out, "sidebar_collapsed", bool_str(self.sidebar_collapsed));
        out
    }
}

} // verus!
