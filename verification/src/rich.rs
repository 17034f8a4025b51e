//! Styled text: colors, styles, spans, lines, and what the panes do to them
//! (wrapping at the pane's width, highlighting a range of columns).
//!
//! Widths are counted as one column per character.

use vstd::prelude::*;
use vstd::slice::slice_subrange;
use crate::txt;

verus! {

/// The terminal library's color, carried through from parsed text.
#[verifier::external_type_specification]
#[verifier::external_body]
pub struct ExTerminalColor(ratatui::style::Color);

/// A text color.
#[derive(Debug, Clone, Copy, PartialEq, Eq)]
pub enum Ink {
    Black,
    Red,
    Green,
    Yellow,
    Blue,
    Magenta,
    Cyan,
    Gray,
    DarkGray,
    /// A color that came with rendered text.
    Parsed(ratatui::style::Color),
}

/// The modifier bit for bold text.
pub const BOLD: u16 = 1;

/// The modifier bit for underlined text.
pub const UNDERLINED: u16 = 8;

/// The modifier bit for swapped foreground and background.
pub const REVERSED: u16 = 64;

/// A text style: what it sets, and which modifier bits it adds and removes.
#[derive(Debug, Clone, Copy, PartialEq, Eq)]
pub struct Style {
    pub fg: Option<Ink>,
    pub bg: Option<Ink>,
    pub underline_color: Option<Ink>,
    pub add_modifier: u16,
    pub sub_modifier: u16,
}

/// The style that sets nothing.
pub open spec fn unstyled() -> Style {
    Style { fg: None, bg: None, underline_color: None, add_modifier: 0, sub_modifier: 0 }
}

/// `style` with foreground `color`.
pub open spec fn with_fg(style: Style, color: Ink) -> Style {
    Style { fg: Some(color), ..style }
}

/// `style` with background `color`.
pub open spec fn with_bg(style: Style, color: Ink) -> Style {
    Style { bg: Some(color), ..style }
}

/// `style` with the bits of `modifier` added (and no longer removed).
pub open spec fn with_modifier(style: Style, modifier: u16) -> Style {
    Style {
        add_modifier: style.add_modifier | modifier,
        sub_modifier: style.sub_modifier & !modifier,
        ..style
    }
}

/// The style that only sets the foreground.
pub open spec fn colored(color: Ink) -> Style {
    with_fg(unstyled(), color)
}

impl Default for Style {
    fn default() -> (r: Style)
        ensures
            r == unstyled(),
    {
        Style { fg: None, bg: None, underline_color: None, add_modifier: 0, sub_modifier: 0 }
    }
}

impl Style {
    pub fn fg(self, color: Ink) -> (r: Style)
        ensures
            r == with_fg(self, color),
    {
        Style {
            fg: Some(color),
            bg: self.bg,
            underline_color: self.underline_color,
            add_modifier: self.add_modifier,
            sub_modifier: self.sub_modifier,
        }
    }

    pub fn bg(self, color: Ink) -> (r: Style)
        ensures
            r == with_bg(self, color),
    {
        Style {
            fg: self.fg,
            bg: Some(color),
            underline_color: self.underline_color,
            add_modifier: self.add_modifier,
            sub_modifier: self.sub_modifier,
        }
    }

    pub fn add_modifier(self, modifier: u16) -> (r: Style)
        ensures
            r == with_modifier(self, modifier),
    {
        Style {
            fg: self.fg,
            bg: self.bg,
            underline_color: self.underline_color,
            add_modifier: self.add_modifier | modifier,
            sub_modifier: self.sub_modifier & !modifier,
        }
    }
}

/// The style that only sets the foreground.
pub fn color_style(color: Ink) -> (r: Style)
    ensures
        r == colored(color),
{
    Style::default().fg(color)
}

// --- spans, lines, texts -------------------------------------------------------

/// A run of text in one style.
#[derive(Debug)]
pub struct Span {
    pub content: String,
    pub style: Style,
}

/// What a span shows.
#[verifier::ext_equal]
pub struct Run {
    pub text: Seq<char>,
    pub style: Style,
}

impl View for Span {
    type V = Run;

    open spec fn view(&self) -> Run {
        Run { text: self.content@, style: self.style }
    }
}

impl Clone for Span {
    fn clone(&self) -> (r: Span)
        ensures
            r@ == self@,
    {
        Span { content: self.content.clone(), style: self.style }
    }
}

/// One row of styled text.
#[derive(Debug)]
pub struct Line {
    pub spans: Vec<Span>,
    pub style: Style,
}

/// What a line shows.
#[verifier::ext_equal]
pub struct Row {
    pub runs: Seq<Run>,
    pub style: Style,
}

/// What a list of spans shows.
pub open spec fn runs(list: Seq<Span>) -> Seq<Run> {
    list.map_values(|s: Span| s@)
}

impl View for Line {
    type V = Row;

    open spec fn view(&self) -> Row {
        Row { runs: runs(self.spans@), style: self.style }
    }
}

/// What a list of lines shows.
pub open spec fn rows(list: Seq<Line>) -> Seq<Row> {
    list.map_values(|l: Line| l@)
}

/// A text of several lines.
#[derive(Debug)]
pub struct Text {
    pub lines: Vec<Line>,
}

impl View for Text {
    type V = Seq<Row>;

    open spec fn view(&self) -> Seq<Row> {
        rows(self.lines@)
    }
}

/// The row made of `list`, with no style of its own.
pub open spec fn row_of(list: Seq<Run>) -> Row {
    Row { runs: list, style: unstyled() }
}

/// The run of unstyled `text`.
pub open spec fn raw(text: Seq<char>) -> Run {
    Run { text, style: unstyled() }
}

/// The run of `text` in `style`.
pub open spec fn styled(text: Seq<char>, style: Style) -> Run {
    Run { text, style }
}

impl Span {
    pub fn styled(content: String, style: Style) -> (r: Span)
        ensures
            r@ == styled(content@, style),
    {
        Span { content, style }
    }

    pub fn raw(content: String) -> (r: Span)
        ensures
            r@ == raw(content@),
    {
        Span { content, style: Style::default() }
    }
}

/// Appends a span.
pub fn push_span(list: &mut Vec<Span>, span: Span)
    ensures
        runs(final(list)@) == runs(old(list)@).push(span@),
{
    let ghost was = runs(list@);
    let ghost run = span@;
    list.push(span);
    assert(runs(list@) =~= was.push(run));
}

/// Appends a line.
pub fn push_line(list: &mut Vec<Line>, line: Line)
    ensures
        rows(final(list)@) == rows(old(list)@).push(line@),
        final(list)@.len() == old(list)@.len() + 1,
{
    let ghost was = rows(list@);
    let ghost row = line@;
    list.push(line);
    assert(rows(list@) =~= was.push(row));
}

/// A copy of a list of spans.
pub fn copy_spans(list: &Vec<Span>) -> (r: Vec<Span>)
    ensures
        runs(r@) == runs(list@),
{
    let mut out: Vec<Span> = Vec::new();
    let mut i: usize = 0;
    assert(runs(out@) =~= runs(list@).take(0));
    while i < list.len()
        invariant
            i <= list@.len(),
            runs(out@) == runs(list@).take(i as int),
        decreases list@.len() - i,
    {
        push_span(&mut out, list[i].clone());
        assert(runs(list@).take(i as int + 1) =~= runs(list@).take(i as int).push(list@[i as int]@));
        i = i + 1;
    }
    assert(runs(list@).take(i as int) =~= runs(list@));
    out
}

impl Clone for Line {
    fn clone(&self) -> (r: Line)
        ensures
            r@ == self@,
    {
        Line { spans: copy_spans(&self.spans), style: self.style }
    }
}

/// A copy of a list of lines.
pub fn copy_lines(list: &Vec<Line>) -> (r: Vec<Line>)
    ensures
        rows(r@) == rows(list@),
        r@.len() == list@.len(),
{
    let mut out: Vec<Line> = Vec::new();
    let mut i: usize = 0;
    assert(rows(out@) =~= rows(list@).take(0));
    while i < list.len()
        invariant
            i <= list@.len(),
            out@.len() == i,
            rows(out@) == rows(list@).take(i as int),
        decreases list@.len() - i,
    {
        push_line(&mut out, list[i].clone());
        assert(rows(list@).take(i as int + 1) =~= rows(list@).take(i as int).push(list@[i as int]@));
        i = i + 1;
    }
    assert(rows(list@).take(i as int) =~= rows(list@));
    out
}

impl Clone for Text {
    fn clone(&self) -> (r: Text)
        ensures
            r@ == self@,
    {
        Text { lines: copy_lines(&self.lines) }
    }
}

/// The line made of `spans`.
pub fn line_of(spans: Vec<Span>) -> (r: Line)
    ensures
        r@ == row_of(runs(spans@)),
{
    Line { spans, style: Style::default() }
}

/// The runs of unstyled text, one for each of `lines`.
pub open spec fn raw_runs(lines: Seq<Seq<char>>) -> Seq<Run> {
    lines.map_values(|l: Seq<char>| raw(l))
}

/// The row showing unstyled `text`, one run for each of its lines.
pub open spec fn raw_row(text: Seq<char>) -> Row {
    row_of(raw_runs(txt::lines(text)))
}

/// The line showing unstyled `text`, one span for each of its lines.
pub fn raw_line(text: &str) -> (r: Line)
    ensures
        r@ == raw_row(text@),
{
    let chars = txt::chars_of(text);
    let lines = txt::lines_of(chars.as_slice());
    let ghost all = txt::parts_of(lines@);
    let mut spans: Vec<Span> = Vec::new();
    let mut i: usize = 0;
    assert(runs(spans@) =~= raw_runs(all.take(0)));
    while i < lines.len()
        invariant
            i <= lines@.len(),
            all == txt::parts_of(lines@),
            runs(spans@) == raw_runs(all.take(i as int)),
        decreases lines@.len() - i,
    {
        assert(all[i as int] == lines@[i as int]@);
        push_span(&mut spans, Span::raw(txt::string_of(lines[i].as_slice())));
        assert(raw_runs(all.take(i as int + 1)) =~= raw_runs(all.take(i as int)).push(
            raw(all[i as int]),
        ));
        i = i + 1;
    }
    assert(all.take(i as int) =~= all);
    line_of(spans)
}

/// The rows showing unstyled `text`, one for each of its lines.
pub open spec fn raw_rows(text: Seq<char>) -> Seq<Row> {
    txt::lines(text).map_values(|l: Seq<char>| raw_row(l))
}

/// The lines showing unstyled `text`, one for each of its lines.
pub fn raw_lines(text: &str) -> (r: Vec<Line>)
    ensures
        rows(r@) == raw_rows(text@),
{
    let chars = txt::chars_of(text);
    let lines = txt::lines_of(chars.as_slice());
    let ghost all = txt::parts_of(lines@);
    let mut out: Vec<Line> = Vec::new();
    let mut i: usize = 0;
    assert(rows(out@) =~= raw_rows(text@).take(0));
    while i < lines.len()
        invariant
            i <= lines@.len(),
            all == txt::parts_of(lines@),
            all == txt::lines(text@),
            rows(out@) == raw_rows(text@).take(i as int),
        decreases lines@.len() - i,
    {
        assert(all[i as int] == lines@[i as int]@);
        push_line(&mut out, raw_line(txt::string_of(lines[i].as_slice()).as_str()));
        assert(raw_rows(text@).take(i as int + 1) =~= raw_rows(text@).take(i as int).push(
            raw_row(all[i as int]),
        ));
        i = i + 1;
    }
    assert(raw_rows(text@).take(i as int) =~= raw_rows(text@));
    out
}

// --- widths --------------------------------------------------------------------

/// How many columns the first `n` runs take.
pub open spec fn width_upto(list: Seq<Run>, n: int) -> nat
    decreases n,
{
    if n <= 0 {
        0
    } else {
        width_upto(list, n - 1) + list[n - 1].text.len()
    }
}

/// How many columns a list of runs takes.
pub open spec fn width(list: Seq<Run>) -> nat {
    width_upto(list, list.len() as int)
}

/// The characters of the first `n` runs.
pub open spec fn chars_upto(list: Seq<Run>, n: int) -> Seq<char>
    decreases n,
{
    if n <= 0 {
        Seq::empty()
    } else {
        chars_upto(list, n - 1) + list[n - 1].text
    }
}

/// The characters of a row.
pub open spec fn row_text(row: Row) -> Seq<char> {
    chars_upto(row.runs, row.runs.len() as int)
}

/// The characters of each row.
pub open spec fn row_texts(list: Seq<Row>) -> Seq<Seq<char>> {
    list.map_values(|r: Row| row_text(r))
}

/// A row is as wide as its text is long.
pub proof fn lemma_width_is_length(list: Seq<Run>, n: int)
    requires
        0 <= n <= list.len(),
    ensures
        chars_upto(list, n).len() == width_upto(list, n),
    decreases n,
{
    if n > 0 {
        lemma_width_is_length(list, n - 1);
    }
}

proof fn lemma_width_monotone(list: Seq<Run>, m: int, n: int)
    requires
        0 <= m <= n <= list.len(),
    ensures
        width_upto(list, m) <= width_upto(list, n),
    decreases n - m,
{
    if m < n {
        lemma_width_monotone(list, m, n - 1);
    }
}

/// The characters of a line, in order.
pub fn line_chars(line: &Line) -> (out: Vec<char>)
    ensures
        out@ == row_text(line@),
{
    let ghost list = line@.runs;
    let mut out: Vec<char> = Vec::new();
    let mut i: usize = 0;
    while i < line.spans.len()
        invariant
            i <= line.spans@.len(),
            list == runs(line.spans@),
            out@ == chars_upto(list, i as int),
        decreases line.spans@.len() - i,
    {
        let more = txt::chars_of(line.spans[i].content.as_str());
        txt::extend(&mut out, more.as_slice());
        assert(list[i as int] == line.spans@[i as int]@);
        i = i + 1;
    }
    out
}

/// How many columns a line takes.
pub fn line_len(line: &Line) -> (n: usize)
    ensures
        n == width(line@.runs),
{
    proof {
        lemma_width_is_length(line@.runs, line@.runs.len() as int);
    }
    line_chars(line).len()
}

/// How many columns a list of spans takes.
pub fn spans_len(spans: &Vec<Span>) -> (n: usize)
    ensures
        n == width(runs(spans@)),
{
    let ghost list = runs(spans@);
    let mut out: Vec<char> = Vec::new();
    let mut i: usize = 0;
    while i < spans.len()
        invariant
            i <= spans@.len(),
            list == runs(spans@),
            out@ == chars_upto(list, i as int),
        decreases spans@.len() - i,
    {
        let more = txt::chars_of(spans[i].content.as_str());
        txt::extend(&mut out, more.as_slice());
        assert(list[i as int] == spans@[i as int]@);
        i = i + 1;
    }
    proof {
        lemma_width_is_length(list, list.len() as int);
    }
    out.len()
}

/// Appends spans.
pub fn append_spans(list: &mut Vec<Span>, more: Vec<Span>)
    ensures
        runs(final(list)@) == runs(old(list)@) + runs(more@),
{
    let ghost a = list@;
    let ghost b = more@;
    let mut rest = more;
    list.append(&mut rest);
    assert(runs(list@) =~= runs(a) + runs(b));
}

// --- columns of a row ----------------------------------------------------------

/// `x` moved into `0..=n`.
pub open spec fn within(x: int, n: nat) -> int {
    if x < 0 {
        0
    } else if x > n {
        n as int
    } else {
        x
    }
}

/// The part of `run` in the columns `a..b`, counted from the run's start: one
/// run, or none if no column of it lies there.
pub open spec fn piece(run: Run, a: int, b: int) -> Seq<Run> {
    let from = within(a, run.text.len());
    let to = within(b, run.text.len());
    if from < to {
        seq![Run { text: run.text.subrange(from, to), style: run.style }]
    } else {
        Seq::empty()
    }
}

/// The parts of the first `n` runs that lie in the columns `a..b`.
pub open spec fn clip_upto(list: Seq<Run>, n: int, a: int, b: int) -> Seq<Run>
    decreases n,
{
    if n <= 0 {
        Seq::empty()
    } else {
        let start = width_upto(list, n - 1);
        clip_upto(list, n - 1, a, b) + piece(list[n - 1], a - start, b - start)
    }
}

/// The columns `a..b` of a list of runs.
pub open spec fn clip(list: Seq<Run>, a: int, b: int) -> Seq<Run> {
    clip_upto(list, list.len() as int, a, b)
}

/// Appends the part of a span in the columns `a..b`, where the span itself
/// starts at column `start`.
fn push_piece(out: &mut Vec<Span>, span: &Span, style: Style, start: usize, a: usize, b: usize)
    requires
        start + span@.text.len() <= usize::MAX,
    ensures
        runs(final(out)@) == runs(old(out)@) + piece(
            Run { text: span@.text, style },
            a - start,
            b - start,
        ),
{
    let ghost was = runs(out@);
    let chars = txt::chars_of(span.content.as_str());
    let n = chars.len();
    let from: usize = if a < start {
        0
    } else if a - start > n {
        n
    } else {
        a - start
    };
    let to: usize = if b < start {
        0
    } else if b - start > n {
        n
    } else {
        b - start
    };
    if from < to {
        let part = txt::string_of(slice_subrange(chars.as_slice(), from, to));
        let ghost run = styled(part@, style);
        push_span(out, Span::styled(part, style));
        assert(runs(out@) =~= was + seq![run]);
    } else {
        assert(was + Seq::<Run>::empty() =~= was);
    }
}

/// The columns `a..b` of a line's spans.
fn clip_spans(line: &Line, a: usize, b: usize) -> (out: Vec<Span>)
    ensures
        runs(out@) == clip(line@.runs, a as int, b as int),
{
    let ghost list = line@.runs;
    let mut out: Vec<Span> = Vec::new();
    let total = line_len(line);
    let mut start: usize = 0;
    let mut i: usize = 0;
    assert(runs(out@) =~= Seq::<Run>::empty());
    while i < line.spans.len()
        invariant
            i <= line.spans@.len(),
            list == runs(line.spans@),
            total == width(list),
            start == width_upto(list, i as int),
            runs(out@) == clip_upto(list, i as int, a as int, b as int),
        decreases line.spans@.len() - i,
    {
        assert(list[i as int] == line.spans@[i as int]@);
        proof {
            lemma_width_monotone(list, i as int + 1, list.len() as int);
        }
        let span = &line.spans[i];
        push_piece(&mut out, span, span.style, start, a, b);
        start = start + txt::chars_of(span.content.as_str()).len();
        i = i + 1;
    }
    out
}

// --- wrapping ------------------------------------------------------------------

/// How many rows of `w` columns `total` columns fill.
pub open spec fn row_count(total: nat, w: nat) -> nat
    recommends
        w > 0,
{
    (total + w - 1) as nat / w
}

/// The rows a row is wrapped into at `w` columns. A row that fits (or any row, at
/// width 0) stays as it is.
pub open spec fn wrapped(row: Row, w: nat) -> Seq<Row> {
    let total = width(row.runs);
    if w == 0 || total <= w {
        seq![row]
    } else {
        Seq::new(
            row_count(total, w),
            |r: int| row_of(clip(row.runs, r * w, r * w + w)),
        )
    }
}

/// Hard-wraps a styled line to `width` columns, appending one line per visual
/// row to `out`.
pub fn wrap_line_into(line: &Line, width: usize, out: &mut Vec<Line>)
    ensures
        rows(final(out)@) == rows(old(out)@) + wrapped(line@, width as nat),
{
    let total = line_len(line);
    let ghost was = rows(out@);
    if width == 0 || total <= width {
        push_line(out, line.clone());
        assert(rows(out@) =~= was + seq![line@]);
        return;
    }
    let ghost all = wrapped(line@, width as nat);
    let ghost w = width as int;
    let mut r: usize = 0;
    let mut at: usize = 0;
    assert(was + all.take(0) =~= was);
    proof {
        lemma_row_count(total as int, w, 0);
    }
    while at < total
        invariant
            0 < width < total,
            w == width,
            total == self::width(line@.runs),
            all == wrapped(line@, width as nat),
            at == if r * w < total { r * w } else { total as int },
            0 <= r <= all.len(),
            all.len() == row_count(total as nat, width as nat),
            at < total ==> r < all.len(),
            at == total ==> r == all.len(),
            rows(out@) == was + all.take(r as int),
        decreases total - at,
    {
        let end: usize = if total - at > width {
            at + width
        } else {
            total
        };
        proof {
            assert((r + 1) * w == r * w + w) by (nonlinear_arith);
            lemma_row_count(total as int, w, r as int + 1);
            lemma_clip_end(line@.runs, line@.runs.len() as int, at as int, end as int, at + w);
        }
        push_line(out, line_of(clip_spans(line, at, end)));
        assert(all[r as int] == row_of(clip(line@.runs, at as int, at + w)));
        assert(all.take(r as int + 1) =~= all.take(r as int).push(all[r as int]));
        assert(rows(out@) =~= was + all.take(r as int + 1));
        r = r + 1;
        at = end;
    }
    assert(all.take(r as int) =~= all);
}

/// The rows that the first `n` rows are wrapped into.
pub open spec fn wrapped_upto(list: Seq<Row>, w: nat, n: int) -> Seq<Row>
    decreases n,
{
    if n <= 0 {
        Seq::empty()
    } else {
        wrapped_upto(list, w, n - 1) + wrapped(list[n - 1], w)
    }
}

/// The rows that a list of rows is wrapped into.
pub open spec fn wrapped_all(list: Seq<Row>, w: nat) -> Seq<Row> {
    wrapped_upto(list, w, list.len() as int)
}

/// Hard-wraps a text to `width` columns.
pub fn wrap_text(text: &Text, width: usize) -> (r: Text)
    ensures
        r@ == wrapped_all(text@, width as nat),
{
    let ghost list = text@;
    let mut out: Vec<Line> = Vec::new();
    let mut i: usize = 0;
    assert(rows(out@) =~= Seq::<Row>::empty());
    while i < text.lines.len()
        invariant
            i <= text.lines@.len(),
            list == rows(text.lines@),
            rows(out@) == wrapped_upto(list, width as nat, i as int),
        decreases text.lines@.len() - i,
    {
        assert(list[i as int] == text.lines@[i as int]@);
        wrap_line_into(&text.lines[i], width, &mut out);
        i = i + 1;
    }
    Text { lines: out }
}

pub proof fn lemma_row_count(total: int, w: int, r: int)
    requires
        0 < w < total,
        0 <= r,
    ensures
        r * w < total <==> r < row_count(total as nat, w as nat),
        row_count(total as nat, w as nat) <= total,
{
    let c = row_count(total as nat, w as nat) as int;
    let t = total + w - 1;
    assert(c == t / w);
    assert(c * w <= t && t < c * w + w && c <= total) by (nonlinear_arith)
        requires
            c == t / w,
            w > 0,
            total > 0,
            t == total + w - 1,
    ;
    if r < c {
        assert(r * w <= (c - 1) * w) by (nonlinear_arith)
            requires
                r <= c - 1,
                w > 0,
        ;
        assert((c - 1) * w == c * w - w) by (nonlinear_arith);
    } else {
        assert(r * w >= c * w) by (nonlinear_arith)
            requires
                r >= c,
                w > 0,
        ;
    }
}

/// Columns past the end of the runs add nothing.
proof fn lemma_clip_end(list: Seq<Run>, n: int, a: int, b: int, c: int)
    requires
        0 <= n <= list.len(),
        b <= c,
        b == c || width(list) <= b,
    ensures
        clip_upto(list, n, a, b) == clip_upto(list, n, a, c),
    decreases n,
{
    if n > 0 {
        lemma_clip_end(list, n - 1, a, b, c);
        lemma_width_monotone(list, n, list.len() as int);
    }
}

// --- highlighting --------------------------------------------------------------

/// How a range of columns is made to stand out.
#[derive(Debug, Clone, Copy, PartialEq, Eq, Structural)]
pub enum Highlight {
    /// The current content-search hit.
    Current,
    /// Another content-search hit.
    Hit,
    /// Selected text.
    Selected,
}

/// `style` made to stand out.
pub open spec fn highlighted(style: Style, how: Highlight) -> Style {
    match how {
        Highlight::Current => with_modifier(style, REVERSED | BOLD),
        Highlight::Hit => with_fg(with_bg(style, Ink::Yellow), Ink::Black),
        Highlight::Selected => with_modifier(style, REVERSED),
    }
}

/// `style` made to stand out.
pub fn highlight(style: Style, how: Highlight) -> (r: Style)
    ensures
        r == highlighted(style, how),
{
    match how {
        Highlight::Current => style.add_modifier(REVERSED | BOLD),
        Highlight::Hit => style.bg(Ink::Yellow).fg(Ink::Black),
        Highlight::Selected => style.add_modifier(REVERSED),
    }
}

/// `run` with its columns `a..b` made to stand out. A run outside these columns
/// stays as it is.
pub open spec fn restyled_run(run: Run, a: int, b: int, how: Highlight) -> Seq<Run> {
    let n = run.text.len() as int;
    if within(a, n as nat) >= within(b, n as nat) {
        seq![run]
    } else {
        piece(run, 0, a) + piece(Run { style: highlighted(run.style, how), ..run }, a, b) + piece(
            run,
            b,
            n,
        )
    }
}

/// The first `n` runs with the columns `cs..ce` made to stand out.
pub open spec fn restyled_upto(
    list: Seq<Run>,
    n: int,
    cs: int,
    ce: int,
    how: Highlight,
) -> Seq<Run>
    decreases n,
{
    if n <= 0 {
        Seq::empty()
    } else {
        let start = width_upto(list, n - 1);
        restyled_upto(list, n - 1, cs, ce, how) + restyled_run(
            list[n - 1],
            cs - start,
            ce - start,
            how,
        )
    }
}

/// `row` with the columns `cs..ce` made to stand out.
pub open spec fn restyled(row: Row, cs: int, ce: int, how: Highlight) -> Row {
    row_of(restyled_upto(row.runs, row.runs.len() as int, cs, ce, how))
}

/// A copy of `line` with the columns `cs..ce` made to stand out.
pub fn restyle_range(line: &Line, cs: usize, ce: usize, how: Highlight) -> (r: Line)
    ensures
        r@ == restyled(line@, cs as int, ce as int, how),
{
    let ghost list = line@.runs;
    let mut out: Vec<Span> = Vec::new();
    let total = line_len(line);
    let mut start: usize = 0;
    let mut i: usize = 0;
    assert(runs(out@) =~= Seq::<Run>::empty());
    while i < line.spans.len()
        invariant
            i <= line.spans@.len(),
            list == runs(line.spans@),
            total == width(list),
            start == width_upto(list, i as int),
            runs(out@) == restyled_upto(list, i as int, cs as int, ce as int, how),
        decreases line.spans@.len() - i,
    {
        let ghost was = runs(out@);
        let span = &line.spans[i];
        assert(list[i as int] == span@);
        proof {
            lemma_width_monotone(list, i as int + 1, list.len() as int);
        }
        let end: usize = start + txt::chars_of(span.content.as_str()).len();
        let from = if cs > start {
            cs
        } else {
            start
        };
        let to = if ce < end {
            ce
        } else {
            end
        };
        if to <= from {
            push_span(&mut out, span.clone());
            assert(runs(out@) =~= was + seq![span@]);
        } else {
            push_piece(&mut out, span, span.style, start, start, cs);
            push_piece(&mut out, span, highlight(span.style, how), start, cs, ce);
            push_piece(&mut out, span, span.style, start, ce, end);
            assert(runs(out@) =~= was + restyled_run(span@, cs - start, ce - start, how));
        }
        start = end;
        i = i + 1;
    }
    line_of(out)
}

} // verus!
