//! What wrapping and highlighting keep.

use vstd::prelude::*;
use crate::rich;
use crate::rich::{Highlight, Ink, Row, Run, Style};
use crate::txt;

verus! {

/// The characters of a list of runs.
pub open spec fn text_of(list: Seq<Run>) -> Seq<char> {
    rich::chars_upto(list, list.len() as int)
}

proof fn lemma_chars_prefix(a: Seq<Run>, b: Seq<Run>, n: int)
    requires
        0 <= n <= a.len() <= b.len(),
        forall|i: int| 0 <= i < a.len() ==> a[i] == b[i],
    ensures
        rich::chars_upto(a, n) == rich::chars_upto(b, n),
    decreases n,
{
    if n > 0 {
        lemma_chars_prefix(a, b, n - 1);
    }
}

pub proof fn lemma_text_push(list: Seq<Run>, run: Run)
    ensures
        text_of(list.push(run)) == text_of(list) + run.text,
{
    lemma_chars_prefix(list, list.push(run), list.len() as int);
}

pub proof fn lemma_text_add(a: Seq<Run>, b: Seq<Run>)
    ensures
        text_of(a + b) == text_of(a) + text_of(b),
    decreases b.len(),
{
    if b.len() == 0 {
        assert(a + b =~= a);
        assert(text_of(a) + text_of(b) =~= text_of(a));
    } else {
        let init = b.drop_last();
        lemma_text_add(a, init);
        lemma_text_push(a + init, b.last());
        lemma_text_push(init, b.last());
        assert((a + init).push(b.last()) =~= a + b);
        assert(init.push(b.last()) =~= b);
        assert(text_of(a) + text_of(init) + b.last().text =~= text_of(a) + (text_of(init)
            + b.last().text));
    }
}

pub proof fn lemma_text_one(run: Run)
    ensures
        text_of(seq![run]) == run.text,
{
    lemma_text_push(Seq::empty(), run);
    assert(Seq::<Run>::empty().push(run) =~= seq![run]);
    assert(text_of(Seq::<Run>::empty()) + run.text =~= run.text);
}

proof fn lemma_piece_text(run: Run, a: int, b: int)
    ensures
        text_of(rich::piece(run, a, b)) == if rich::within(a, run.text.len()) < rich::within(
            b,
            run.text.len(),
        ) {
            run.text.subrange(
                rich::within(a, run.text.len()),
                rich::within(b, run.text.len()),
            )
        } else {
            Seq::empty()
        },
{
    let from = rich::within(a, run.text.len());
    let to = rich::within(b, run.text.len());
    if from < to {
        lemma_text_one(Run { text: run.text.subrange(from, to), style: run.style });
    }
}

proof fn lemma_clip_text(list: Seq<Run>, n: int, a: int, b: int)
    requires
        0 <= n <= list.len(),
        0 <= a <= b,
    ensures
        text_of(rich::clip_upto(list, n, a, b)) == rich::chars_upto(list, n).subrange(
            rich::within(a, rich::width_upto(list, n)),
            rich::within(b, rich::width_upto(list, n)),
        ),
    decreases n,
{
    rich::lemma_width_is_length(list, n);
    if n > 0 {
        rich::lemma_width_is_length(list, n - 1);
        lemma_clip_text(list, n - 1, a, b);
        let start = rich::width_upto(list, n - 1);
        let run = list[n - 1];
        lemma_piece_text(run, a - start, b - start);
        lemma_text_add(
            rich::clip_upto(list, n - 1, a, b),
            rich::piece(run, a - start, b - start),
        );
        let whole = rich::chars_upto(list, n).subrange(
            rich::within(a, rich::width_upto(list, n)),
            rich::within(b, rich::width_upto(list, n)),
        );
        let left = rich::chars_upto(list, n - 1).subrange(
            rich::within(a, start),
            rich::within(b, start),
        );
        let right = text_of(rich::piece(run, a - start, b - start));
        assert(left + right =~= whole);
    } else {
        assert(text_of(rich::clip_upto(list, n, a, b)) =~= Seq::<char>::empty());
    }
}

/// The columns `a..b` of a row show the characters `a..b` of its text.
pub proof fn law_clipping_shows_those_columns(list: Seq<Run>, a: int, b: int)
    requires
        0 <= a <= b <= rich::width(list),
    ensures
        text_of(rich::clip(list, a, b)) == text_of(list).subrange(a, b),
{
    lemma_clip_text(list, list.len() as int, a, b);
}

/// The texts of the first `n` rows, one after the other.
pub open spec fn joined_upto(list: Seq<Row>, n: int) -> Seq<char>
    decreases n,
{
    if n <= 0 {
        Seq::empty()
    } else {
        joined_upto(list, n - 1) + rich::row_text(list[n - 1])
    }
}

/// What row `r` of a row wrapped at `w` columns shows.
pub proof fn lemma_wrapped_row(row: Row, w: nat, r: int)
    requires
        0 < w < rich::width(row.runs),
        0 <= r < rich::wrapped(row, w).len(),
    ensures
        0 <= r * w < rich::width(row.runs),
        rich::row_text(rich::wrapped(row, w)[r]) == rich::row_text(row).subrange(
            r * w,
            rich::within(r * w + w, rich::width(row.runs)),
        ),
        (r == rich::wrapped(row, w).len() - 1) == (r * w + w >= rich::width(row.runs)),
{
    let total = rich::width(row.runs);
    rich::lemma_row_count(total as int, w as int, r);
    rich::lemma_row_count(total as int, w as int, r + 1);
    assert((r + 1) * w == r * w + w) by (nonlinear_arith);
    assert(0 <= r * w) by (nonlinear_arith)
        requires
            0 <= r,
            0 < w,
    ;
    lemma_clip_text(row.runs, row.runs.len() as int, r * w, r * w + w);
    rich::lemma_width_is_length(row.runs, row.runs.len() as int);
}

/// Every row of a wrapped row fits the width, and all but the last fill it.
pub proof fn law_wrapped_rows_fit(row: Row, w: nat, r: int)
    requires
        w > 0,
        0 <= r < rich::wrapped(row, w).len(),
    ensures
        rich::row_text(rich::wrapped(row, w)[r]).len() <= w,
        r < rich::wrapped(row, w).len() - 1 ==> rich::row_text(rich::wrapped(row, w)[r]).len()
            == w,
{
    rich::lemma_width_is_length(row.runs, row.runs.len() as int);
    if rich::width(row.runs) > w {
        lemma_wrapped_row(row, w, r);
    }
}

proof fn lemma_joined(row: Row, w: nat, n: int)
    requires
        0 < w < rich::width(row.runs),
        0 <= n <= rich::wrapped(row, w).len(),
    ensures
        joined_upto(rich::wrapped(row, w), n) == rich::row_text(row).subrange(
            0,
            rich::within(n * w, rich::width(row.runs)),
        ),
    decreases n,
{
    rich::lemma_width_is_length(row.runs, row.runs.len() as int);
    if n > 0 {
        lemma_joined(row, w, n - 1);
        lemma_wrapped_row(row, w, n - 1);
        assert((n - 1) * w + w == n * w) by (nonlinear_arith);
        assert(joined_upto(rich::wrapped(row, w), n) =~= rich::row_text(row).subrange(
            0,
            rich::within(n * w, rich::width(row.runs)),
        ));
    } else {
        assert(0 * w == 0) by (nonlinear_arith);
        assert(joined_upto(rich::wrapped(row, w), n) =~= rich::row_text(row).subrange(0, 0));
    }
}

/// Wrapping loses and adds nothing: the rows, one after the other, show exactly
/// what the row showed.
pub proof fn law_wrapping_keeps_the_text(row: Row, w: nat)
    ensures
        joined_upto(rich::wrapped(row, w), rich::wrapped(row, w).len() as int)
            == rich::row_text(row),
{
    rich::lemma_width_is_length(row.runs, row.runs.len() as int);
    let all = rich::wrapped(row, w);
    if w == 0 || rich::width(row.runs) <= w {
        reveal_with_fuel(joined_upto, 2);
        assert(Seq::<char>::empty() + rich::row_text(row) =~= rich::row_text(row));
    } else {
        let n = all.len() as int;
        lemma_joined(row, w, n);
        rich::lemma_row_count(rich::width(row.runs) as int, w as int, n);
        assert(n * w >= rich::width(row.runs));
        assert(rich::row_text(row).subrange(0, rich::width(row.runs) as int) =~= rich::row_text(
            row,
        ));
    }
}

proof fn lemma_restyled_run_text(run: Run, a: int, b: int, how: Highlight)
    ensures
        text_of(rich::restyled_run(run, a, b, how)) == run.text,
{
    let n = run.text.len();
    let hi = Run { style: rich::highlighted(run.style, how), ..run };
    if rich::within(a, n) >= rich::within(b, n) {
        lemma_text_one(run);
    } else {
        let p = rich::piece(run, 0, a);
        let q = rich::piece(hi, a, b);
        let r = rich::piece(run, b, n as int);
        lemma_piece_text(run, 0, a);
        lemma_piece_text(hi, a, b);
        lemma_piece_text(run, b, n as int);
        lemma_text_add(p, q);
        lemma_text_add(p + q, r);
        assert(text_of(p) + text_of(q) + text_of(r) =~= run.text);
    }
}

/// Highlighting changes no character.
pub proof fn law_highlighting_keeps_the_text(row: Row, cs: int, ce: int, how: Highlight)
    ensures
        rich::row_text(rich::restyled(row, cs, ce, how)) == rich::row_text(row),
{
    lemma_restyled_text(row.runs, row.runs.len() as int, cs, ce, how);
}

proof fn lemma_restyled_text(list: Seq<Run>, n: int, cs: int, ce: int, how: Highlight)
    requires
        0 <= n <= list.len(),
    ensures
        text_of(rich::restyled_upto(list, n, cs, ce, how)) == rich::chars_upto(list, n),
    decreases n,
{
    if n > 0 {
        lemma_restyled_text(list, n - 1, cs, ce, how);
        let start = rich::width_upto(list, n - 1);
        lemma_restyled_run_text(list[n - 1], cs - start, ce - start, how);
        lemma_text_add(
            rich::restyled_upto(list, n - 1, cs, ce, how),
            rich::restyled_run(list[n - 1], cs - start, ce - start, how),
        );
    }
}

// --- styles ------------------------------------------------------------------------------

/// The style of column `col` of a list of runs.
pub open spec fn style_at(list: Seq<Run>, col: int) -> Option<Style>
    decreases list.len(),
{
    if list.len() == 0 {
        None
    } else if col >= rich::width(list.drop_last()) {
        if col < rich::width(list.drop_last()) + list.last().text.len() {
            Some(list.last().style)
        } else {
            None
        }
    } else {
        style_at(list.drop_last(), col)
    }
}

proof fn lemma_width_prefix(a: Seq<Run>, b: Seq<Run>, n: int)
    requires
        0 <= n <= a.len(),
        n <= b.len(),
        forall|i: int| 0 <= i < n ==> #[trigger] a[i] == b[i],
    ensures
        rich::width_upto(a, n) == rich::width_upto(b, n),
    decreases n,
{
    if n > 0 {
        lemma_width_prefix(a, b, n - 1);
        assert(a[n - 1] == b[n - 1]);
    }
}

pub proof fn lemma_width_add(a: Seq<Run>, b: Seq<Run>)
    ensures
        rich::width(a + b) == rich::width(a) + rich::width(b),
    decreases b.len(),
{
    if b.len() == 0 {
        assert(a + b =~= a);
    } else {
        let rest = b.drop_last();
        lemma_width_add(a, rest);
        lemma_width_last(a + b);
        lemma_width_last(b);
        assert((a + b).drop_last() =~= a + rest);
        assert((a + b).last() == b.last());
    }
}

proof fn lemma_width_last(list: Seq<Run>)
    requires
        list.len() > 0,
    ensures
        rich::width(list) == rich::width(list.drop_last()) + list.last().text.len(),
{
    lemma_width_prefix(list, list.drop_last(), list.len() - 1);
}

proof fn lemma_style_add(a: Seq<Run>, b: Seq<Run>, col: int)
    requires
        0 <= col,
    ensures
        style_at(a + b, col) == if col < rich::width(a) {
            style_at(a, col)
        } else {
            style_at(b, col - rich::width(a))
        },
    decreases b.len(),
{
    if b.len() == 0 {
        assert(a + b =~= a);
        lemma_style_end(a, col);
    } else {
        let rest = b.drop_last();
        assert((a + b).drop_last() =~= a + rest);
        assert((a + b).last() == b.last());
        lemma_width_add(a, rest);
        lemma_style_add(a, rest, col);
    }
}

proof fn lemma_style_end(a: Seq<Run>, col: int)
    ensures
        col >= rich::width(a) ==> style_at(a, col) is None,
    decreases a.len(),
{
    if a.len() > 0 {
        lemma_width_last(a);
        lemma_style_end(a.drop_last(), col);
    }
}

pub proof fn lemma_style_one(run: Run, col: int)
    requires
        0 <= col,
    ensures
        rich::width(seq![run]) == run.text.len(),
        style_at(seq![run], col) == if col < run.text.len() {
            Some(run.style)
        } else {
            None
        },
{
    let one = seq![run];
    lemma_width_last(one);
    assert(one.drop_last() =~= Seq::<Run>::empty());
    assert(rich::width(Seq::<Run>::empty()) == 0);
}

proof fn lemma_piece(run: Run, a: int, b: int, col: int)
    requires
        0 <= col,
    ensures
        ({
            let n = run.text.len();
            let (from, to) = (rich::within(a, n), rich::within(b, n));
            let size = if from < to {
                to - from
            } else {
                0
            };
            &&& rich::width(rich::piece(run, a, b)) == size
            &&& style_at(rich::piece(run, a, b), col) == if col < size {
                Some(run.style)
            } else {
                None
            }
        }),
{
    let n = run.text.len();
    let (from, to) = (rich::within(a, n), rich::within(b, n));
    if from < to {
        lemma_style_one(Run { text: run.text.subrange(from, to), style: run.style }, col);
    } else {
        assert(rich::width(Seq::<Run>::empty()) == 0);
    }
}

proof fn lemma_restyled_run(run: Run, a: int, b: int, how: Highlight, col: int)
    requires
        0 <= col < run.text.len(),
    ensures
        rich::width(rich::restyled_run(run, a, b, how)) == run.text.len(),
        style_at(rich::restyled_run(run, a, b, how), col) == Some(
            if a <= col < b {
                rich::highlighted(run.style, how)
            } else {
                run.style
            },
        ),
{
    let n = run.text.len() as int;
    let (from, to) = (rich::within(a, n as nat), rich::within(b, n as nat));
    if from >= to {
        lemma_style_one(run, col);
    } else {
        let lit = Run { style: rich::highlighted(run.style, how), ..run };
        let (x, y, z) = (rich::piece(run, 0, a), rich::piece(lit, a, b), rich::piece(run, b, n));
        lemma_piece(run, 0, a, col);
        lemma_piece(lit, a, b, 0);
        lemma_piece(run, b, n, 0);
        lemma_width_add(x, y);
        lemma_width_add(x + y, z);
        lemma_style_add(x + y, z, col);
        lemma_style_add(x, y, col);
        if col >= from {
            lemma_piece(lit, a, b, col - from);
        }
        if col >= to {
            lemma_piece(run, b, n, col - to);
        }
    }
}

proof fn lemma_restyled_width(run: Run, a: int, b: int, how: Highlight)
    ensures
        rich::width(rich::restyled_run(run, a, b, how)) == run.text.len(),
{
    if run.text.len() > 0 {
        lemma_restyled_run(run, a, b, how, 0);
    } else {
        lemma_style_one(run, 0);
    }
}

proof fn lemma_restyled(list: Seq<Run>, n: int, cs: int, ce: int, how: Highlight, col: int)
    requires
        0 <= n <= list.len(),
        0 <= col,
    ensures
        rich::width(rich::restyled_upto(list, n, cs, ce, how)) == rich::width_upto(list, n),
        col < rich::width_upto(list, n) ==> style_at(
            rich::restyled_upto(list, n, cs, ce, how),
            col,
        ) == Some(
            if cs <= col < ce {
                rich::highlighted(style_at(list.take(n), col)->0, how)
            } else {
                style_at(list.take(n), col)->0
            },
        ) && style_at(list.take(n), col) is Some,
    decreases n,
{
    if n > 0 {
        lemma_restyled(list, n - 1, cs, ce, how, col);
        let start = rich::width_upto(list, n - 1) as int;
        let run = list[n - 1];
        let before = rich::restyled_upto(list, n - 1, cs, ce, how);
        let here = rich::restyled_run(run, cs - start, ce - start, how);
        lemma_restyled_width(run, cs - start, ce - start, how);
        lemma_width_add(before, here);
        lemma_style_add(before, here, col);
        let some = list.take(n);
        assert(some.drop_last() =~= list.take(n - 1));
        assert(some.last() == run);
        lemma_width_prefix(list.take(n - 1), list, n - 1);
        if start <= col && col < start + run.text.len() {
            lemma_restyled_run(run, cs - start, ce - start, how, col - start);
        }
    } else {
        assert(rich::width(Seq::<Run>::empty()) == 0);
    }
}

/// Highlighting makes exactly the columns asked for stand out; every other column keeps
/// its style.
pub proof fn law_highlighting_styles_those_columns(
    row: Row,
    cs: int,
    ce: int,
    how: Highlight,
    col: int,
)
    requires
        0 <= col < rich::width(row.runs),
    ensures
        style_at(row.runs, col) is Some,
        cs <= col < ce ==> style_at(rich::restyled(row, cs, ce, how).runs, col) == Some(
            rich::highlighted(style_at(row.runs, col)->0, how),
        ),
        !(cs <= col < ce) ==> style_at(rich::restyled(row, cs, ce, how).runs, col) == style_at(
            row.runs,
            col,
        ),
{
    lemma_restyled(row.runs, row.runs.len() as int, cs, ce, how, col);
    assert(row.runs.take(row.runs.len() as int) =~= row.runs);
}

proof fn lemma_clip_style(list: Seq<Run>, n: int, a: int, b: int, col: int)
    requires
        0 <= n <= list.len(),
        0 <= a <= b,
        0 <= col,
    ensures
        ({
            let total = rich::width_upto(list, n);
            let (from, to) = (rich::within(a, total), rich::within(b, total));
            &&& rich::width(rich::clip_upto(list, n, a, b)) == to - from
            &&& col < to - from ==> style_at(rich::clip_upto(list, n, a, b), col) == style_at(
                list.take(n),
                a + col,
            )
        }),
    decreases n,
{
    if n > 0 {
        lemma_clip_style(list, n - 1, a, b, col);
        let start = rich::width_upto(list, n - 1) as int;
        let run = list[n - 1];
        let before = rich::clip_upto(list, n - 1, a, b);
        let here = rich::piece(run, a - start, b - start);
        lemma_piece(run, a - start, b - start, 0);
        lemma_width_add(before, here);
        lemma_style_add(before, here, col);
        let some = list.take(n);
        assert(some.drop_last() =~= list.take(n - 1));
        assert(some.last() == run);
        lemma_width_prefix(list.take(n - 1), list, n - 1);
        let w = rich::width(before) as int;
        if col >= w {
            lemma_piece(run, a - start, b - start, col - w);
        }
    } else {
        assert(rich::width(Seq::<Run>::empty()) == 0);
    }
}

/// Clipping and wrapping keep the style of every column.
pub proof fn law_clipping_keeps_the_styles(list: Seq<Run>, a: int, b: int, col: int)
    requires
        0 <= a <= b <= rich::width(list),
        0 <= col < b - a,
    ensures
        style_at(rich::clip(list, a, b), col) == style_at(list, a + col),
{
    lemma_clip_style(list, list.len() as int, a, b, col);
    assert(list.take(list.len() as int) =~= list);
}

/// How highlights look: the current match is reversed and bold, any other match black on
/// yellow, the selection reversed.
pub proof fn law_how_highlights_look(style: Style)
    ensures
        rich::highlighted(style, Highlight::Hit).fg == Some(Ink::Black),
        rich::highlighted(style, Highlight::Hit).bg == Some(Ink::Yellow),
        rich::highlighted(style, Highlight::Selected).fg == style.fg,
        rich::highlighted(style, Highlight::Selected).bg == style.bg,
        rich::highlighted(style, Highlight::Selected).add_modifier == style.add_modifier | 64,
        rich::highlighted(style, Highlight::Current).add_modifier == style.add_modifier | 65,
        rich::highlighted(style, Highlight::Current).fg == style.fg,
        rich::highlighted(style, Highlight::Current).bg == style.bg,
{
    assert(64u16 | 1u16 == 65u16) by (bit_vector);
}

/// A line of unstyled text is shown as it is.
pub proof fn law_plain_rows(text: Seq<char>)
    requires
        text.len() > 0,
        forall|i: int| 0 <= i < text.len() ==> #[trigger] text[i] != '\n',
    ensures
        rich::row_text(rich::raw_row(text)) == text,
        rich::raw_rows(text).len() == 1,
        rich::row_text(rich::raw_rows(text)[0]) == text,
        forall|col: int|
            0 <= col < text.len() ==> #[trigger] style_at(rich::raw_row(text).runs, col) == Some(
                rich::unstyled(),
            ),
{
    let nothing = Seq::<char>::empty();
    crate::text_laws::law_lines(nothing, text);
    assert(nothing + text =~= text);
    let lines = txt::lines(text);
    assert(lines =~= seq![text]);
    let runs = rich::raw_runs(lines);
    assert(runs =~= seq![rich::raw(text)]);
    lemma_text_one(rich::raw(text));
    assert forall|col: int| 0 <= col < text.len() implies #[trigger] style_at(runs, col) == Some(
        rich::unstyled(),
    ) by {
        lemma_style_one(rich::raw(text), col);
    }
}

/// The rows that a row is wrapped into keep the style of every column; no row has a style
/// of its own.
pub proof fn law_wrapping_keeps_the_styles(row: Row, w: nat, r: int, col: int)
    requires
        0 < w < rich::width(row.runs),
        0 <= r < rich::wrapped(row, w).len(),
        0 <= col < w,
        r * w + col < rich::width(row.runs),
    ensures
        style_at(rich::wrapped(row, w)[r].runs, col) == style_at(row.runs, r * w + col),
        rich::wrapped(row, w)[r].style == rich::unstyled(),
        rich::wrapped(row, w).len() == (rich::width(row.runs) + w - 1) / w as int,
{
    let a = r * w;
    assert(a >= 0) by (nonlinear_arith)
        requires
            a == r * w,
            r >= 0,
            w > 0,
    ;
    lemma_clip_style(row.runs, row.runs.len() as int, a, a + w, col);
    assert(row.runs.take(row.runs.len() as int) =~= row.runs);
}

/// A highlighted row has no style of its own, and the same columns.
pub proof fn law_highlighted_rows(row: Row, cs: int, ce: int, how: Highlight)
    ensures
        rich::restyled(row, cs, ce, how).style == rich::unstyled(),
        rich::width(rich::restyled(row, cs, ce, how).runs) == rich::width(row.runs),
{
    lemma_restyled(row.runs, row.runs.len() as int, cs, ce, how, 0);
}

/// What the styles are made of.
pub proof fn law_styles(style: Style, ink: Ink, bits: u16)
    ensures
        rich::with_fg(style, ink) == (Style { fg: Some(ink), ..style }),
        rich::with_bg(style, ink) == (Style { bg: Some(ink), ..style }),
        rich::with_modifier(style, bits).add_modifier == style.add_modifier | bits,
        rich::with_modifier(style, bits).sub_modifier == style.sub_modifier & !bits,
        rich::with_modifier(style, bits).fg == style.fg && rich::with_modifier(style, bits).bg
            == style.bg,
        rich::colored(ink).fg == Some(ink) && rich::colored(ink).bg is None,
        rich::colored(ink).add_modifier == 0 && rich::colored(ink).sub_modifier == 0,
        rich::unstyled().fg is None && rich::unstyled().bg is None,
        rich::unstyled().add_modifier == 0 && rich::unstyled().sub_modifier == 0,
{
}

} // verus!
