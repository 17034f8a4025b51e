//! Fitting texts into columns, and the colors of markers and chips.

use vstd::prelude::*;
use vstd::slice::slice_subrange;
use vstd::string::StringSliceAdditionalSpecFns;
use vstd::utf8::encode_utf8;
use crate::geometry;
use crate::git;
use crate::git::ChangeKind;
use crate::rich;
use crate::rich::{Ink, Style, UNDERLINED};
use crate::txt;

verus! {

// --- shortening ----------------------------------------------------------------

/// `s` shortened to `max` columns with a middle ellipsis, keeping more of the tail
/// than the head; too few columns for an ellipsis show the tail alone.
pub open spec fn middle_cut(s: Seq<char>, max: int) -> Seq<char> {
    let n = s.len() as int;
    if max <= 0 {
        Seq::empty()
    } else if n <= max {
        s
    } else if max <= 3 {
        s.skip(n - max)
    } else {
        let head = (max - 1) / 3;
        s.take(head).push('…') + s.skip(n - (max - 1 - head))
    }
}

/// Shorten `s` to `max` columns with a middle ellipsis, keeping more of the tail
/// (the filename) than the head, since paths tend to share a long prefix.
pub fn truncate_middle(s: &str, max: usize) -> (r: String)
    ensures
        r@ == middle_cut(s@, max as int),
{
    let chars = txt::chars_of(s);
    let n = chars.len();
    if max == 0 {
        let r = String::new();
        assert(r@ =~= Seq::<char>::empty());
        return r;
    }
    if n <= max {
        return s.to_owned();
    }
    if max <= 3 {
        // Too tight for an ellipsis; show the tail (the distinguishing end).
        let tail = slice_subrange(chars.as_slice(), n - max, n);
        assert(tail@ =~= s@.skip(n - max));
        return txt::string_of(tail);
    }
    let keep: usize = max - 1;
    let head: usize = keep / 3;
    let tail: usize = keep - head;
    let mut out = txt::string_of(slice_subrange(chars.as_slice(), 0, head));
    out.push('…');
    txt::push_chars(&mut out, slice_subrange(chars.as_slice(), n - tail, n));
    assert(out@ =~= middle_cut(s@, max as int));
    out
}

/// `s` cut to `avail` characters, ending with an ellipsis when something was cut.
pub open spec fn end_cut(s: Seq<char>, avail: int) -> Seq<char> {
    if s.len() <= avail {
        s
    } else if avail <= 0 {
        Seq::empty()
    } else {
        s.take(avail - 1).push('…')
    }
}

/// Truncate to `avail` chars, ending with `…` when something was cut.
pub fn truncate_end(s: &str, avail: usize) -> (r: String)
    ensures
        r@ == end_cut(s@, avail as int),
{
    let chars = txt::chars_of(s);
    if chars.len() <= avail {
        return s.to_owned();
    }
    if avail == 0 {
        let r = String::new();
        assert(r@ =~= Seq::<char>::empty());
        return r;
    }
    let mut out = txt::string_of(slice_subrange(chars.as_slice(), 0, avail - 1));
    out.push('…');
    assert(out@ =~= end_cut(s@, avail as int));
    out
}

/// The first column of a scrolling name's window: it holds at the start for a beat
/// so the beginning is readable before scrolling.
pub open spec fn marquee_start(offset: int, len: int) -> int {
    geometry::minus(offset, 8) % len
}

/// A window of `width` columns of `s` going round with a separator, advanced by
/// `offset`.
pub open spec fn scrolled_name(s: Seq<char>, width: nat, offset: int) -> Seq<char> {
    if s.len() <= width {
        s
    } else {
        let ring = s + "   ·   "@;
        let start = marquee_start(offset, ring.len() as int);
        Seq::new(width, |k: int| ring[(start + k) % (ring.len() as int)])
    }
}

/// A horizontally scrolling window of `s` (with a separator), `width` columns wide,
/// advanced by `offset`. Used for the selected file's overflowing name.
pub fn marquee(s: &str, width: usize, offset: usize) -> (r: String)
    ensures
        r@ == scrolled_name(s@, width as nat, offset as int),
{
    let mut ring = txt::chars_of(s);
    if ring.len() <= width {
        return s.to_owned();
    }
    let gap = txt::chars_of("   ·   ");
    txt::extend(&mut ring, gap.as_slice());
    let len = ring.len();
    let start: usize = geometry::sub_size(offset, 8) % len;
    let ghost all = scrolled_name(s@, width as nat, offset as int);
    let mut out = String::new();
    let mut k: usize = 0;
    assert(out@ =~= all.take(0));
    while k < width
        invariant
            k <= width < len,
            start < len,
            ring@.len() == len,
            ring@ == s@ + "   ·   "@,
            s@.len() > width,
            start == marquee_start(offset as int, len as int),
            all == scrolled_name(s@, width as nat, offset as int),
            out@ == all.take(k as int),
        decreases width - k,
    {
        let at: usize = if k < len - start {
            start + k
        } else {
            k - (len - start)
        };
        proof {
            if k < len - start {
                vstd::arithmetic::div_mod::lemma_fundamental_div_mod_converse(
                    start + k,
                    len as int,
                    0,
                    at as int,
                );
            } else {
                vstd::arithmetic::div_mod::lemma_fundamental_div_mod_converse(
                    start + k,
                    len as int,
                    1,
                    at as int,
                );
            }
            assert(all.take(k as int + 1) =~= all.take(k as int).push(ring@[at as int]));
        }
        out.push(ring[at]);
        k = k + 1;
    }
    assert(all.take(k as int) =~= all);
    out
}

// --- headers -------------------------------------------------------------------

/// The scroll-position suffix of the diff header.
pub open spec fn position_text(scroll: int, start: int, end: int) -> Seq<char> {
    " ["@ + txt::decimal(geometry::minus(scroll, start) as nat) + "/"@ + txt::decimal(
        geometry::minus(end, start) as nat,
    ) + "]"@
}

/// Scroll-position suffix for the diff header, relative to the visible window (the
/// whole diff, or the focused file's section in follow mode).
pub fn window_position(scroll: usize, win: (usize, usize)) -> (r: String)
    ensures
        r@ == position_text(scroll as int, win.0 as int, win.1 as int),
{
    let mut s = " [".to_owned();
    txt::push_decimal(&mut s, geometry::sub_size(scroll, win.0) as u64);
    s.append("/");
    txt::push_decimal(&mut s, geometry::sub_size(win.1, win.0) as u64);
    s.append("]");
    s
}

/// How the diff header's columns are split between the path and the base label: the
/// label is shown in full while the path keeps its floor; then the label shrinks,
/// then the path.
pub open spec fn header_split(total: int, base_label_len: int) -> (int, int) {
    if total >= 12 + 3 + base_label_len {
        (total - (3 + base_label_len), base_label_len)
    } else {
        (geometry::lesser(12, total), geometry::minus(total, 15))
    }
}

/// Split the diff header's available columns (`total`, after the marker prefix and
/// the never-truncated behind/position suffix are already accounted for) between
/// the path and the base label. The path keeps at least a floor of 12 columns; only
/// once that floor is hit does the base label itself start shrinking. Returns
/// `(path_avail, base_avail)`.
pub fn split_diff_header_width(total: usize, base_label_len: usize) -> (r: (usize, usize))
    requires
        base_label_len + 15 <= usize::MAX,
    ensures
        r.0 == header_split(total as int, base_label_len as int).0,
        r.1 == header_split(total as int, base_label_len as int).1,
{
    let gap: usize = 3;
    let path_min: usize = 12;
    let base_full_w: usize = gap + base_label_len;
    if total >= path_min + base_full_w {
        (total - base_full_w, base_label_len)
    } else {
        let base_avail = geometry::sub_size(total, path_min + gap);
        (geometry::min_size(path_min, total), base_avail)
    }
}

/// The columns of the history header: the path's, whether the hash is shown, and
/// the subject's. Fixed parts come first, then the path; the hash is kept only
/// while the subject still gets some room.
pub open spec fn history_split(
    total: int,
    path_len: int,
    hash_len: int,
    suffix_len: int,
    pill: bool,
) -> (int, bool, int) {
    let fixed = 3 + suffix_len + if pill {
        12int
    } else {
        0
    };
    let avail = geometry::minus(total, fixed);
    let path_avail = geometry::lesser(path_len, avail);
    let rest = avail - path_avail;
    let hash_shown = rest >= 3 + hash_len + 11;
    (
        path_avail,
        hash_shown,
        if hash_shown {
            rest - (3 + hash_len) - 1
        } else {
            geometry::minus(rest, 1)
        },
    )
}

/// Split the history header's width between the path, the short hash, and the
/// subject. Fixed parts (the 3-col marker, the pos/scroll suffix, the pill when
/// shown) always render; then the path claims what it needs, the subject keeps at
/// least some room, and the hash is the first thing dropped under pressure.
pub fn history_header_widths(
    total: usize,
    path_len: usize,
    hash_len: usize,
    suffix_len: usize,
    pill: bool,
) -> (r: (usize, bool, usize))
    requires
        suffix_len + (if pill {
            15int
        } else {
            3
        }) <= usize::MAX,
        hash_len + 14 <= usize::MAX,
    ensures
        ({
            let split = history_split(
                total as int,
                path_len as int,
                hash_len as int,
                suffix_len as int,
                pill,
            );
            r.0 == split.0 && r.1 == split.1 && r.2 == split.2
        }),
{
    // " pre-branch " is 12 cols; the marker " ⟲ " is 3.
    let fixed: usize = 3 + suffix_len + (if pill {
        12
    } else {
        0
    });
    let avail = geometry::sub_size(total, fixed);
    let path_avail = geometry::min_size(path_len, avail);
    let rest: usize = avail - path_avail;
    let hash_cost: usize = 3 + hash_len;
    // Keep the hash only while the subject still gets ≥10 readable chars.
    let hash_shown = rest >= hash_cost + 11;
    let subject_avail = if hash_shown {
        rest - hash_cost - 1
    } else {
        geometry::sub_size(rest, 1)
    };
    (path_avail, hash_shown, subject_avail)
}

// --- colors --------------------------------------------------------------------

/// The color of a change kind's marker.
pub open spec fn kind_color(kind: ChangeKind) -> Ink {
    match kind {
        ChangeKind::Modified => Ink::Yellow,
        ChangeKind::Added => Ink::Green,
        ChangeKind::Deleted => Ink::Red,
        ChangeKind::Renamed => Ink::Cyan,
        ChangeKind::Untracked => Ink::Blue,
    }
}

/// The marker of a change kind, and its color.
pub fn marker_style(kind: ChangeKind) -> (r: (char, Ink))
    ensures
        r.0 == git::marker_of(kind),
        r.1 == kind_color(kind),
{
    match kind {
        ChangeKind::Modified => ('M', Ink::Yellow),
        ChangeKind::Added => ('A', Ink::Green),
        ChangeKind::Deleted => ('D', Ink::Red),
        ChangeKind::Renamed => ('R', Ink::Cyan),
        ChangeKind::Untracked => ('U', Ink::Blue),
    }
}

/// The curated color of a common language's extension.
pub open spec fn curated_color(ext: Seq<char>) -> Option<Ink> {
    if ext == "ts"@ || ext == "tsx"@ {
        Some(Ink::Blue)
    } else if ext == "js"@ || ext == "jsx"@ {
        Some(Ink::Yellow)
    } else if ext == "py"@ {
        Some(Ink::Green)
    } else if ext == "rs"@ {
        Some(Ink::Red)
    } else if ext == "md"@ {
        Some(Ink::Gray)
    } else if ext == "json"@ || ext == "yaml"@ || ext == "yml"@ || ext == "toml"@ {
        Some(Ink::Cyan)
    } else if ext == "css"@ || ext == "scss"@ || ext == "html"@ {
        Some(Ink::Magenta)
    } else {
        None
    }
}

/// A hash of the first `n` bytes.
pub open spec fn hash_upto(bytes: Seq<u8>, n: int) -> int
    decreases n,
{
    if n <= 0 {
        0
    } else {
        (hash_upto(bytes, n - 1) * 31 + bytes[n - 1]) % 0x1_0000_0000
    }
}

/// The palette that extensions without a curated color are hashed into.
pub open spec fn palette(i: int) -> Ink {
    if i == 0 {
        Ink::Blue
    } else if i == 1 {
        Ink::Yellow
    } else if i == 2 {
        Ink::Green
    } else if i == 3 {
        Ink::Red
    } else if i == 4 {
        Ink::Cyan
    } else {
        Ink::Magenta
    }
}

/// The color of a file extension's chip.
pub open spec fn extension_color(ext: Seq<char>) -> Ink {
    match curated_color(ext) {
        Some(c) => c,
        None => palette(hash_upto(encode_utf8(ext), encode_utf8(ext).len() as int) % 6),
    }
}

fn curated(ext: &str) -> (r: Option<Ink>)
    ensures
        r == curated_color(ext@),
{
    if txt::same(ext, "ts") || txt::same(ext, "tsx") {
        Some(Ink::Blue)
    } else if txt::same(ext, "js") || txt::same(ext, "jsx") {
        Some(Ink::Yellow)
    } else if txt::same(ext, "py") {
        Some(Ink::Green)
    } else if txt::same(ext, "rs") {
        Some(Ink::Red)
    } else if txt::same(ext, "md") {
        Some(Ink::Gray)
    } else if txt::same(ext, "json") || txt::same(ext, "yaml") || txt::same(ext, "yml")
        || txt::same(ext, "toml") {
        Some(Ink::Cyan)
    } else if txt::same(ext, "css") || txt::same(ext, "scss") || txt::same(ext, "html") {
        Some(Ink::Magenta)
    } else {
        None
    }
}

/// A stable color for a file extension: a small curated map for common languages,
/// else a deterministic hash into the same small palette, so any extension still
/// gets a consistent color across a session (and restarts, since the hash is pure)
/// even without a curated entry.
pub fn chip_color(ext: &str) -> (c: Ink)
    ensures
        c == extension_color(ext@),
{
    if let Some(c) = curated(ext) {
        return c;
    }
    let bytes = ext.as_bytes();
    let mut hash: u64 = 0;
    let mut i: usize = 0;
    while i < bytes.len()
        invariant
            i <= bytes@.len(),
            hash < 0x1_0000_0000,
            hash == hash_upto(bytes@, i as int),
        decreases bytes@.len() - i,
    {
        hash = (hash * 31 + bytes[i] as u64) % 0x1_0000_0000;
        i = i + 1;
    }
    match hash % 6 {
        0 => Ink::Blue,
        1 => Ink::Yellow,
        2 => Ink::Green,
        3 => Ink::Red,
        4 => Ink::Cyan,
        _ => Ink::Magenta,
    }
}

/// `style`, underlined when hovered.
pub open spec fn underlined_if(style: Style, hovered: bool) -> Style {
    if hovered {
        rich::with_modifier(style, UNDERLINED)
    } else {
        style
    }
}

/// Adds an underline on top of `style` when `hovered`: the uniform "this is
/// clickable and the mouse is over it" treatment shared by chips, the sort
/// indicator, and file-list rows. Never changes colors or removes any modifier
/// already present.
pub fn maybe_underline(style: Style, hovered: bool) -> (r: Style)
    ensures
        r == underlined_if(style, hovered),
{
    if hovered {
        style.add_modifier(UNDERLINED)
    } else {
        style
    }
}

// --- laws ----------------------------------------------------------------------

/// A shortened text fits its columns, and a text that fits is not shortened.
pub proof fn law_truncation_fits(s: Seq<char>, max: int)
    requires
        max >= 0,
    ensures
        middle_cut(s, max).len() <= max,
        end_cut(s, max).len() <= max,
        s.len() <= max ==> middle_cut(s, max) == s && end_cut(s, max) == s,
        s.len() > max ==> middle_cut(s, max).len() == max && end_cut(s, max).len() == max,
{
    if s.len() <= max && max == 0 {
        assert(s =~= Seq::<char>::empty());
    }
}

/// A scrolling name's window shows exactly its columns, and at first the beginning
/// of the name.
pub proof fn law_marquee_window(s: Seq<char>, width: nat, offset: int)
    requires
        s.len() > width,
        0 <= offset,
    ensures
        scrolled_name(s, width, offset).len() == width,
        offset <= 8 ==> scrolled_name(s, width, offset) == s.take(width as int),
{
    if offset <= 8 {
        let ring = s + "   ·   "@;
        let n = ring.len() as int;
        assert(marquee_start(offset, n) == 0) by {
            vstd::arithmetic::div_mod::lemma_fundamental_div_mod_converse(0, n, 0, 0);
        }
        assert forall|k: int| 0 <= k < width implies ring[(0 + k) % n] == s[k] by {
            vstd::arithmetic::div_mod::lemma_fundamental_div_mod_converse(k, n, 0, k);
        }
        assert(scrolled_name(s, width, offset) =~= s.take(width as int));
    }
}

/// The diff header's parts never take more than the columns there are, and the path
/// keeps its floor while there is room for it.
pub proof fn law_header_split_fits(total: int, base_label_len: int)
    requires
        total >= 0,
        base_label_len >= 0,
    ensures
        ({
            let (path, base) = header_split(total, base_label_len);
            &&& 0 <= path && 0 <= base <= base_label_len
            &&& path + (if base > 0 {
                3 + base
            } else {
                0
            }) <= total
            &&& total >= 12 ==> path >= 12
        }),
{
}

/// The history header's parts never take more than the columns the fixed parts
/// leave.
pub proof fn law_history_split_fits(
    total: int,
    path_len: int,
    hash_len: int,
    suffix_len: int,
    pill: bool,
)
    requires
        total >= 0,
        path_len >= 0,
        hash_len >= 0,
        suffix_len >= 0,
    ensures
        ({
            let (path, hash, subject) = history_split(total, path_len, hash_len, suffix_len, pill);
            &&& 0 <= path <= path_len && 0 <= subject
            &&& path + (if hash {
                3 + hash_len
            } else {
                0
            }) + (if subject > 0 {
                1 + subject
            } else {
                0
            }) <= geometry::minus(
                total,
                3 + suffix_len + if pill {
                    12int
                } else {
                    0
                },
            )
            &&& hash ==> path == path_len && subject >= 10
        }),
{
}

} // verus!
