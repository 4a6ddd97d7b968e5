//! Laying out the lines of a song.
//!
//! A heading is one text at the left margin. A lyric line is a row of
//! texts with the chord names raised above them. A chord name may be wider
//! than the text below it; that text is then spread out, so that the next
//! chord starts clear of the one before.

use vstd::prelude::*;
use pdf_canvas::{BuiltinFont, FontSource};
use crate::page::{Font, Align, Spacing, DrawOp, DrawOpView, ops_view};
use crate::text::chars_of;

verus! {

/// Where every line starts, in thousandths of a point from the left edge.
pub const LEFT_MARGIN: i128 = 50_000;

/// The font size of lyric text, in points.
pub const TEXT_SIZE: u32 = 14;

/// The font size of chord names, in points.
pub const CHORD_SIZE: u32 = 10;

/// The room a chord name takes beyond its own width, in thousandths of its
/// font size. It keeps consecutive chord names apart; the value is one that
/// looks right, not one that is derived from anything.
pub const CHORD_PADDING: u32 = 400;

/// The longest text that is measured, in characters.
pub const MAX_MEASURED: usize = 32_768;

/// The width of `text` set in `font`, in thousandths of the font size.
pub uninterp spec fn raw_width(font: Font, text: Seq<char>) -> u32;

/// Measures `text` with `pdf_canvas::FontSource::get_width_raw` on the
/// built-in font that `font` stands for. That function adds up the widths
/// of the encoded characters from the font's metrics; the contract gives
/// the sum the name `raw_width`. The sum is kept in a `u32`, at most two
/// encoded characters stand for one character and none is wider than
/// 65535, so the length asked for keeps it from overflowing.
#[verifier::external_body]
fn measure(font: Font, text: &str) -> (w: u32)
    requires
        text@.len() <= MAX_MEASURED,
    ensures
        w == raw_width(font, text@),
{
    let builtin = match font {
        Font::TimesBold => BuiltinFont::Times_Bold,
        Font::TimesItalic => BuiltinFont::Times_Italic,
        Font::TimesRoman => BuiltinFont::Times_Roman,
        Font::Helvetica => BuiltinFont::Helvetica,
        Font::HelveticaOblique => BuiltinFont::Helvetica_Oblique,
    };
    builtin.get_width_raw(text)
}

// ---------------------------------------------------------------------------
// Justification
// ---------------------------------------------------------------------------

/// The spacing of a text of width `text` that stands below a chord name of
/// width `chord`.
///
/// Where the chord is wider and the text is not the last of its line, the
/// difference is spread over the text: over its spaces where it has any,
/// else over its characters.
pub open spec fn justified(chord: int, text: int, spaces: int, chars: int, last: bool) -> Spacing {
    if chord > text && !last {
        if spaces > 0 {
            Spacing::Word { extra: (chord - text) as u64, count: spaces as u64 }
        } else {
            Spacing::Char { extra: (chord - text) as u64, count: chars as u64 }
        }
    } else {
        Spacing::Natural
    }
}

/// Computes the spacing of a text of `chars` characters, `spaces` of them
/// spaces, that is `text` wide and stands below a chord name that is
/// `chord` wide; `last` tells whether the text ends its line.
pub fn justify(chord: u64, text: u64, spaces: usize, chars: usize, last: bool) -> (r: Spacing)
    ensures
        r == justified(chord as int, text as int, spaces as int, chars as int, last),
        chord > text && !last && chars > 0 ==> r.is_positive() && r.total() == chord - text,
        !(chord > text && !last) ==> r == Spacing::Natural,
{
    if chord > text && !last {
        if spaces > 0 {
            Spacing::Word { extra: chord - text, count: spaces as u64 }
        } else {
            Spacing::Char { extra: chord - text, count: chars as u64 }
        }
    } else {
        Spacing::Natural
    }
}

// ---------------------------------------------------------------------------
// Lyric lines
// ---------------------------------------------------------------------------

/// Whether the segment at index `i` of a lyric line is a chord name.
pub open spec fn is_chord(i: int) -> bool {
    i % 2 == 1
}

/// The text drawn for the segment at index `i`: the segment itself, or one
/// space for an empty text, so that there is something to spread out.
pub open spec fn display(segs: Seq<Seq<char>>, i: int) -> Seq<char> {
    if !is_chord(i) && segs[i].len() == 0 {
        " "@
    } else {
        segs[i]
    }
}

/// The font of the segment at index `i`.
pub open spec fn segment_font(i: int) -> Font {
    if is_chord(i) {
        Font::HelveticaOblique
    } else {
        Font::TimesRoman
    }
}

/// The measuring that the built-in fonts give.
pub open spec fn font_metrics() -> spec_fn(Font, Seq<char>) -> u32 {
    |font: Font, text: Seq<char>| raw_width(font, text)
}

/// The widths of the segments of a line, each as it is drawn, as `m`
/// measures them.
pub open spec fn measured(m: spec_fn(Font, Seq<char>) -> u32, segs: Seq<Seq<char>>) -> Seq<u32> {
    Seq::new(segs.len(), |i: int| m(segment_font(i), display(segs, i)))
}

/// How often `c` occurs in `s`.
pub open spec fn count_of(s: Seq<char>, c: char) -> nat
    decreases s.len(),
{
    if s.len() == 0 {
        0
    } else {
        count_of(s.drop_last(), c) + if s.last() == c {
            1nat
        } else {
            0nat
        }
    }
}

/// The room that a chord name of raw width `raw` takes, in thousandths of
/// a point.
pub open spec fn chord_width(raw: u32) -> int {
    (raw + CHORD_PADDING) * CHORD_SIZE
}

/// The width of a lyric text of raw width `raw`, in thousandths of a point.
pub open spec fn text_width(raw: u32) -> int {
    raw * TEXT_SIZE
}

/// The room taken by the chord name that stands before the segment at
/// index `i`; nothing at the start of the line.
pub open spec fn chord_before(raw: Seq<u32>, i: int) -> int {
    if i > 0 {
        chord_width(raw[i - 1])
    } else {
        0
    }
}

/// The spacing of the segment at index `i`. Chord names are never spread
/// out.
pub open spec fn spacing_of(segs: Seq<Seq<char>>, raw: Seq<u32>, i: int) -> Spacing {
    if is_chord(i) {
        Spacing::Natural
    } else {
        justified(
            chord_before(raw, i),
            text_width(raw[i]),
            count_of(display(segs, i), ' ') as int,
            display(segs, i).len() as int,
            i + 1 >= segs.len(),
        )
    }
}

/// By how much the segment at index `i` moves the cursor: a text by its
/// width and what was added to it, a chord name by nothing.
pub open spec fn advance(segs: Seq<Seq<char>>, raw: Seq<u32>, i: int) -> int {
    if is_chord(i) {
        0
    } else {
        text_width(raw[i]) + spacing_of(segs, raw, i).total()
    }
}

/// Where the segment at index `i` starts.
pub open spec fn cursor(segs: Seq<Seq<char>>, raw: Seq<u32>, i: int) -> int
    decreases i,
{
    if i <= 0 {
        LEFT_MARGIN as int
    } else {
        cursor(segs, raw, i - 1) + advance(segs, raw, i - 1)
    }
}

/// The operation that draws the segment at index `i` of a line whose base
/// line is at `y`.
pub open spec fn segment_op(segs: Seq<Seq<char>>, raw: Seq<u32>, y: int, i: int) -> DrawOpView {
    DrawOpView::Text {
        font: segment_font(i),
        size: if is_chord(i) {
            CHORD_SIZE as int
        } else {
            TEXT_SIZE as int
        },
        align: Align::Left,
        x: cursor(segs, raw, i),
        y,
        rise: if is_chord(i) {
            TEXT_SIZE * 1000
        } else {
            0
        },
        spacing: spacing_of(segs, raw, i),
        text: display(segs, i),
    }
}

/// The operations that draw a lyric line with the segments `segs`, whose
/// measured widths are `raw`, on the base line `y`.
pub open spec fn line_ops(segs: Seq<Seq<char>>, raw: Seq<u32>, y: int) -> Seq<DrawOpView> {
    Seq::new(segs.len(), |i: int| segment_op(segs, raw, y, i))
}

proof fn lemma_count_bound(s: Seq<char>, c: char)
    ensures
        count_of(s, c) <= s.len(),
    decreases s.len(),
{
    if s.len() > 0 {
        lemma_count_bound(s.drop_last(), c);
    }
}

/// A text that stands below a wider chord name, and does not end its line,
/// is spread out by more than nothing, and by just the difference, so that
/// the next chord name starts where the room of the one before ends. That
/// next chord name is not spread out itself.
pub proof fn lemma_justification(segs: Seq<Seq<char>>, raw: Seq<u32>, i: int)
    requires
        segs.len() == raw.len(),
        0 < i,
        i + 1 < segs.len(),
        !is_chord(i),
        segs[i].len() <= u64::MAX,
        chord_width(raw[i - 1]) > text_width(raw[i]),
    ensures
        spacing_of(segs, raw, i).is_positive(),
        spacing_of(segs, raw, i).total() == chord_width(raw[i - 1]) - text_width(raw[i]),
        spacing_of(segs, raw, i + 1) == Spacing::Natural,
        cursor(segs, raw, i + 1) == cursor(segs, raw, i - 1) + chord_width(raw[i - 1]),
{
    reveal_strlit(" ");
    assert(display(segs, i).len() > 0);
    lemma_count_bound(display(segs, i), ' ');
    assert(cursor(segs, raw, i + 1) == cursor(segs, raw, i) + advance(segs, raw, i));
    assert(cursor(segs, raw, i) == cursor(segs, raw, i - 1) + advance(segs, raw, i - 1));
}

/// Only a text that stands below a wider chord name is spread out: every
/// other segment is drawn with its natural spacing.
pub proof fn lemma_spacing_is_one_shot(segs: Seq<Seq<char>>, raw: Seq<u32>, i: int)
    requires
        segs.len() == raw.len(),
        0 <= i < segs.len(),
        is_chord(i) || i == 0 || i + 1 == segs.len() || chord_width(raw[i - 1]) <= text_width(raw[i]),
    ensures
        spacing_of(segs, raw, i) == Spacing::Natural,
{
}

/// Between two chord names there is always the room that the first one
/// takes.
pub proof fn lemma_chords_keep_apart(segs: Seq<Seq<char>>, raw: Seq<u32>, i: int)
    requires
        segs.len() == raw.len(),
        0 < i,
        i + 1 < segs.len(),
        !is_chord(i),
    ensures
        cursor(segs, raw, i + 1) >= cursor(segs, raw, i - 1) + chord_width(raw[i - 1]),
{
    reveal_strlit(" ");
    assert(display(segs, i).len() > 0);
    assert(cursor(segs, raw, i + 1) == cursor(segs, raw, i) + advance(segs, raw, i));
    assert(cursor(segs, raw, i) == cursor(segs, raw, i - 1) + advance(segs, raw, i - 1));
}

/// The text drawn for the segment at index `i`.
pub fn display_text(segments: &Vec<String>, i: usize) -> (text: String)
    requires
        i < segments@.len(),
    ensures
        text@ == display(segments.deep_view(), i as int),
{
    if i % 2 == 0 && segments[i].as_str().unicode_len() == 0 {
        " ".to_owned()
    } else {
        segments[i].clone()
    }
}

/// Whether every segment of a line is short enough to be measured.
pub open spec fn measurable(segs: Seq<Seq<char>>) -> bool {
    forall|i: int| 0 <= i < segs.len() ==> (#[trigger] segs[i]).len() <= MAX_MEASURED
}

/// Measures the segments of a line, each as it is drawn.
pub fn measure_line(segments: &Vec<String>) -> (widths: Vec<u32>)
    requires
        measurable(segments.deep_view()),
    ensures
        widths@ == measured(font_metrics(), segments.deep_view()),
{
    let mut widths: Vec<u32> = Vec::new();
    let mut i: usize = 0;
    while i < segments.len()
        invariant
            0 <= i <= segments@.len(),
            measurable(segments.deep_view()),
            widths@.len() == i,
            forall|k: int| 0 <= k < i ==> widths@[k] == #[trigger] measured(font_metrics(), segments.deep_view())[k],
        decreases segments@.len() - i,
    {
        let text = display_text(segments, i);
        proof {
            reveal_strlit(" ");
            assert(segments.deep_view()[i as int].len() <= MAX_MEASURED);
        }
        let font = if i % 2 == 1 {
            Font::HelveticaOblique
        } else {
            Font::TimesRoman
        };
        widths.push(measure(font, text.as_str()));
        i += 1;
    }
    assert(widths@ =~= measured(font_metrics(), segments.deep_view()));
    widths
}

fn count_spaces(v: &Vec<char>) -> (n: usize)
    ensures
        n == count_of(v@, ' '),
{
    let mut n: usize = 0;
    let mut i: usize = 0;
    assert(v@.take(0) =~= Seq::<char>::empty());
    while i < v.len()
        invariant
            0 <= i <= v@.len(),
            n <= i,
            n == count_of(v@.take(i as int), ' '),
        decreases v@.len() - i,
    {
        proof {
            assert(v@.take(i + 1).drop_last() =~= v@.take(i as int));
        }
        if v[i] == ' ' {
            n += 1;
        }
        i += 1;
    }
    assert(v@.take(i as int) =~= v@);
    n
}

/// The most that one segment can move the cursor.
pub const MAX_ADVANCE: i128 = 0x20_0000_0000;

/// Lays out a lyric line on the base line `y`: one operation for each
/// segment, given the measured widths of the segments.
pub fn layout_line(segments: &Vec<String>, widths: &Vec<u32>, y: i128) -> (ops: Vec<DrawOp>)
    requires
        segments@.len() == widths@.len(),
    ensures
        ops_view(ops@) == line_ops(segments.deep_view(), widths@, y as int),
{
    let ghost segs = segments.deep_view();
    let ghost raw = widths@;
    let n = segments.len();
    let mut ops: Vec<DrawOp> = Vec::new();
    let mut x: i128 = LEFT_MARGIN;
    let mut i: usize = 0;
    while i < n
        invariant
            segs == segments.deep_view(),
            raw == widths@,
            n == segs.len(),
            n == raw.len(),
            0 <= i <= n,
            x == cursor(segs, raw, i as int),
            LEFT_MARGIN <= x <= LEFT_MARGIN + i * MAX_ADVANCE,
            ops@.len() == i,
            forall|k: int| 0 <= k < i ==> (#[trigger] ops@[k])@ == segment_op(segs, raw, y as int, k),
        decreases n - i,
    {
        let text = display_text(segments, i);
        let op = if i % 2 == 1 {
            DrawOp::Text {
                font: Font::HelveticaOblique,
                size: CHORD_SIZE,
                align: Align::Left,
                x,
                y,
                rise: 14_000,
                spacing: Spacing::Natural,
                text,
            }
        } else {
            let shown = chars_of(text.as_str());
            let before: u64 = if i > 0 {
                let padded: u64 = widths[i - 1] as u64 + CHORD_PADDING as u64;
                assert(padded * 10 <= 0x20_0000_0000);
                padded * (CHORD_SIZE as u64)
            } else {
                0
            };
            let raw_text: u64 = widths[i] as u64;
            assert(raw_text * 14 <= 0x20_0000_0000);
            let width: u64 = raw_text * (TEXT_SIZE as u64);
            let spacing = justify(before, width, count_spaces(&shown), shown.len(), i + 1 >= n);
            let start = x;
            let extra: u64 = match spacing {
                Spacing::Natural => 0,
                Spacing::Word { extra, count } => extra,
                Spacing::Char { extra, count } => extra,
            };
            x = x + width as i128 + extra as i128;
            DrawOp::Text {
                font: Font::TimesRoman,
                size: TEXT_SIZE,
                align: Align::Left,
                x: start,
                y,
                rise: 0,
                spacing,
                text,
            }
        };
        assert(op@ == segment_op(segs, raw, y as int, i as int));
        ops.push(op);
        i += 1;
    }
    assert(ops_view(ops@) =~= line_ops(segs, raw, y as int));
    ops
}

/// The operations that draw a lyric line on the base line `y`, each
/// segment measured as it is drawn.
pub fn lyric_line(segments: &Vec<String>, y: i128) -> (ops: Vec<DrawOp>)
    requires
        measurable(segments.deep_view()),
    ensures
        ops_view(ops@) == line_ops(
            segments.deep_view(),
            measured(font_metrics(), segments.deep_view()),
            y as int,
        ),
{
    let widths = measure_line(segments);
    layout_line(segments, &widths, y)
}

// ---------------------------------------------------------------------------
// Headings
// ---------------------------------------------------------------------------

/// The operation that draws a heading: `text` at the left margin.
pub open spec fn heading_op(font: Font, size: int, y: int, text: Seq<char>) -> DrawOpView {
    DrawOpView::Text {
        font,
        size,
        align: Align::Left,
        x: LEFT_MARGIN as int,
        y,
        rise: 0,
        spacing: Spacing::Natural,
        text,
    }
}

/// Draws a heading on the base line `y`.
pub fn heading(font: Font, size: u32, y: i128, text: String) -> (op: DrawOp)
    ensures
        op@ == heading_op(font, size as int, y as int, text@),
{
    DrawOp::Text { font, size, align: Align::Left, x: LEFT_MARGIN, y, rise: 0, spacing: Spacing::Natural, text }
}

} // verus!
