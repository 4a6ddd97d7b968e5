//! Chord diagrams: a small picture of the fretboard for one chord.
//!
//! A diagram is a grid of five fret lines and six string lines, with the
//! chord's name centred above it. A shape that is played at the nut gets a
//! thick line along the top of the grid; a shape that starts higher up gets
//! the number of its first fret to the left of the grid instead. Each string
//! then gets its mark: a cross above the grid where it is muted, a ring
//! where it is open, a dot on the fret where it is held down, and nothing
//! at all where nothing is known of it.

use vstd::prelude::*;
use crate::page::{Font, Align, Spacing, DrawOp, DrawOpView, ops_view, emit};
use crate::chords::UNKNOWN_STRING;

verus! {

/// The distance between two strings.
pub const STRING_GAP: i128 = 5_000;

/// The distance between two frets.
pub const FRET_GAP: i128 = 7_000;

/// The width of the grid: five string gaps.
pub const GRID_WIDTH: i128 = 25_000;

/// The height of the grid: four fret gaps and a little more.
pub const GRID_HEIGHT: i128 = 30_800;

/// The radius of a cross or a ring above the grid.
pub const MARK_RADIUS: i128 = 1_400;

/// The radius of a dot on a fret.
pub const DOT_RADIUS: i128 = 1_800;

/// How far from the origin a diagram may be placed.
pub const REACH: i128 = 0x10_0000_0000_0000_0000_0000_0000;

/// The character of the digit `d`.
pub open spec fn digit_char(d: int) -> char {
    if d == 0 {
        '0'
    } else if d == 1 {
        '1'
    } else if d == 2 {
        '2'
    } else if d == 3 {
        '3'
    } else if d == 4 {
        '4'
    } else if d == 5 {
        '5'
    } else if d == 6 {
        '6'
    } else if d == 7 {
        '7'
    } else if d == 8 {
        '8'
    } else {
        '9'
    }
}

/// The decimal digits of `n`, which is not negative.
pub open spec fn decimal(n: int) -> Seq<char>
    decreases n,
{
    if n < 10 {
        seq![digit_char(n)]
    } else {
        decimal(n / 10).push(digit_char(n % 10))
    }
}

fn digit(d: u8) -> (c: char)
    requires
        d < 10,
    ensures
        c == digit_char(d as int),
{
    if d == 0 {
        '0'
    } else if d == 1 {
        '1'
    } else if d == 2 {
        '2'
    } else if d == 3 {
        '3'
    } else if d == 4 {
        '4'
    } else if d == 5 {
        '5'
    } else if d == 6 {
        '6'
    } else if d == 7 {
        '7'
    } else if d == 8 {
        '8'
    } else {
        '9'
    }
}

/// Writes `n` in decimal digits.
pub fn decimal_string(n: u8) -> (s: String)
    ensures
        s@ == decimal(n as int),
{
    let mut s = String::new();
    if n >= 100 {
        s.push(digit(n / 100));
    }
    if n >= 10 {
        s.push(digit((n / 10) % 10));
    }
    s.push(digit(n % 10));
    proof {
        reveal_with_fuel(decimal, 3);
        assert(s@ =~= decimal(n as int));
    }
    s
}

/// The operation that writes the chord's name above the grid.
pub open spec fn name_op(left: int, top: int, name: Seq<char>) -> DrawOpView {
    DrawOpView::Text {
        font: Font::HelveticaOblique,
        size: 12,
        align: Align::Center,
        x: left + 2 * STRING_GAP,
        y: top + FRET_GAP,
        rise: 0,
        spacing: Spacing::Natural,
        text: name,
    }
}

/// Whether a shape with this barre fret is played at the nut.
pub open spec fn at_nut(barre: int) -> bool {
    barre < 2
}

/// What marks the top of the grid: the thick line of the nut, or the
/// number of the first fret to the left of the grid.
pub open spec fn nut_ops(left: int, top: int, barre: int) -> Seq<DrawOpView> {
    if at_nut(barre) {
        seq![
            DrawOpView::LineWidth { width: 1000 },
            DrawOpView::Line { x1: left - 150, y1: top + 500, x2: left + GRID_WIDTH + 150, y2: top + 500 },
            DrawOpView::Stroke,
        ]
    } else {
        seq![
            DrawOpView::Text {
                font: Font::Helvetica,
                size: 7,
                align: Align::Right,
                x: left - 2000,
                y: top - 6300,
                rise: 0,
                spacing: Spacing::Natural,
                text: decimal(barre),
            },
        ]
    }
}

/// Where the string lines start: a little above the grid where a fret
/// number stands beside it.
pub open spec fn string_top(top: int, barre: int) -> int {
    if at_nut(barre) {
        top
    } else {
        top + 1600
    }
}

/// The line of the fret with index `b`, counted from the top.
pub open spec fn fret_line(left: int, top: int, b: int) -> DrawOpView {
    DrawOpView::Line { x1: left, y1: top - b * FRET_GAP, x2: left + GRID_WIDTH, y2: top - b * FRET_GAP }
}

/// The line of the string with index `s`, counted from the left.
pub open spec fn string_line(left: int, top: int, barre: int, s: int) -> DrawOpView {
    DrawOpView::Line {
        x1: left + s * STRING_GAP,
        y1: string_top(top, barre),
        x2: left + s * STRING_GAP,
        y2: top - GRID_HEIGHT,
    }
}

/// The grid: five fret lines and six string lines, drawn thin.
pub open spec fn grid_ops(left: int, top: int, barre: int) -> Seq<DrawOpView> {
    seq![DrawOpView::LineWidth { width: 300 }] + Seq::new(5, |b: int| fret_line(left, top, b))
        + Seq::new(6, |s: int| string_line(left, top, barre, s)) + seq![DrawOpView::Stroke]
}

/// The mark of the string with index `s`, whose position is `value`.
pub open spec fn mark_ops(left: int, top: int, s: int, value: int) -> Seq<DrawOpView> {
    let x = left + s * STRING_GAP;
    let above = top + 2000 + MARK_RADIUS;
    if value == UNKNOWN_STRING {
        Seq::empty()
    } else if value == -1 {
        seq![
            DrawOpView::Line {
                x1: x - MARK_RADIUS,
                y1: above - MARK_RADIUS,
                x2: x + MARK_RADIUS,
                y2: above + MARK_RADIUS,
            },
            DrawOpView::Line {
                x1: x + MARK_RADIUS,
                y1: above - MARK_RADIUS,
                x2: x - MARK_RADIUS,
                y2: above + MARK_RADIUS,
            },
            DrawOpView::Stroke,
        ]
    } else if value == 0 {
        seq![DrawOpView::Circle { x, y: above, r: MARK_RADIUS as int }, DrawOpView::Stroke]
    } else {
        seq![
            DrawOpView::Circle { x, y: top - value * FRET_GAP + FRET_GAP / 2, r: DOT_RADIUS as int },
            DrawOpView::Fill,
        ]
    }
}

/// The marks of the first `n` strings.
pub open spec fn marks_ops(left: int, top: int, strings: Seq<i8>, n: int) -> Seq<DrawOpView>
    decreases n,
{
    if n <= 0 {
        Seq::empty()
    } else {
        marks_ops(left, top, strings, n - 1) + mark_ops(left, top, n - 1, strings[n] as int)
    }
}

/// The diagram of the chord `name` with the shape `strings`, the top left
/// corner of its grid at `(left, top)`.
pub open spec fn chord_ops(left: int, top: int, name: Seq<char>, strings: Seq<i8>) -> Seq<DrawOpView> {
    seq![name_op(left, top, name)] + nut_ops(left, top, strings[0] as int) + grid_ops(
        left,
        top,
        strings[0] as int,
    ) + marks_ops(left, top, strings, 6)
}

/// A shape of which nothing is known gives a diagram without any mark.
pub proof fn lemma_unknown_has_no_marks(left: int, top: int, strings: Seq<i8>)
    requires
        forall|s: int| 1 <= s <= 6 ==> strings[s] == UNKNOWN_STRING,
    ensures
        marks_ops(left, top, strings, 6) == Seq::<DrawOpView>::empty(),
{
    reveal_with_fuel(marks_ops, 7);
    assert(marks_ops(left, top, strings, 6) =~= Seq::<DrawOpView>::empty());
}

/// The diagram of a shape that starts at the second fret or higher shows
/// the number of that fret and no line for the nut.
pub proof fn lemma_barre_is_labelled(left: int, top: int, barre: int)
    requires
        barre >= 2,
    ensures
        nut_ops(left, top, barre).len() == 1,
        nut_ops(left, top, barre)[0] is Text,
        nut_ops(left, top, barre)[0]->text == decimal(barre),
{
}

fn mark(ops: &mut Vec<DrawOp>, left: i128, top: i128, s: u8, value: i8)
    requires
        -REACH <= left <= REACH,
        -REACH <= top <= REACH,
        s < 6,
    ensures
        ops_view(final(ops)@) == ops_view(old(ops)@) + mark_ops(left as int, top as int, s as int, value as int),
{
    let x = left + s as i128 * STRING_GAP;
    let above = top + 2000 + MARK_RADIUS;
    let ghost before = ops_view(ops@);
    if value == UNKNOWN_STRING {
        assert(before + Seq::<DrawOpView>::empty() =~= before);
    } else if value == -1 {
        emit(
            ops,
            DrawOp::Line {
                x1: x - MARK_RADIUS,
                y1: above - MARK_RADIUS,
                x2: x + MARK_RADIUS,
                y2: above + MARK_RADIUS,
            },
        );
        emit(
            ops,
            DrawOp::Line {
                x1: x + MARK_RADIUS,
                y1: above - MARK_RADIUS,
                x2: x - MARK_RADIUS,
                y2: above + MARK_RADIUS,
            },
        );
        emit(ops, DrawOp::Stroke);
        assert(ops_view(ops@) =~= before + mark_ops(left as int, top as int, s as int, value as int));
    } else if value == 0 {
        emit(ops, DrawOp::Circle { x, y: above, r: MARK_RADIUS });
        emit(ops, DrawOp::Stroke);
        assert(ops_view(ops@) =~= before + mark_ops(left as int, top as int, s as int, value as int));
    } else {
        emit(ops, DrawOp::Circle { x, y: top - value as i128 * FRET_GAP + FRET_GAP / 2, r: DOT_RADIUS });
        emit(ops, DrawOp::Fill);
        assert(ops_view(ops@) =~= before + mark_ops(left as int, top as int, s as int, value as int));
    }
}

/// Draws the diagram of the chord `name` with the shape `strings`, the top
/// left corner of its grid at `(left, top)`.
pub fn chordbox(left: i128, top: i128, name: &str, strings: &[i8; 7]) -> (ops: Vec<DrawOp>)
    requires
        -REACH <= left <= REACH,
        -REACH <= top <= REACH,
    ensures
        ops_view(ops@) == chord_ops(left as int, top as int, name@, strings@),
{
    let ghost l = left as int;
    let ghost t = top as int;
    let mut ops: Vec<DrawOp> = Vec::new();
    let right = left + GRID_WIDTH;
    let bottom = top - GRID_HEIGHT;
    let barre = strings[0];
    assert(ops_view(ops@) =~= Seq::<DrawOpView>::empty());
    emit(
        &mut ops,
        DrawOp::Text {
            font: Font::HelveticaOblique,
            size: 12,
            align: Align::Center,
            x: left + 2 * STRING_GAP,
            y: top + FRET_GAP,
            rise: 0,
            spacing: Spacing::Natural,
            text: name.to_owned(),
        },
    );
    let up: i128 = if barre < 2 {
        emit(&mut ops, DrawOp::LineWidth { width: 1000 });
        emit(&mut ops, DrawOp::Line { x1: left - 150, y1: top + 500, x2: right + 150, y2: top + 500 });
        emit(&mut ops, DrawOp::Stroke);
        0
    } else {
        emit(
            &mut ops,
            DrawOp::Text {
                font: Font::Helvetica,
                size: 7,
                align: Align::Right,
                x: left - 2000,
                y: top - 6300,
                rise: 0,
                spacing: Spacing::Natural,
                text: decimal_string(barre as u8),
            },
        );
        1600
    };
    let ghost head = seq![name_op(l, t, name@)] + nut_ops(l, t, barre as int);
    assert(ops_view(ops@) =~= head);
    emit(&mut ops, DrawOp::LineWidth { width: 300 });
    let ghost thin = head + seq![DrawOpView::LineWidth { width: 300 }];
    assert(ops_view(ops@) =~= thin);
    let mut b: u8 = 0;
    while b < 5
        invariant
            0 <= b <= 5,
            l == left,
            t == top,
            right == left + GRID_WIDTH,
            -REACH <= left <= REACH,
            -REACH <= top <= REACH,
            ops_view(ops@) == thin + Seq::new(b as nat, |k: int| fret_line(l, t, k)),
        decreases 5 - b,
    {
        let y = top - b as i128 * FRET_GAP;
        emit(&mut ops, DrawOp::Line { x1: left, y1: y, x2: right, y2: y });
        b += 1;
        assert(ops_view(ops@) =~= thin + Seq::new(b as nat, |k: int| fret_line(l, t, k)));
    }
    let ghost frets = thin + Seq::new(5, |k: int| fret_line(l, t, k));
    let mut s: u8 = 0;
    while s < 6
        invariant
            0 <= s <= 6,
            l == left,
            t == top,
            bottom == top - GRID_HEIGHT,
            up == string_top(t, barre as int) - t,
            -REACH <= left <= REACH,
            -REACH <= top <= REACH,
            ops_view(ops@) == frets + Seq::new(s as nat, |k: int| string_line(l, t, barre as int, k)),
        decreases 6 - s,
    {
        let x = left + s as i128 * STRING_GAP;
        emit(&mut ops, DrawOp::Line { x1: x, y1: top + up, x2: x, y2: bottom });
        s += 1;
        assert(ops_view(ops@) =~= frets + Seq::new(s as nat, |k: int| string_line(l, t, barre as int, k)));
    }
    emit(&mut ops, DrawOp::Stroke);
    let ghost grid = head + grid_ops(l, t, barre as int);
    assert(ops_view(ops@) =~= grid);
    let mut s: u8 = 0;
    while s < 6
        invariant
            0 <= s <= 6,
            l == left,
            t == top,
            -REACH <= left <= REACH,
            -REACH <= top <= REACH,
            ops_view(ops@) == grid + marks_ops(l, t, strings@, s as int),
        decreases 6 - s,
    {
        mark(&mut ops, left, top, s, strings[s as usize + 1]);
        s += 1;
        assert(ops_view(ops@) =~= grid + marks_ops(l, t, strings@, s as int));
    }
    assert(grid + marks_ops(l, t, strings@, 6) =~= chord_ops(l, t, name@, strings@));
    ops
}

} // verus!
