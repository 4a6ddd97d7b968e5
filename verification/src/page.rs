//! The page: what a rendered song is made of.
//!
//! A page is a sequence of drawing operations. Lengths and positions are
//! whole numbers of thousandths of a point, so that a page is described
//! exactly; font sizes are whole points. The origin is the lower left
//! corner of the page and `y` grows upwards.

use vstd::prelude::*;

verus! {

/// The width of a page, in thousandths of a point.
pub const PAGE_WIDTH: i128 = 596_000;

/// The height of a page, in thousandths of a point.
pub const PAGE_HEIGHT: i128 = 842_000;

/// The fonts that a song is set in.
#[derive(Clone, Copy, Debug, PartialEq, Eq, Structural)]
pub enum Font {
    TimesBold,
    TimesItalic,
    TimesRoman,
    Helvetica,
    HelveticaOblique,
}

/// Which point of a text its position names.
#[derive(Clone, Copy, Debug, PartialEq, Eq, Structural)]
pub enum Align {
    /// The text starts at its position.
    Left,
    /// The text is centred on its position.
    Center,
    /// The text ends at its position.
    Right,
}

/// Extra space spread over a text; `Natural` adds none.
///
/// `Word` adds `extra / count` after each space character of the text and
/// `Char` adds `extra / count` after each of its characters, `extra` being
/// in thousandths of a point. Either way the text grows by `extra`.
#[derive(Clone, Copy, Debug, PartialEq, Eq, Structural)]
pub enum Spacing {
    Natural,
    Word { extra: u64, count: u64 },
    Char { extra: u64, count: u64 },
}

impl Spacing {
    /// Whether the space added after each unit is more than nothing.
    pub open spec fn is_positive(self) -> bool {
        match self {
            Spacing::Natural => false,
            Spacing::Word { extra, count } => extra > 0 && count > 0,
            Spacing::Char { extra, count } => extra > 0 && count > 0,
        }
    }

    /// By how much the spacing widens its text.
    pub open spec fn total(self) -> int {
        match self {
            Spacing::Natural => 0,
            Spacing::Word { extra, count } => extra as int,
            Spacing::Char { extra, count } => extra as int,
        }
    }
}

/// One drawing operation.
#[derive(Debug, Clone, PartialEq, Eq)]
pub enum DrawOp {
    /// Shows `text` at `(x, y)`, raised by `rise` above its base line.
    Text { font: Font, size: u32, align: Align, x: i128, y: i128, rise: i128, spacing: Spacing, text: String },
    /// Sets the width of the lines drawn from here on.
    LineWidth { width: i128 },
    /// Adds the line from `(x1, y1)` to `(x2, y2)` to the path.
    Line { x1: i128, y1: i128, x2: i128, y2: i128 },
    /// Adds the circle of radius `r` around `(x, y)` to the path.
    Circle { x: i128, y: i128, r: i128 },
    /// Strokes the path and starts a new one.
    Stroke,
    /// Fills the path and starts a new one.
    Fill,
}

/// The mathematical value of a [`DrawOp`].
pub enum DrawOpView {
    Text { font: Font, size: int, align: Align, x: int, y: int, rise: int, spacing: Spacing, text: Seq<char> },
    LineWidth { width: int },
    Line { x1: int, y1: int, x2: int, y2: int },
    Circle { x: int, y: int, r: int },
    Stroke,
    Fill,
}

impl View for DrawOp {
    type V = DrawOpView;

    open spec fn view(&self) -> DrawOpView {
        match self {
            DrawOp::Text { font, size, align, x, y, rise, spacing, text } => DrawOpView::Text {
                font: *font,
                size: *size as int,
                align: *align,
                x: *x as int,
                y: *y as int,
                rise: *rise as int,
                spacing: *spacing,
                text: text@,
            },
            DrawOp::LineWidth { width } => DrawOpView::LineWidth { width: *width as int },
            DrawOp::Line { x1, y1, x2, y2 } => DrawOpView::Line {
                x1: *x1 as int,
                y1: *y1 as int,
                x2: *x2 as int,
                y2: *y2 as int,
            },
            DrawOp::Circle { x, y, r } => DrawOpView::Circle { x: *x as int, y: *y as int, r: *r as int },
            DrawOp::Stroke => DrawOpView::Stroke,
            DrawOp::Fill => DrawOpView::Fill,
        }
    }
}

/// The values of a sequence of drawing operations.
pub open spec fn ops_view(ops: Seq<DrawOp>) -> Seq<DrawOpView> {
    ops.map_values(|op: DrawOp| op@)
}

/// Appends `op` to `ops`.
pub fn emit(ops: &mut Vec<DrawOp>, op: DrawOp)
    ensures
        ops_view(final(ops)@) == ops_view(old(ops)@).push(op@),
{
    ops.push(op);
    assert(ops_view(ops@) =~= ops_view(old(ops)@).push(op@));
}

/// Appends the operations `more` to `ops`.
pub fn emit_all(ops: &mut Vec<DrawOp>, more: Vec<DrawOp>)
    ensures
        ops_view(final(ops)@) == ops_view(old(ops)@) + ops_view(more@),
{
    let mut more = more;
    let ghost added = more@;
    ops.append(&mut more);
    assert(ops_view(ops@) =~= ops_view(old(ops)@) + ops_view(added));
}

} // verus!
