//! The expressions a chord sheet is made of, one per line.

use vstd::prelude::*;

verus! {

/// What one line of a chord sheet says.
///
/// In a `ChordDef`, `def` holds the barre fret followed by the positions of
/// the six strings. In a `Line`, `s` alternates lyric text and chord names,
/// starting and ending with text.
#[derive(Debug, Clone, PartialEq, Eq)]
#[allow(inconsistent_fields)]
pub enum ChordFileExpression {
    Title { s: String },
    SubTitle { s: String },
    Comment { s: String },
    ChordDef { name: String, def: [i8; 7] },
    Line { s: Vec<String> },
}

/// The mathematical value of a [`ChordFileExpression`].
#[allow(inconsistent_fields)]
pub enum ExpressionView {
    Title { s: Seq<char> },
    SubTitle { s: Seq<char> },
    Comment { s: Seq<char> },
    ChordDef { name: Seq<char>, def: Seq<i8> },
    Line { s: Seq<Seq<char>> },
}

impl View for ChordFileExpression {
    type V = ExpressionView;

    open spec fn view(&self) -> ExpressionView {
        match self {
            ChordFileExpression::Title { s } => ExpressionView::Title { s: s@ },
            ChordFileExpression::SubTitle { s } => ExpressionView::SubTitle { s: s@ },
            ChordFileExpression::Comment { s } => ExpressionView::Comment { s: s@ },
            ChordFileExpression::ChordDef { name, def } => ExpressionView::ChordDef {
                name: name@,
                def: def@,
            },
            ChordFileExpression::Line { s } => ExpressionView::Line { s: s.deep_view() },
        }
    }
}

/// Something worth telling the user that does not stop the rendering.
#[derive(Debug, Clone, PartialEq, Eq)]
pub enum Diagnostic {
    /// A directive whose command is not one of the known ones.
    UnknownExpression { cmd: String },
    /// A `define` directive whose argument is not a chord definition.
    BadChordDefinition { text: String },
    /// A chord used in the lyrics that nothing defines.
    UnknownChord { name: String },
}

/// The mathematical value of a [`Diagnostic`].
pub enum DiagnosticView {
    UnknownExpression { cmd: Seq<char> },
    BadChordDefinition { text: Seq<char> },
    UnknownChord { name: Seq<char> },
}

impl View for Diagnostic {
    type V = DiagnosticView;

    open spec fn view(&self) -> DiagnosticView {
        match self {
            Diagnostic::UnknownExpression { cmd } => DiagnosticView::UnknownExpression { cmd: cmd@ },
            Diagnostic::BadChordDefinition { text } => DiagnosticView::BadChordDefinition {
                text: text@,
            },
            Diagnostic::UnknownChord { name } => DiagnosticView::UnknownChord { name: name@ },
        }
    }
}

/// An expression together with the diagnostic its line gave rise to.
#[derive(Debug, Clone, PartialEq, Eq)]
pub struct ParsedLine {
    pub expr: ChordFileExpression,
    pub diagnostic: Option<Diagnostic>,
}

/// The mathematical value of a [`ParsedLine`].
pub struct ParsedLineView {
    pub expr: ExpressionView,
    pub diagnostic: Option<DiagnosticView>,
}

impl View for ParsedLine {
    type V = ParsedLineView;

    open spec fn view(&self) -> ParsedLineView {
        ParsedLineView {
            expr: self.expr@,
            diagnostic: match self.diagnostic {
                Some(d) => Some(d@),
                None => None,
            },
        }
    }
}

} // verus!
