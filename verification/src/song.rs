//! A song: from its lines to its page.
//!
//! The lines are read one expression at a time. Headings and lyric lines
//! are drawn from the top of the page downwards, chord definitions are
//! remembered, and the chord names used in the lyrics are collected. At the
//! end one diagram is drawn for each chord used, in the order of their
//! names, the last diagram ending at the right edge of the page.

use vstd::prelude::*;
use crate::expr::{ChordFileExpression, ExpressionView, Diagnostic, DiagnosticView, ParsedLine, ParsedLineView};
use crate::parser::{
    ChoproParser, parsed, is_comment, first_content, lemma_segments_within, lemma_first_content,
    lemma_parsed_lyrics,
};
use crate::chords::{ChordTable, resolve, resolved, is_defined, get_known_chords, known_chords};
use crate::page::{Font, DrawOp, DrawOpView, ops_view, emit, emit_all, PAGE_WIDTH};
use crate::layout::{
    heading, heading_op, lyric_line, line_ops, measured, measurable, font_metrics, is_chord, MAX_MEASURED,
};
use crate::diagram::{chordbox, chord_ops, REACH};
use crate::order::{with_name, put_name, increasing, lemma_with_name};
use crate::text::same_text;

verus! {

/// The base line that the first line of a song is measured from.
pub const START_Y: i128 = 812_000;

/// How far below the line before it a title stands.
pub const TITLE_DROP: i128 = 20_000;

/// How far below the line before it a subtitle stands.
pub const SUBTITLE_DROP: i128 = 18_000;

/// How far below the line before it a comment stands.
pub const COMMENT_DROP: i128 = 14_000;

/// How far below the line before it a lyric line without chords stands.
pub const LYRICS_DROP: i128 = 16_800;

/// How far below the line before it a lyric line with chords stands: it
/// needs room for the chord names above the text.
pub const CHORDED_DROP: i128 = 28_800;

/// The distance from one chord diagram to the next.
pub const DIAGRAM_PITCH: i128 = 40_000;

/// The height of the top of the chord diagrams' grids.
pub const DIAGRAM_TOP: i128 = 80_000;

// ---------------------------------------------------------------------------
// The chords used
// ---------------------------------------------------------------------------

/// Whether `name` is one of the two marks that stand where a chord name
/// would, but name no chord: the sign for "the same chord again" and the
/// empty name.
pub open spec fn is_marker(name: Seq<char>) -> bool {
    name == "%"@ || name == ""@
}

/// The chords used, once `chord` has been seen in the lyrics.
pub open spec fn noted(used: Seq<Seq<char>>, chord: Seq<char>) -> Seq<Seq<char>> {
    if is_marker(chord) {
        used
    } else {
        with_name(used, chord)
    }
}

/// The chords used, once the first `n` segments of a lyric line have been
/// seen.
pub open spec fn chords_noted(used: Seq<Seq<char>>, segs: Seq<Seq<char>>, n: int) -> Seq<Seq<char>>
    decreases n,
{
    if n <= 0 {
        used
    } else if is_chord(n - 1) {
        noted(chords_noted(used, segs, n - 1), segs[n - 1])
    } else {
        chords_noted(used, segs, n - 1)
    }
}

/// The chords used stay in the order of their names, each of them once,
/// whatever lyric line is seen.
pub proof fn lemma_chords_stay_sorted(used: Seq<Seq<char>>, segs: Seq<Seq<char>>, n: int)
    requires
        increasing(used),
    ensures
        increasing(chords_noted(used, segs, n)),
    decreases n,
{
    if n > 0 {
        lemma_chords_stay_sorted(used, segs, n - 1);
        if is_chord(n - 1) && !is_marker(segs[n - 1]) {
            lemma_with_name(chords_noted(used, segs, n - 1), segs[n - 1]);
        }
    }
}

/// Whether `name` is a chord of the first `n` segments of a lyric line, and
/// none of the two marks.
pub open spec fn names_chord(segs: Seq<Seq<char>>, n: int, name: Seq<char>) -> bool {
    exists|k: int| 0 <= k < n && is_chord(k) && #[trigger] segs[k] == name && !is_marker(name)
}

/// After a lyric line the chords used are those used before and the
/// chords of the line, the two marks left out.
pub proof fn lemma_chords_noted_members(used: Seq<Seq<char>>, segs: Seq<Seq<char>>, n: int, name: Seq<char>)
    requires
        increasing(used),
    ensures
        chords_noted(used, segs, n).contains(name) <==> used.contains(name) || names_chord(segs, n, name),
    decreases n,
{
    if n > 0 {
        let k = n - 1;
        let before = chords_noted(used, segs, k);
        lemma_chords_noted_members(used, segs, k, name);
        lemma_chords_stay_sorted(used, segs, k);
        if is_chord(k) && !is_marker(segs[k]) {
            lemma_with_name(before, segs[k]);
            if segs[k] == name {
                assert(names_chord(segs, n, name));
            }
        }
        if names_chord(segs, n, name) {
            let j = choose|j: int| 0 <= j < n && is_chord(j) && #[trigger] segs[j] == name && !is_marker(name);
            if j < k {
                assert(names_chord(segs, k, name));
            }
        }
        if names_chord(segs, k, name) {
            let j = choose|j: int| 0 <= j < k && is_chord(j) && #[trigger] segs[j] == name && !is_marker(name);
            assert(names_chord(segs, n, name));
        }
    }
}

fn note_chords(used: &mut Vec<String>, segments: &Vec<String>)
    ensures
        final(used).deep_view() == chords_noted(
            old(used).deep_view(),
            segments.deep_view(),
            segments@.len() as int,
        ),
{
    let ghost before = used.deep_view();
    let ghost segs = segments.deep_view();
    let mut i: usize = 0;
    while i < segments.len()
        invariant
            segs == segments.deep_view(),
            0 <= i <= segments@.len(),
            used.deep_view() == chords_noted(before, segs, i as int),
        decreases segments@.len() - i,
    {
        if i % 2 == 1 {
            let name = segments[i].as_str();
            assert(name@ == segs[i as int]);
            if !same_text(name, "%") && !same_text(name, "") {
                put_name(used, name);
            }
        }
        i += 1;
    }
}

// ---------------------------------------------------------------------------
// The state of a song
// ---------------------------------------------------------------------------

/// The mathematical value of a [`Song`]: the base line of the last line
/// drawn, what has been drawn, the chords used in the order of their
/// names, the song's own chord definitions, and the diagnostics so far.
pub struct SongView {
    pub y: int,
    pub ops: Seq<DrawOpView>,
    pub used: Seq<Seq<char>>,
    pub local: Map<Seq<char>, Seq<i8>>,
    pub diagnostics: Seq<DiagnosticView>,
}

/// The values of a sequence of diagnostics.
pub open spec fn notes_view(notes: Seq<Diagnostic>) -> Seq<DiagnosticView> {
    notes.map_values(|d: Diagnostic| d@)
}

/// A song of which nothing has been read.
pub open spec fn start() -> SongView {
    SongView {
        y: START_Y as int,
        ops: Seq::empty(),
        used: Seq::empty(),
        local: Map::empty(),
        diagnostics: Seq::empty(),
    }
}

/// How far below the line before it a lyric line stands.
pub open spec fn lyrics_drop(segs: Seq<Seq<char>>) -> int {
    if segs.len() > 1 {
        CHORDED_DROP as int
    } else {
        LYRICS_DROP as int
    }
}

/// The song `s` with a heading added below what it has.
pub open spec fn with_heading(s: SongView, font: Font, size: int, drop: int, text: Seq<char>) -> SongView {
    SongView { y: s.y - drop, ops: s.ops.push(heading_op(font, size, s.y - drop, text)), ..s }
}

/// The song `s` after the expression `p`, texts measured by `m`.
///
/// A title, subtitle or comment is drawn as a heading. A chord definition
/// is remembered, in place of any earlier one of that name. A lyric line is
/// drawn and its chords are added to the chords used. The diagnostic that
/// came with the expression is kept.
pub open spec fn step(m: spec_fn(Font, Seq<char>) -> u32, s: SongView, p: ParsedLineView) -> SongView {
    let s = match p.diagnostic {
        Some(d) => SongView { diagnostics: s.diagnostics.push(d), ..s },
        None => s,
    };
    match p.expr {
        ExpressionView::Title { s: text } => with_heading(s, Font::TimesBold, 18, TITLE_DROP as int, text),
        ExpressionView::SubTitle { s: text } => with_heading(
            s,
            Font::TimesItalic,
            16,
            SUBTITLE_DROP as int,
            text,
        ),
        ExpressionView::Comment { s: text } => with_heading(
            s,
            Font::TimesItalic,
            14,
            COMMENT_DROP as int,
            text,
        ),
        ExpressionView::ChordDef { name, def } => SongView { local: s.local.insert(name, def), ..s },
        ExpressionView::Line { s: segs } => SongView {
            y: s.y - lyrics_drop(segs),
            ops: s.ops + line_ops(segs, measured(m, segs), s.y - lyrics_drop(segs)),
            used: chords_noted(s.used, segs, segs.len() as int),
            ..s
        },
    }
}

/// The song `s` after the lines `lines`, comment lines passed over.
pub open spec fn play(m: spec_fn(Font, Seq<char>) -> u32, s: SongView, lines: Seq<Seq<char>>) -> SongView
    decreases lines.len(),
{
    if lines.len() == 0 {
        s
    } else if is_comment(lines[0]) {
        play(m, s, lines.drop_first())
    } else {
        play(m, step(m, s, parsed(lines[0])), lines.drop_first())
    }
}

/// Whether every text of `p` that will be measured is short enough for it.
pub open spec fn fits(p: ParsedLineView) -> bool {
    match p.expr {
        ExpressionView::Line { s } => measurable(s),
        _ => true,
    }
}

// ---------------------------------------------------------------------------
// The page
// ---------------------------------------------------------------------------

/// A rendered song: its drawing operations, and what there is to tell the
/// user about it.
#[derive(Debug, Clone, PartialEq, Eq)]
pub struct Page {
    pub ops: Vec<DrawOp>,
    pub diagnostics: Vec<Diagnostic>,
}

/// The mathematical value of a [`Page`].
pub struct PageView {
    pub ops: Seq<DrawOpView>,
    pub diagnostics: Seq<DiagnosticView>,
}

impl View for Page {
    type V = PageView;

    open spec fn view(&self) -> PageView {
        PageView { ops: ops_view(self.ops@), diagnostics: notes_view(self.diagnostics@) }
    }
}

/// Where the grid of the diagram with index `i` starts, when `count`
/// diagrams are drawn: the diagrams stand side by side and the room of the
/// last one ends at the right edge of the page.
pub open spec fn diagram_left(count: int, i: int) -> int {
    PAGE_WIDTH - count * DIAGRAM_PITCH + i * DIAGRAM_PITCH
}

/// The diagrams of the first `n` chords used.
pub open spec fn diagrams(
    used: Seq<Seq<char>>,
    local: Map<Seq<char>, Seq<i8>>,
    known: Map<Seq<char>, Seq<i8>>,
    n: int,
) -> Seq<DrawOpView>
    decreases n,
{
    if n <= 0 {
        Seq::empty()
    } else {
        diagrams(used, local, known, n - 1) + chord_ops(
            diagram_left(used.len() as int, n - 1),
            DIAGRAM_TOP as int,
            used[n - 1],
            resolved(used[n - 1], local, known),
        )
    }
}

/// The diagnostics for those of the first `n` chords used that nothing
/// defines.
pub open spec fn undefined(
    used: Seq<Seq<char>>,
    local: Map<Seq<char>, Seq<i8>>,
    known: Map<Seq<char>, Seq<i8>>,
    n: int,
) -> Seq<DiagnosticView>
    decreases n,
{
    if n <= 0 {
        Seq::empty()
    } else if is_defined(used[n - 1], local, known) {
        undefined(used, local, known, n - 1)
    } else {
        undefined(used, local, known, n - 1).push(DiagnosticView::UnknownChord { name: used[n - 1] })
    }
}

/// The page of the song `s`: what has been drawn, then the diagrams of the
/// chords used, resolved first in the song's own definitions and then in
/// `known`.
pub open spec fn finished(s: SongView, known: Map<Seq<char>, Seq<i8>>) -> PageView {
    PageView {
        ops: s.ops + diagrams(s.used, s.local, known, s.used.len() as int),
        diagnostics: s.diagnostics + undefined(s.used, s.local, known, s.used.len() as int),
    }
}

/// The page of the song with the lines `lines`, texts measured by `m`.
pub open spec fn song_page(m: spec_fn(Font, Seq<char>) -> u32, lines: Seq<Seq<char>>) -> PageView {
    finished(play(m, start(), lines), known_chords())
}

/// The state of a song while its lines are read.
pub struct Song {
    y: i128,
    ops: Vec<DrawOp>,
    used: Vec<String>,
    local: ChordTable,
    diagnostics: Vec<Diagnostic>,
}

impl View for Song {
    type V = SongView;

    closed spec fn view(&self) -> SongView {
        SongView {
            y: self.y as int,
            ops: ops_view(self.ops@),
            used: self.used.deep_view(),
            local: self.local@,
            diagnostics: notes_view(self.diagnostics@),
        }
    }
}

fn note(notes: &mut Vec<Diagnostic>, d: Diagnostic)
    ensures
        notes_view(final(notes)@) == notes_view(old(notes)@).push(d@),
{
    notes.push(d);
    assert(notes_view(notes@) =~= notes_view(old(notes)@).push(d@));
}

impl Song {
    /// A song of which nothing has been read.
    pub fn new() -> (song: Song)
        ensures
            song@ == start(),
    {
        let song = Song {
            y: START_Y,
            ops: Vec::new(),
            used: Vec::new(),
            local: ChordTable::new(),
            diagnostics: Vec::new(),
        };
        assert(ops_view(song.ops@) =~= Seq::<DrawOpView>::empty());
        assert(song.used.deep_view() =~= Seq::<Seq<char>>::empty());
        assert(notes_view(song.diagnostics@) =~= Seq::<DiagnosticView>::empty());
        song
    }

    /// The base line of the last line drawn.
    pub fn baseline(&self) -> (y: i128)
        ensures
            y == self@.y,
    {
        self.y
    }

    /// Takes the next expression of the song. There must be room below the
    /// last line, which there is unless the song has run off the page by
    /// more than any song can, and the expression must fit.
    pub fn add(&mut self, line: ParsedLine)
        requires
            old(self)@.y >= -REACH,
            fits(line@),
        ensures
            final(self)@ == step(font_metrics(), old(self)@, line@),
    {
        let ParsedLine { expr, diagnostic } = line;
        match diagnostic {
            Some(d) => {
                note(&mut self.diagnostics, d);
            },
            None => {},
        }
        match expr {
            ChordFileExpression::Title { s } => {
                self.y = self.y - TITLE_DROP;
                emit(&mut self.ops, heading(Font::TimesBold, 18, self.y, s));
            },
            ChordFileExpression::SubTitle { s } => {
                self.y = self.y - SUBTITLE_DROP;
                emit(&mut self.ops, heading(Font::TimesItalic, 16, self.y, s));
            },
            ChordFileExpression::Comment { s } => {
                self.y = self.y - COMMENT_DROP;
                emit(&mut self.ops, heading(Font::TimesItalic, 14, self.y, s));
            },
            ChordFileExpression::ChordDef { name, def } => {
                self.local.insert(name, def);
            },
            ChordFileExpression::Line { s } => {
                let drop = if s.len() > 1 {
                    CHORDED_DROP
                } else {
                    LYRICS_DROP
                };
                self.y = self.y - drop;
                let ops = lyric_line(&s, self.y);
                emit_all(&mut self.ops, ops);
                note_chords(&mut self.used, &s);
            },
        }
    }

    /// Ends the song: draws the diagrams of the chords used and hands out
    /// the page.
    pub fn finish(self, known: &ChordTable) -> (page: Page)
        ensures
            page@ == finished(self@, known@),
    {
        let ghost s = self@;
        let Song { ops, used, local, diagnostics, .. } = self;
        let mut ops = ops;
        let mut diagnostics = diagnostics;
        let n = used.len();
        let mut x: i128 = PAGE_WIDTH - n as i128 * DIAGRAM_PITCH;
        let mut i: usize = 0;
        proof {
            assert(ops_view(ops@) + Seq::<DrawOpView>::empty() =~= ops_view(ops@));
            assert(notes_view(diagnostics@) + Seq::<DiagnosticView>::empty() =~= notes_view(diagnostics@));
        }
        while i < n
            invariant
                0 <= i <= n,
                n == used@.len(),
                s.used == used.deep_view(),
                s.local == local@,
                x == diagram_left(n as int, i as int),
                ops_view(ops@) == s.ops + diagrams(s.used, s.local, known@, i as int),
                notes_view(diagnostics@) == s.diagnostics + undefined(s.used, s.local, known@, i as int),
            decreases n - i,
        {
            let name = used[i].as_str();
            assert(name@ == s.used[i as int]);
            let r = resolve(name, &local, known);
            if !r.defined {
                note(&mut diagnostics, Diagnostic::UnknownChord { name: name.to_owned() });
            }
            emit_all(&mut ops, chordbox(x, DIAGRAM_TOP, name, &r.def));
            x = x + DIAGRAM_PITCH;
            i += 1;
            proof {
                assert(ops_view(ops@) =~= s.ops + diagrams(s.used, s.local, known@, i as int));
                assert(notes_view(diagnostics@) =~= s.diagnostics + undefined(
                    s.used,
                    s.local,
                    known@,
                    i as int,
                ));
            }
        }
        Page { ops, diagnostics }
    }
}

// ---------------------------------------------------------------------------
// Rendering
// ---------------------------------------------------------------------------

proof fn lemma_first_content_shift(lines: Seq<Seq<char>>, from: int)
    requires
        0 <= from,
        lines.len() > 0,
    ensures
        first_content(lines, from + 1) == first_content(lines.drop_first(), from) + 1,
    decreases lines.len() - from,
{
    let rest = lines.drop_first();
    if from < rest.len() {
        assert(rest[from] == lines[from + 1]);
        if is_comment(rest[from]) {
            lemma_first_content_shift(lines, from + 1);
        }
    }
}

proof fn lemma_play_skips(m: spec_fn(Font, Seq<char>) -> u32, s: SongView, lines: Seq<Seq<char>>)
    ensures
        ({
            let k = first_content(lines, 0);
            if k < lines.len() {
                play(m, s, lines) == play(m, step(m, s, parsed(lines[k])), lines.skip(k + 1))
            } else {
                play(m, s, lines) == s
            }
        }),
    decreases lines.len(),
{
    if lines.len() > 0 {
        let rest = lines.drop_first();
        if is_comment(lines[0]) {
            lemma_first_content_shift(lines, 0);
            lemma_play_skips(m, s, rest);
            lemma_first_content(rest, 0);
            let k = first_content(rest, 0);
            if k < rest.len() {
                assert(rest[k] == lines[k + 1]);
                assert(rest.skip(k + 1) =~= lines.skip(k + 2));
            }
        } else {
            assert(lines.skip(1) =~= rest);
        }
    }
}

/// The chords used stay in the order of their names, each of them once,
/// whatever the song goes on with. So the diagrams of a page stand in the
/// order of the chords' names.
pub proof fn lemma_play_keeps_sorted(m: spec_fn(Font, Seq<char>) -> u32, s: SongView, lines: Seq<Seq<char>>)
    requires
        increasing(s.used),
    ensures
        increasing(play(m, s, lines).used),
    decreases lines.len(),
{
    if lines.len() > 0 {
        if is_comment(lines[0]) {
            lemma_play_keeps_sorted(m, s, lines.drop_first());
        } else {
            let p = parsed(lines[0]);
            let next = step(m, s, p);
            match p.expr {
                ExpressionView::Line { s: segs } => {
                    lemma_chords_stay_sorted(s.used, segs, segs.len() as int);
                },
                _ => {},
            }
            lemma_play_keeps_sorted(m, next, lines.drop_first());
        }
    }
}

/// Whether `line` defines the chord `name`.
pub open spec fn defines(line: Seq<char>, name: Seq<char>) -> bool {
    &&& !is_comment(line)
    &&& parsed(line).expr is ChordDef
    &&& parsed(line).expr->name == name
}

/// A definition that the song has made holds to the end of the song, as
/// long as no later line defines the same name again.
pub proof fn lemma_definition_lasts(
    m: spec_fn(Font, Seq<char>) -> u32,
    s: SongView,
    lines: Seq<Seq<char>>,
    name: Seq<char>,
)
    requires
        s.local.dom().contains(name),
        forall|i: int| 0 <= i < lines.len() ==> !defines(#[trigger] lines[i], name),
    ensures
        play(m, s, lines).local.dom().contains(name),
        play(m, s, lines).local[name] == s.local[name],
    decreases lines.len(),
{
    if lines.len() > 0 {
        let rest = lines.drop_first();
        assert forall|i: int| 0 <= i < rest.len() implies !defines(#[trigger] rest[i], name) by {
            assert(rest[i] == lines[i + 1]);
        }
        assert(!defines(lines[0], name));
        if is_comment(lines[0]) {
            lemma_definition_lasts(m, s, rest, name);
        } else {
            lemma_definition_lasts(m, step(m, s, parsed(lines[0])), rest, name);
        }
    }
}

/// A line that defines a chord gives the name its shape, whatever the
/// name stood for before; at the end of the song the name resolves to that
/// shape, whatever the known chords say, unless a later line defines the
/// name again.
pub proof fn lemma_definition_resolves_in_song(
    m: spec_fn(Font, Seq<char>) -> u32,
    s: SongView,
    line: Seq<char>,
    later: Seq<Seq<char>>,
    known: Map<Seq<char>, Seq<i8>>,
)
    requires
        !is_comment(line),
        parsed(line).expr is ChordDef,
        forall|i: int| 0 <= i < later.len() ==> !defines(#[trigger] later[i], parsed(line).expr->name),
    ensures
        resolved(
            parsed(line).expr->name,
            play(m, s, seq![line] + later).local,
            known,
        ) == parsed(line).expr->def,
{
    let lines = seq![line] + later;
    assert(lines[0] == line);
    assert(lines.drop_first() =~= later);
    lemma_definition_lasts(m, step(m, s, parsed(line)), later, parsed(line).expr->name);
}

/// The room of the last diagram of a page ends at the right edge of the
/// page, and each diagram stands one pitch to the right of the one before.
pub proof fn lemma_diagrams_end_at_the_edge(count: int, i: int)
    requires
        0 < count,
    ensures
        diagram_left(count, count - 1) + DIAGRAM_PITCH == PAGE_WIDTH,
        diagram_left(count, i + 1) == diagram_left(count, i) + DIAGRAM_PITCH,
{
}

/// Whether every text of the song that will be measured is short enough
/// for it.
pub open spec fn song_fits(lines: Seq<Seq<char>>) -> bool {
    forall|i: int| 0 <= i < lines.len() && !is_comment(#[trigger] lines[i]) ==> fits(parsed(lines[i]))
}

/// Whether no line is longer than what can be measured.
pub open spec fn all_short(lines: Seq<Seq<char>>) -> bool {
    forall|i: int| 0 <= i < lines.len() ==> (#[trigger] lines[i]).len() <= MAX_MEASURED
}

/// A line that is short enough to be measured gives an expression whose
/// texts are.
pub proof fn lemma_parsed_fits(line: Seq<char>)
    requires
        line.len() <= MAX_MEASURED,
    ensures
        fits(parsed(line)),
{
    if parsed(line).expr is Line {
        lemma_parsed_lyrics(line);
        lemma_segments_within(line, 0);
    }
}

/// A song without overlong lines can be measured.
pub proof fn lemma_short_lines_fit(lines: Seq<Seq<char>>)
    requires
        all_short(lines),
    ensures
        song_fits(lines),
{
    assert forall|i: int| 0 <= i < lines.len() && !is_comment(#[trigger] lines[i]) implies fits(
        parsed(lines[i]),
    ) by {
        lemma_parsed_fits(lines[i]);
    }
}

/// Tells whether every text of `line` that will be measured is short
/// enough for it.
pub fn line_fits(line: &ParsedLine) -> (b: bool)
    ensures
        b == fits(line@),
{
    match &line.expr {
        ChordFileExpression::Line { s } => {
            let mut i: usize = 0;
            while i < s.len()
                invariant
                    0 <= i <= s@.len(),
                    line@.expr == (ExpressionView::Line { s: s.deep_view() }),
                    forall|k: int| 0 <= k < i ==> (#[trigger] s.deep_view()[k]).len() <= MAX_MEASURED,
                decreases s@.len() - i,
            {
                if s[i].as_str().unicode_len() > MAX_MEASURED {
                    assert(s.deep_view()[i as int].len() > MAX_MEASURED);
                    return false;
                }
                i += 1;
            }
            true
        },
        _ => true,
    }
}

/// Renders the song with the lines `lines`.
///
/// The result is the song's page, unless the song holds a text that is too
/// long to be measured: then nothing is rendered.
pub fn render_song(lines: Vec<String>) -> (r: Option<Page>)
    ensures
        r is Some <==> song_fits(lines.deep_view()),
        r matches Some(page) ==> page@ == song_page(font_metrics(), lines.deep_view()),
{
    let ghost all = lines.deep_view();
    let ghost m = font_metrics();
    let total = lines.len();
    let known = get_known_chords();
    let mut parser = ChoproParser::new(lines);
    let mut song = Song::new();
    assert(all.skip(0) =~= all);
    loop
        invariant
            m == font_metrics(),
            all == lines.deep_view(),
            total == all.len(),
            known@ == known_chords(),
            play(m, song@, parser.remaining()) == play(m, start(), all),
            parser.remaining().len() <= total,
            parser.remaining() == all.skip(total - parser.remaining().len()),
            forall|i: int|
                0 <= i < total - parser.remaining().len() && !is_comment(#[trigger] all[i]) ==> fits(
                    parsed(all[i]),
                ),
            song@.y >= START_Y - CHORDED_DROP * (total - parser.remaining().len()),
        decreases parser.remaining().len(),
    {
        let ghost rest = parser.remaining();
        let ghost before = song@;
        let ghost done = total - rest.len();
        proof {
            lemma_play_skips(m, before, rest);
            lemma_first_content(rest, 0);
            assert forall|j: int| 0 <= j < rest.len() implies #[trigger] rest[j] == all[done + j] by {}
        }
        match parser.next() {
            Some(p) => {
                let ghost k = first_content(rest, 0);
                assert(rest[k] == all[done + k]);
                if !line_fits(&p) {
                    return None;
                }
                proof {
                    assert(rest.skip(k + 1) =~= all.skip(done + k + 1));
                    assert forall|i: int|
                        0 <= i < done + k + 1 && !is_comment(#[trigger] all[i]) implies fits(
                        parsed(all[i]),
                    ) by {
                        if done <= i < done + k {
                            assert(is_comment(rest[i - done]));
                        }
                    }
                }
                song.add(p);
            },
            None => {
                proof {
                    assert forall|i: int| 0 <= i < all.len() && !is_comment(#[trigger] all[i]) implies fits(
                        parsed(all[i]),
                    ) by {
                        if done <= i {
                            assert(is_comment(rest[i - done]));
                        }
                    }
                }
                return Some(song.finish(&known));
            },
        }
    }
}

/// The page of a song is settled by its lines and by the widths that the
/// measuring gives: two ways of measuring that give the same widths give
/// the same page, operation for operation.
pub proof fn lemma_page_is_determined(
    m1: spec_fn(Font, Seq<char>) -> u32,
    m2: spec_fn(Font, Seq<char>) -> u32,
    lines: Seq<Seq<char>>,
)
    requires
        forall|font: Font, text: Seq<char>| #[trigger] m1(font, text) == m2(font, text),
    ensures
        song_page(m1, lines) == song_page(m2, lines),
{
    assert(m1 =~= m2);
}

} // verus!
