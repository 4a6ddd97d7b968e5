use chord3::chords::get_known_chords;
use chord3::diagram::chordbox;
use chord3::expr::{ChordFileExpression, Diagnostic, ParsedLine};
use chord3::layout::{heading, lyric_line};
use chord3::page::{Align, DrawOp, Font};
use chord3::song::{line_fits, render_song, Page, Song};

fn lines(items: &[&str]) -> Vec<String> {
    items.iter().map(|s| s.to_string()).collect()
}

fn render(items: &[&str]) -> Page {
    render_song(lines(items)).unwrap()
}

fn diagram_names(page: &Page) -> Vec<(String, i128, i128)> {
    page.ops
        .iter()
        .filter_map(|op| match op {
            DrawOp::Text { align: Align::Center, text, x, y, .. } => Some((text.clone(), *x, *y)),
            _ => None,
        })
        .collect()
}

#[test]
fn title_alone() {
    let page = render(&["{title: Test Song}"]);
    assert_eq!(page.ops, vec![heading(Font::TimesBold, 18, 792_000, "Test Song".to_string())]);
    assert_eq!(page.diagnostics, Vec::new());
}

#[test]
fn song_of_nothing() {
    let page = render_song(Vec::new()).unwrap();
    assert_eq!(page, Page { ops: Vec::new(), diagnostics: Vec::new() });
    assert_eq!(render(&["# only", "  # comments"]), page);
}

#[test]
fn headings_move_down_the_page() {
    let page = render(&["{t: One}", "{st: Two}", "{c: Three}", "# skipped", "{subtitle: Four}"]);
    assert_eq!(
        page.ops,
        vec![
            heading(Font::TimesBold, 18, 792_000, "One".to_string()),
            heading(Font::TimesItalic, 16, 774_000, "Two".to_string()),
            heading(Font::TimesItalic, 14, 760_000, "Three".to_string()),
            heading(Font::TimesItalic, 16, 742_000, "Four".to_string()),
        ]
    );
}

#[test]
fn lyrics_with_chords_take_more_room() {
    let page = render(&["plain words", "La[C]la[G]la", "more words"]);
    let mut expected = lyric_line(&lines(&["plain words"]), 795_200);
    expected.extend(lyric_line(&lines(&["La", "C", "la", "G", "la"]), 766_400));
    expected.extend(lyric_line(&lines(&["more words"]), 749_600));
    expected.extend(chordbox(516_000, 80_000, "C", &[-1, -1, 3, 2, 0, 1, 0]));
    expected.extend(chordbox(556_000, 80_000, "G", &[-1, 3, 2, 0, 0, 0, 3]));
    assert_eq!(page.ops, expected);
    assert_eq!(page.diagnostics, Vec::new());
}

#[test]
fn chords_used_get_diagrams() {
    let page = render(&["La[C]la[G]la"]);
    assert_eq!(
        diagram_names(&page),
        vec![("C".to_string(), 526_000, 87_000), ("G".to_string(), 566_000, 87_000)]
    );
}

#[test]
fn diagrams_stand_in_the_order_of_the_names() {
    let page = render(&["[G]a[C]b[Am]c", "[C]d[G]e[D7]f[Am]"]);
    let names: Vec<String> = diagram_names(&page).into_iter().map(|d| d.0).collect();
    assert_eq!(names, lines(&["Am", "C", "D7", "G"]));
    let lefts: Vec<i128> = diagram_names(&page).into_iter().map(|d| d.1).collect();
    assert_eq!(lefts, vec![446_000, 486_000, 526_000, 566_000]);
}

#[test]
fn repeat_marks_get_no_diagram() {
    let page = render(&["a[%]b[]c[C]d[%]"]);
    assert_eq!(diagram_names(&page), vec![("C".to_string(), 566_000, 87_000)]);
    assert_eq!(page.diagnostics, Vec::new());
}

#[test]
fn defined_chord_is_drawn_with_its_barre() {
    let page = render(&["{define: X base-fret 2 frets 2 2 1 0 0 0}", "La[X]la"]);
    let mut expected = lyric_line(&lines(&["La", "X", "la"]), 783_200);
    expected.extend(chordbox(556_000, 80_000, "X", &[2, 2, 2, 1, 0, 0, 0]));
    assert_eq!(page.ops, expected);
    assert!(page.ops.iter().any(|op| matches!(op,
        DrawOp::Text { align: Align::Right, text, .. } if text == "2")));
    assert!(!page.ops.contains(&DrawOp::LineWidth { width: 1_000 }));
    assert_eq!(page.diagnostics, Vec::new());
}

#[test]
fn definition_may_follow_the_use() {
    let page = render(&["La[C]la", "{define: C base-fret 3 frets x 1 3 3 3 1}"]);
    let mut expected = lyric_line(&lines(&["La", "C", "la"]), 783_200);
    expected.extend(chordbox(556_000, 80_000, "C", &[3, -1, 1, 3, 3, 3, 1]));
    assert_eq!(page.ops, expected);
}

#[test]
fn last_definition_counts() {
    let page = render(&[
        "{define: X base-fret 2 frets 2 2 1 0 0 0}",
        "[X]",
        "{define: X base-fret 4 frets x x 1 1 1 1}",
    ]);
    let mut expected = lyric_line(&lines(&["", "X", ""]), 783_200);
    expected.extend(chordbox(556_000, 80_000, "X", &[4, -1, -1, 1, 1, 1, 1]));
    assert_eq!(page.ops, expected);
}

#[test]
fn unknown_chord_gets_an_empty_diagram() {
    let page = render(&["La[Zz]la[C]la", "{c: goes on}"]);
    let mut expected = lyric_line(&lines(&["La", "Zz", "la", "C", "la"]), 783_200);
    expected.push(heading(Font::TimesItalic, 14, 769_200, "goes on".to_string()));
    expected.extend(chordbox(516_000, 80_000, "C", &[-1, -1, 3, 2, 0, 1, 0]));
    expected.extend(chordbox(556_000, 80_000, "Zz", &[0, -2, -2, -2, -2, -2, -2]));
    assert_eq!(page.ops, expected);
    assert_eq!(page.diagnostics, vec![Diagnostic::UnknownChord { name: "Zz".to_string() }]);
}

#[test]
fn diagnostics_come_in_order() {
    let page = render(&["{soc}", "[H]", "{define: bad}", "{eoc}"]);
    assert_eq!(
        page.diagnostics,
        vec![
            Diagnostic::UnknownExpression { cmd: "soc".to_string() },
            Diagnostic::BadChordDefinition { text: "{define: bad}".to_string() },
            Diagnostic::UnknownExpression { cmd: "eoc".to_string() },
            Diagnostic::UnknownChord { name: "H".to_string() },
        ]
    );
    assert_eq!(page.ops[0], heading(Font::TimesItalic, 14, 798_000, "{soc}".to_string()));
}

#[test]
fn rendering_twice_gives_the_same_page() {
    let source = lines(&[
        "{title: Twice}",
        "{define: X base-fret 2 frets 2 2 1 0 0 0}",
        "# comment",
        "La[C]la la[G]la[X][Unknown]",
        "{whatever}",
    ]);
    let first = render_song(source.clone());
    assert!(first.is_some());
    assert_eq!(first, render_song(source));
}

#[test]
fn song_built_step_by_step() {
    let mut song = Song::new();
    assert_eq!(song.baseline(), 812_000);
    song.add(ParsedLine { expr: ChordFileExpression::Title { s: "T".to_string() }, diagnostic: None });
    assert_eq!(song.baseline(), 792_000);
    song.add(ParsedLine {
        expr: ChordFileExpression::ChordDef { name: "G".to_string(), def: [3, 1, 1, 1, 1, 1, 1] },
        diagnostic: None,
    });
    song.add(ParsedLine {
        expr: ChordFileExpression::Line { s: lines(&["a", "G", "b"]) },
        diagnostic: Some(Diagnostic::UnknownExpression { cmd: "kept".to_string() }),
    });
    let page = song.finish(&get_known_chords());
    let mut expected = vec![heading(Font::TimesBold, 18, 792_000, "T".to_string())];
    expected.extend(lyric_line(&lines(&["a", "G", "b"]), 763_200));
    expected.extend(chordbox(556_000, 80_000, "G", &[3, 1, 1, 1, 1, 1, 1]));
    assert_eq!(page.ops, expected);
    assert_eq!(page.diagnostics, vec![Diagnostic::UnknownExpression { cmd: "kept".to_string() }]);
    assert_eq!(page.ops, render(&["{t:T}", "{define: G base-fret 3 frets 1 1 1 1 1 1}", "a[G]b"]).ops);
}

#[test]
fn overlong_text_is_not_rendered() {
    let long = "x".repeat(32_769);
    assert_eq!(render_song(vec!["{t: fine}".to_string(), format!("a[C]{}", long)]), None);
    assert_eq!(render_song(vec![format!("[{}]", long)]), None);
    let page = render_song(vec![format!("# {}", long), format!("{{c: {}}}", long), "x".repeat(32_768)]);
    assert_eq!(page.unwrap().ops.len(), 2);
}

#[test]
fn fitting_lines() {
    let fine = ParsedLine { expr: ChordFileExpression::Line { s: lines(&["a", "C", ""]) }, diagnostic: None };
    assert!(line_fits(&fine));
    let long = ParsedLine {
        expr: ChordFileExpression::Line { s: vec!["a".to_string(), "C".repeat(32_769)] },
        diagnostic: None,
    };
    assert!(!line_fits(&long));
    let title = ParsedLine { expr: ChordFileExpression::Title { s: "T".repeat(40_000) }, diagnostic: None };
    assert!(line_fits(&title));
}
