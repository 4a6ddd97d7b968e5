use chord3::expr::{ChordFileExpression, Diagnostic, ParsedLine};
use chord3::parser::{
    define_classed, is_comment_classed, is_comment_line, parse_classed, parse_define, parse_line, split_chars,
    split_lyrics, ChoproParser,
};
use chord3::text::{classify, part_of, plain_chars, Classed};

fn plain(expr: ChordFileExpression) -> ParsedLine {
    ParsedLine { expr, diagnostic: None }
}

fn strings(items: &[&str]) -> Vec<String> {
    items.iter().map(|s| s.to_string()).collect()
}

fn classes(s: &str, word: fn(char) -> bool, space: fn(char) -> bool) -> Vec<Classed> {
    s.chars().map(|c| Classed { c, word: word(c), space: space(c) }).collect()
}

fn strip(s: &str) -> String {
    s.chars().filter(|&c| c != '[' && c != ']').collect()
}

#[test]
fn title_directive_gives_title() {
    assert_eq!(
        parse_line("{title: Test Song}"),
        plain(ChordFileExpression::Title { s: "Test Song".to_string() })
    );
}

#[test]
fn short_title_directive() {
    assert_eq!(parse_line("{t:Short}"), plain(ChordFileExpression::Title { s: "Short".to_string() }));
}

#[test]
fn subtitle_directives() {
    assert_eq!(
        parse_line("{subtitle: By someone}"),
        plain(ChordFileExpression::SubTitle { s: "By someone".to_string() })
    );
    assert_eq!(parse_line("{st: Trad.}"), plain(ChordFileExpression::SubTitle { s: "Trad.".to_string() }));
}

#[test]
fn comment_directive() {
    assert_eq!(parse_line("{c: Chorus}"), plain(ChordFileExpression::Comment { s: "Chorus".to_string() }));
}

#[test]
fn directive_without_colon() {
    assert_eq!(parse_line("{title Test}"), plain(ChordFileExpression::Title { s: "Test".to_string() }));
}

#[test]
fn directive_without_argument() {
    assert_eq!(parse_line("{title}"), plain(ChordFileExpression::Title { s: String::new() }));
    assert_eq!(parse_line("{c:}"), plain(ChordFileExpression::Comment { s: String::new() }));
}

#[test]
fn directive_after_other_text() {
    assert_eq!(parse_line("La la {c: note}"), plain(ChordFileExpression::Comment { s: "note".to_string() }));
}

#[test]
fn directive_reaches_to_last_brace() {
    assert_eq!(parse_line("{c: a} b}"), plain(ChordFileExpression::Comment { s: "a} b".to_string() }));
}

#[test]
fn command_is_the_whole_word() {
    assert_eq!(
        parse_line("{titles: x}"),
        ParsedLine {
            expr: ChordFileExpression::Comment { s: "{titles: x}".to_string() },
            diagnostic: Some(Diagnostic::UnknownExpression { cmd: "titles".to_string() }),
        }
    );
}

#[test]
fn unknown_command_becomes_comment() {
    assert_eq!(
        parse_line("see {soc} here"),
        ParsedLine {
            expr: ChordFileExpression::Comment { s: "{soc}".to_string() },
            diagnostic: Some(Diagnostic::UnknownExpression { cmd: "soc".to_string() }),
        }
    );
}

#[test]
fn commands_are_case_sensitive() {
    assert_eq!(
        parse_line("{Title: x}"),
        ParsedLine {
            expr: ChordFileExpression::Comment { s: "{Title: x}".to_string() },
            diagnostic: Some(Diagnostic::UnknownExpression { cmd: "Title".to_string() }),
        }
    );
}

#[test]
fn brace_without_word_is_lyrics() {
    assert_eq!(parse_line("{ x}"), plain(ChordFileExpression::Line { s: strings(&["{ x}"]) }));
    assert_eq!(parse_line("{-}"), plain(ChordFileExpression::Line { s: strings(&["{-}"]) }));
    assert_eq!(parse_line("{title"), plain(ChordFileExpression::Line { s: strings(&["{title"]) }));
}

#[test]
fn later_brace_can_open_the_directive() {
    assert_eq!(parse_line("{ {c: x}"), plain(ChordFileExpression::Comment { s: "x".to_string() }));
}

#[test]
fn accented_letters_are_word_characters() {
    assert_eq!(
        parse_line("{\u{e9}t\u{e9}}"),
        ParsedLine {
            expr: ChordFileExpression::Comment { s: "{\u{e9}t\u{e9}}".to_string() },
            diagnostic: Some(Diagnostic::UnknownExpression { cmd: "\u{e9}t\u{e9}".to_string() }),
        }
    );
}

#[test]
fn define_directive_gives_chord() {
    assert_eq!(
        parse_line("{define: X base-fret 2 frets 2 2 1 0 0 0}"),
        plain(ChordFileExpression::ChordDef { name: "X".to_string(), def: [2, 2, 2, 1, 0, 0, 0] })
    );
}

#[test]
fn define_takes_muted_strings_and_any_case() {
    assert_eq!(
        parse_line("{define: Am7 BASE-FRET x Frets X 0 2 0 1 0}"),
        plain(ChordFileExpression::ChordDef { name: "Am7".to_string(), def: [-1, -1, 0, 2, 0, 1, 0] })
    );
}

#[test]
fn bad_define_becomes_comment() {
    let whole = "{define: X base-fret 9 frets 1 2 3 4 5 5}";
    assert_eq!(
        parse_line(whole),
        ParsedLine {
            expr: ChordFileExpression::Comment { s: whole.to_string() },
            diagnostic: Some(Diagnostic::BadChordDefinition { text: whole.to_string() }),
        }
    );
}

#[test]
fn parse_define_reads_all_values() {
    assert_eq!(
        parse_define("Dsus4 base-fret 1 frets x x 0 2 3 3"),
        Some(("Dsus4".to_string(), [1, -1, -1, 0, 2, 3, 3]))
    );
    assert_eq!(
        parse_define("E5 base-fret 0 frets 0 1 2 3 4 5"),
        Some(("E5".to_string(), [0, 0, 1, 2, 3, 4, 5]))
    );
}

#[test]
fn parse_define_allows_space_at_the_end_only() {
    assert_eq!(
        parse_define("X  base-fret\t2   frets 2 2 1 0 0 0  "),
        Some(("X".to_string(), [2, 2, 2, 1, 0, 0, 0]))
    );
    assert_eq!(parse_define(" X base-fret 2 frets 2 2 1 0 0 0"), None);
}

#[test]
fn parse_define_rejects_what_is_no_definition() {
    assert_eq!(parse_define(""), None);
    assert_eq!(parse_define("X base-fret 2 frets 2 2 1 0 0"), None);
    assert_eq!(parse_define("X base-fret 2 frets 2 2 1 0 0 0 0"), None);
    assert_eq!(parse_define("X base-fret 2 frets 2 2 1 0 0 6"), None);
    assert_eq!(parse_define("X base-fret 22 frets 2 2 1 0 0 0"), None);
    assert_eq!(parse_define("X basefret 2 frets 2 2 1 0 0 0"), None);
    assert_eq!(parse_define("X base-fret 2 fret 2 2 1 0 0 0"), None);
    assert_eq!(parse_define("X base-fret y frets 2 2 1 0 0 0"), None);
}

#[test]
fn define_values_are_muted_or_frets() {
    for arg in ["A base-fret x frets x 0 1 2 3 4", "B base-fret 5 frets 5 4 3 X x 0"] {
        let (_, def) = parse_define(arg).unwrap();
        assert_eq!(def.len(), 7);
        assert!(def.iter().all(|&f| f == -1 || (0..=5).contains(&f)));
    }
}

#[test]
fn lyrics_with_chords() {
    assert_eq!(split_lyrics("La[C]la[G]la"), strings(&["La", "C", "la", "G", "la"]));
    assert_eq!(
        parse_line("La[C]la[G]la"),
        plain(ChordFileExpression::Line { s: strings(&["La", "C", "la", "G", "la"]) })
    );
}

#[test]
fn lyrics_without_chords() {
    assert_eq!(split_lyrics("just words"), strings(&["just words"]));
    assert_eq!(split_lyrics(""), strings(&[""]));
}

#[test]
fn lyrics_start_and_end_with_text() {
    assert_eq!(split_lyrics("[C]"), strings(&["", "C", ""]));
    assert_eq!(split_lyrics("La[C]"), strings(&["La", "C", ""]));
    assert_eq!(split_lyrics("[C][G]"), strings(&["", "C", "", "G", ""]));
    assert_eq!(split_lyrics("[]"), strings(&["", "", ""]));
}

#[test]
fn unclosed_chord_runs_to_the_end() {
    assert_eq!(split_lyrics("La[C"), strings(&["La", "C", ""]));
    assert_eq!(split_lyrics("a[b[c"), strings(&["a", "b[c", ""]));
}

#[test]
fn stray_brackets_stay_in_place() {
    assert_eq!(split_lyrics("a]b"), strings(&["a]b"]));
    assert_eq!(split_lyrics("a[b[c]d"), strings(&["a", "b[c", "d"]));
    assert_eq!(split_lyrics("a[b]c]d"), strings(&["a", "b", "c]d"]));
}

#[test]
fn segments_spell_the_line() {
    for line in ["La[C]la[G]la", "", "[C]", "La[C", "a]b[c]]d[[e]", "no chords", "[][][]", "x[%]y[]z"] {
        let segs = split_lyrics(line);
        assert_eq!(segs.len() % 2, 1);
        let texts = segs.iter().step_by(2).count();
        let chords = segs.iter().skip(1).step_by(2).count();
        assert_eq!(chords, texts - 1);
        assert_eq!(strip(&segs.concat()), strip(line));
    }
}

#[test]
fn comment_lines() {
    assert!(is_comment_line("# a comment"));
    assert!(is_comment_line("   \t# indented"));
    assert!(is_comment_line("#"));
    assert!(is_comment_line("\u{a0}# after a no-break space"));
    assert!(!is_comment_line(""));
    assert!(!is_comment_line("   "));
    assert!(!is_comment_line("a # b"));
    assert!(!is_comment_line("{c: # no}"));
}

#[test]
fn parser_passes_over_comment_lines() {
    let mut parser = ChoproParser::new(strings(&["# first", "{t: Song}", "  # second", "La[C]la", "#"]));
    assert_eq!(parser.next(), Some(plain(ChordFileExpression::Title { s: "Song".to_string() })));
    assert_eq!(parser.next(), Some(plain(ChordFileExpression::Line { s: strings(&["La", "C", "la"]) })));
    assert_eq!(parser.next(), None);
    assert_eq!(parser.next(), None);
}

#[test]
fn parser_hands_out_lines() {
    let mut parser = ChoproParser::new(strings(&["one", "# two", "", "three"]));
    assert_eq!(parser.nextline(), Some("one".to_string()));
    assert_eq!(parser.nextline(), Some(String::new()));
    assert_eq!(parser.nextline(), Some("three".to_string()));
    assert_eq!(parser.nextline(), None);
}

#[test]
fn parser_of_nothing() {
    let mut parser = ChoproParser::new(Vec::new());
    assert_eq!(parser.nextline(), None);
    assert_eq!(parser.next(), None);
}

#[test]
fn classify_tells_words_and_spaces() {
    assert_eq!(
        classify("a_ \u{a0}-\u{e9}9\t}"),
        vec![
            Classed { c: 'a', word: true, space: false },
            Classed { c: '_', word: true, space: false },
            Classed { c: ' ', word: false, space: true },
            Classed { c: '\u{a0}', word: false, space: true },
            Classed { c: '-', word: false, space: false },
            Classed { c: '\u{e9}', word: true, space: false },
            Classed { c: '9', word: true, space: false },
            Classed { c: '\t', word: false, space: true },
            Classed { c: '}', word: false, space: false },
        ]
    );
    assert_eq!(classify(""), Vec::new());
}

#[test]
fn classes_can_be_taken_off_and_cut() {
    let v = classify("a b-c");
    assert_eq!(plain_chars(&v), vec!['a', ' ', 'b', '-', 'c']);
    assert_eq!(part_of(&v, 1, 3), classify(" b"));
    assert_eq!(part_of(&v, 5, 5), Vec::new());
}

#[test]
fn the_classes_decide_where_the_command_ends() {
    let dashed = classes("{a-b: x}", |c| c.is_alphanumeric() || c == '-', |c| c == ' ');
    assert_eq!(
        parse_classed(&dashed),
        ParsedLine {
            expr: ChordFileExpression::Comment { s: "{a-b: x}".to_string() },
            diagnostic: Some(Diagnostic::UnknownExpression { cmd: "a-b".to_string() }),
        }
    );
    let short = classes("{c-b: x}", |c| c.is_alphanumeric(), |c| c == ' ');
    assert_eq!(parse_classed(&short), plain(ChordFileExpression::Comment { s: "-b: x".to_string() }));
    let none = classes("{c: x}", |_| false, |c| c == ' ');
    assert_eq!(parse_classed(&none), plain(ChordFileExpression::Line { s: strings(&["{c: x}"]) }));
}

#[test]
fn the_classes_decide_where_the_argument_starts() {
    let dots = classes("{t:..x.}", |c| c.is_alphanumeric(), |c| c == '.');
    assert_eq!(parse_classed(&dots), plain(ChordFileExpression::Title { s: "x.".to_string() }));
    let blanks = classes("{t:..x.}", |c| c.is_alphanumeric(), |c| c == ' ');
    assert_eq!(parse_classed(&blanks), plain(ChordFileExpression::Title { s: "..x.".to_string() }));
}

#[test]
fn the_classes_decide_what_separates_words() {
    let arg = "X_base-fret_2_frets_2_2_1_0_0_0";
    assert_eq!(
        define_classed(&classes(arg, |_| false, |c| c == '_')),
        Some(("X".to_string(), [2, 2, 2, 1, 0, 0, 0]))
    );
    assert_eq!(define_classed(&classes(arg, |_| false, |c| c == ' ')), None);
    let line = classes("{define:X_base-fret_2_frets_2_2_1_0_0_0}", |c| c.is_alphabetic(), |c| c == '_');
    assert_eq!(
        parse_classed(&line),
        plain(ChordFileExpression::ChordDef { name: "X".to_string(), def: [2, 2, 2, 1, 0, 0, 0] })
    );
}

#[test]
fn the_classes_decide_what_may_stand_before_the_sign() {
    assert!(is_comment_classed(&classes("..# x", |_| false, |c| c == '.')));
    assert!(!is_comment_classed(&classes("..# x", |_| false, |c| c == ' ')));
    assert!(is_comment_classed(&classes("#", |_| false, |_| false)));
    assert!(is_comment_classed(&classes("##", |_| false, |c| c == '#')));
    assert!(!is_comment_classed(&classes("", |_| false, |_| true)));
}

#[test]
fn characters_split_like_lines() {
    assert_eq!(split_chars(&"La[C]la[G]la".chars().collect()), strings(&["La", "C", "la", "G", "la"]));
    assert_eq!(split_chars(&Vec::new()), strings(&[""]));
}
