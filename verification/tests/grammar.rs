//! The parser against the grammar written down as regular expressions.

use chord3::expr::{ChordFileExpression, Diagnostic, ParsedLine};
use chord3::parser::{is_comment_line, parse_define, parse_line, split_lyrics};
use regex::Regex;

const COMMENT: &str = r"^\s*#";
const DIRECTIVE: &str = r"\{(?P<cmd>\w+)(?::?\s*(?P<arg>.*))?\}";
const DEFINE: &str = r"(?i)^([\S]+)\s+base-fret\s+([x0-5])\s+frets(?:\s+([x0-5]))(?:\s+([x0-5]))(?:\s+([x0-5]))(?:\s+([x0-5]))(?:\s+([x0-5]))(?:\s+([x0-5]))\s*$";

fn definition(arg: &str) -> Option<(String, [i8; 7])> {
    let caps = Regex::new(DEFINE).unwrap().captures(arg)?;
    let mut def = [0i8; 7];
    for (n, value) in def.iter_mut().enumerate() {
        *value = match &caps[n + 2] {
            "x" | "X" => -1,
            digit => digit.parse().unwrap(),
        };
    }
    Some((caps[1].to_string(), def))
}

fn directive(line: &str) -> Option<ParsedLine> {
    let caps = Regex::new(DIRECTIVE).unwrap().captures(line)?;
    let arg = caps.name("arg").map_or("", |m| m.as_str()).to_string();
    let whole = caps[0].to_string();
    let plain = |expr| ParsedLine { expr, diagnostic: None };
    Some(match &caps["cmd"] {
        "t" | "title" => plain(ChordFileExpression::Title { s: arg }),
        "st" | "subtitle" => plain(ChordFileExpression::SubTitle { s: arg }),
        "c" => plain(ChordFileExpression::Comment { s: arg }),
        "define" => match definition(&arg) {
            Some((name, def)) => plain(ChordFileExpression::ChordDef { name, def }),
            None => ParsedLine {
                expr: ChordFileExpression::Comment { s: whole.clone() },
                diagnostic: Some(Diagnostic::BadChordDefinition { text: whole }),
            },
        },
        cmd => ParsedLine {
            expr: ChordFileExpression::Comment { s: whole },
            diagnostic: Some(Diagnostic::UnknownExpression { cmd: cmd.to_string() }),
        },
    })
}

const LINES: &[&str] = &[
    "",
    " ",
    "{}",
    "{ }",
    "{t}",
    "{t:}",
    "{t: }",
    "{t::x}",
    "{t: :x}",
    "{title: Test Song}",
    "{title:Test Song}",
    "{title Test Song}",
    "{titleTest}",
    "{title:   spaced   }",
    "{title:\t tab}",
    "{title:\u{a0}no-break}",
    "{title:\u{2003}em space}",
    "{st  : x}",
    "{st: a {nested} b}",
    "{subtitle: one} two {three}",
    "{c: a} b}",
    "{c: no end",
    "c: no start}",
    "}{c: x",
    "x}{c: x}",
    "{ {c: x}",
    "{{c: x}}",
    "{-}{c:x}",
    "{a {b}",
    "{a{b}",
    "text {c: after text}",
    "text [C] {c: after chords} more [G]",
    "{t_1: underscore}",
    "{9: digits}",
    "{t9}",
    "{\u{e9}t\u{e9}: accents}",
    "{\u{3b1}\u{3b2}}",
    "{c\u{301}: combining}",
    "{c\u{200d}: joiner}",
    "{c\u{2014}: dash}",
    "{\u{2014}c: dash}",
    "{T: capital}",
    "{Title: capital}",
    "{soc}",
    "{start_of_chorus}",
    "{define: X base-fret 2 frets 2 2 1 0 0 0}",
    "{define:X base-fret 2 frets 2 2 1 0 0 0}",
    "{define X base-fret 2 frets 2 2 1 0 0 0}",
    "{define: X base-fret 2 frets 2 2 1 0 0 0 }",
    "{define: X base-fret 2 frets 2 2 1 0 0 0} }",
    "{define: X BASE-FRET X FRETS x X 5 4 3 0}",
    "{define: X Base-Fret 0 fReTs 0 0 0 0 0 0}",
    "{define: X\tbase-fret\t2\tfrets\t2\t2\t1\t0\t0\t0}",
    "{define: X\u{a0}base-fret\u{2003}2 frets 2 2 1 0 0 0}",
    "{define: a:b base-fret 1 frets 1 1 1 1 1 1}",
    "{define: [C] base-fret 1 frets 1 1 1 1 1 1}",
    "{define: \u{e9} base-fret 1 frets 1 1 1 1 1 1}",
    "{define: X base-fret 6 frets 2 2 1 0 0 0}",
    "{define: X base-fret 2 frets 2 2 1 0 0}",
    "{define: X base-fret 2 frets 2 2 1 0 0 0 0}",
    "{define: X base-fret 2 frets 221000}",
    "{define: X base-fret 2frets 2 2 1 0 0 0}",
    "{define: X base-fret2 frets 2 2 1 0 0 0}",
    "{define: Xbase-fret 2 frets 2 2 1 0 0 0}",
    "{define: X base-fret 12 frets 2 2 1 0 0 0}",
    "{define: X base-fret -1 frets 2 2 1 0 0 0}",
    "{define: X base fret 2 frets 2 2 1 0 0 0}",
    "{define: base-fret 2 frets 2 2 1 0 0 0}",
    "{define: X Y base-fret 2 frets 2 2 1 0 0 0}",
    "{define: X base-fret 2 frets 2 2 1 0 0 y}",
    "{define: X base-fret 2 frets 2 2 1 0 0 \u{664}}",
    "{define:}",
    "{define}",
    "La[C]la[G]la",
    "# {t: comment}",
    "{t: # no comment}",
];

const ARGUMENTS: &[&str] = &[
    "",
    " ",
    "X",
    "X base-fret 2 frets 2 2 1 0 0 0",
    " X base-fret 2 frets 2 2 1 0 0 0",
    "\tX base-fret 2 frets 2 2 1 0 0 0",
    "X base-fret 2 frets 2 2 1 0 0 0 ",
    "X base-fret 2 frets 2 2 1 0 0 0\t \u{a0}",
    "X  base-fret  2  frets  2  2  1  0  0  0",
    "X base-fret 2 frets 2 2 1 0 0 0 x",
    "X base-fret x frets x x x x x x",
    "X base-fret X frets X X X X X X",
    "x base-fret 5 frets 5 5 5 5 5 5",
    "base-fret base-fret 1 frets 1 2 3 4 5 0",
    "frets base-fret 1 frets 1 2 3 4 5 0",
    "X frets 2 base-fret 2 2 1 0 0 0",
    "X base-fret 2 frets 2 2 1 0 0 00",
    "X base-fret 2 frets 2 2 1 0 0 ",
    "X base-fret 2 frets",
    "X base-fret",
    "X base-fret 2 frets 2 2 1 0 0 0}",
    "X bAsE-FrEt 3 FRETS 0 1 2 3 4 5",
    "X base\u{2010}fret 2 frets 2 2 1 0 0 0",
    "X base-fret 2 frets 2 2 1 0 0 \u{ff10}",
];

const COMMENTS: &[&str] = &[
    "",
    "#",
    "# text",
    " #",
    "\t \t# text",
    "\u{a0}#",
    "\u{2003}\u{3000} # wide spaces",
    "\u{200b}# zero width space",
    "\u{feff}# byte order mark",
    "\u{b}\u{c}# vertical tab and form feed",
    "\u{85}# next line",
    "a#",
    "- # text",
    "   ",
    "{c: #}",
    "[#]",
    "\u{ff03} full width sign",
];

#[test]
fn comment_lines_follow_the_pattern() {
    let pattern = Regex::new(COMMENT).unwrap();
    for line in COMMENTS.iter().chain(LINES) {
        assert_eq!(is_comment_line(line), pattern.is_match(line), "{:?}", line);
    }
}

#[test]
fn directives_follow_the_pattern() {
    for line in LINES {
        match directive(line) {
            Some(expected) => assert_eq!(parse_line(line), expected, "{:?}", line),
            None => assert_eq!(
                parse_line(line),
                ParsedLine { expr: ChordFileExpression::Line { s: split_lyrics(line) }, diagnostic: None },
                "{:?}",
                line
            ),
        }
    }
}

#[test]
fn definitions_follow_the_pattern() {
    for arg in ARGUMENTS {
        assert_eq!(parse_define(arg), definition(arg), "{:?}", arg);
    }
}
