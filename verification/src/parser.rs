//! The chord sheet parser.
//!
//! The grammar is stated by the spec functions of this module; the
//! executable functions are proved to compute exactly what they say. The
//! grammar speaks of word characters and of white space. Which characters
//! those are is not for this module to say: its functions work on
//! characters that come with their classes, see [`Classed`].
//!
//! * A *comment line* has `#` as its first character after any white space.
//! * A *directive* starts at the first `{` that is followed by a word and,
//!   somewhere after that word, by a `}`. The word is the command. The
//!   directive reaches to the last `}` of the line, and its argument is
//!   what lies between the command and that `}`, without a leading colon
//!   and the white space after it.
//! * Any other line is a *lyric line*: text with chord names in square
//!   brackets.

use vstd::prelude::*;
use crate::text::{
    Classed, classed, chars, classify, plain_chars, part_of, lemma_chars_of_classed, same_folded, chars_of,
    string_of, spells, spells_folded,
};
use crate::expr::{
    ChordFileExpression, ExpressionView, Diagnostic, DiagnosticView, ParsedLine, ParsedLineView,
};

verus! {

// ---------------------------------------------------------------------------
// Comment lines
// ---------------------------------------------------------------------------

/// Whether the first `n` characters of `line` are all white space.
pub open spec fn blank_before(line: Seq<Classed>, n: int) -> bool {
    forall|j: int| 0 <= j < n ==> (#[trigger] line[j]).space
}

/// Whether `line` has the form of a comment line: a `#` with nothing but
/// white space before it.
pub open spec fn comment_form(line: Seq<Classed>) -> bool {
    exists|i: int| #![trigger line[i]] 0 <= i < line.len() && line[i].c == '#' && blank_before(line, i)
}

/// Whether `line` is a comment line.
pub open spec fn is_comment(line: Seq<char>) -> bool {
    comment_form(classed(line))
}

/// Tells whether `v` has the form of a comment line.
pub fn is_comment_classed(v: &Vec<Classed>) -> (b: bool)
    ensures
        b == comment_form(v@),
{
    let mut i: usize = 0;
    while i < v.len()
        invariant
            0 <= i <= v@.len(),
            blank_before(v@, i as int),
            forall|j: int| 0 <= j < i ==> (#[trigger] v@[j]).c != '#',
        decreases v@.len() - i,
    {
        let k = v[i];
        if k.c == '#' {
            assert(v@[i as int].c == '#');
            return true;
        }
        if !k.space {
            assert forall|j: int| 0 <= j < v@.len() && (#[trigger] v@[j]).c == '#' implies !blank_before(
                v@,
                j,
            ) by {
                if j > i {
                    assert(!v@[i as int].space);
                }
            }
            return false;
        }
        i += 1;
    }
    false
}

/// Tells whether `line` is a comment line.
pub fn is_comment_line(line: &str) -> (b: bool)
    ensures
        b == is_comment(line@),
{
    is_comment_classed(&classify(line))
}

// ---------------------------------------------------------------------------
// Scanning
// ---------------------------------------------------------------------------

/// The first index at or after `from` where `s` holds `c`; `s.len()` if
/// there is none.
pub open spec fn first_index(s: Seq<char>, c: char, from: int) -> int
    decreases s.len() - from,
{
    if from < 0 || from >= s.len() {
        s.len() as int
    } else if s[from] == c {
        from
    } else {
        first_index(s, c, from + 1)
    }
}

/// The last index below `n` where `s` holds `c`; `-1` if there is none.
pub open spec fn last_index(s: Seq<char>, c: char, n: int) -> int
    decreases n,
{
    if n <= 0 {
        -1
    } else if s[n - 1] == c {
        n - 1
    } else {
        last_index(s, c, n - 1)
    }
}

/// Where the run of word characters that starts at `from` ends.
pub open spec fn word_end(s: Seq<Classed>, from: int) -> int
    decreases s.len() - from,
{
    if 0 <= from < s.len() && s[from].word {
        word_end(s, from + 1)
    } else {
        from
    }
}

/// Where the run of characters other than white space that starts at
/// `from` ends.
pub open spec fn token_end(s: Seq<Classed>, from: int) -> int
    decreases s.len() - from,
{
    if 0 <= from < s.len() && !s[from].space {
        token_end(s, from + 1)
    } else {
        from
    }
}

/// The first index in `from..to` that holds no white space; `to` if there
/// is none.
pub open spec fn skip_space(s: Seq<Classed>, from: int, to: int) -> int
    decreases to - from,
{
    if 0 <= from < to && from < s.len() && s[from].space {
        skip_space(s, from + 1, to)
    } else {
        from
    }
}

proof fn lemma_first_index_bounds(s: Seq<char>, c: char, from: int)
    requires
        0 <= from <= s.len(),
    ensures
        from <= first_index(s, c, from) <= s.len(),
        first_index(s, c, from) < s.len() ==> s[first_index(s, c, from)] == c,
        forall|j: int| from <= j < first_index(s, c, from) ==> s[j] != c,
    decreases s.len() - from,
{
    if from < s.len() && s[from] != c {
        lemma_first_index_bounds(s, c, from + 1);
    }
}

proof fn lemma_word_end_bounds(s: Seq<Classed>, from: int)
    requires
        0 <= from <= s.len(),
    ensures
        from <= word_end(s, from) <= s.len(),
    decreases s.len() - from,
{
    if from < s.len() && s[from].word {
        lemma_word_end_bounds(s, from + 1);
    }
}

proof fn lemma_token_end_bounds(s: Seq<Classed>, from: int)
    requires
        0 <= from <= s.len(),
    ensures
        from <= token_end(s, from) <= s.len(),
    decreases s.len() - from,
{
    if from < s.len() && !s[from].space {
        lemma_token_end_bounds(s, from + 1);
    }
}

fn find_char(v: &Vec<char>, c: char, from: usize) -> (r: usize)
    requires
        from <= v@.len(),
    ensures
        r == first_index(v@, c, from as int),
        from <= r <= v@.len(),
{
    let mut i: usize = from;
    while i < v.len() && v[i] != c
        invariant
            from <= i <= v@.len(),
            first_index(v@, c, i as int) == first_index(v@, c, from as int),
        decreases v@.len() - i,
    {
        i += 1;
    }
    i
}

fn find_last_char(v: &Vec<char>, c: char) -> (r: Option<usize>)
    ensures
        match r {
            Some(k) => k == last_index(v@, c, v@.len() as int) && k < v@.len(),
            None => last_index(v@, c, v@.len() as int) == -1,
        },
{
    let mut n: usize = v.len();
    while n > 0
        invariant
            0 <= n <= v@.len(),
            last_index(v@, c, n as int) == last_index(v@, c, v@.len() as int),
        decreases n,
    {
        if v[n - 1] == c {
            return Some(n - 1);
        }
        n -= 1;
    }
    None
}

fn find_word_end(v: &Vec<Classed>, from: usize) -> (r: usize)
    requires
        from <= v@.len(),
    ensures
        r == word_end(v@, from as int),
        from <= r <= v@.len(),
{
    let mut i: usize = from;
    while i < v.len() && v[i].word
        invariant
            from <= i <= v@.len(),
            word_end(v@, i as int) == word_end(v@, from as int),
        decreases v@.len() - i,
    {
        i += 1;
    }
    i
}

fn find_token_end(v: &Vec<Classed>, from: usize) -> (r: usize)
    requires
        from <= v@.len(),
    ensures
        r == token_end(v@, from as int),
        from <= r <= v@.len(),
{
    let mut i: usize = from;
    while i < v.len() && !v[i].space
        invariant
            from <= i <= v@.len(),
            token_end(v@, i as int) == token_end(v@, from as int),
        decreases v@.len() - i,
    {
        i += 1;
    }
    i
}

fn find_space_end(v: &Vec<Classed>, from: usize, to: usize) -> (r: usize)
    requires
        from <= to <= v@.len(),
    ensures
        r == skip_space(v@, from as int, to as int),
        from <= r <= to,
{
    let mut i: usize = from;
    while i < to && v[i].space
        invariant
            from <= i <= to <= v@.len(),
            skip_space(v@, i as int, to as int) == skip_space(v@, from as int, to as int),
        decreases to - i,
    {
        i += 1;
    }
    i
}

// ---------------------------------------------------------------------------
// Lyric lines
// ---------------------------------------------------------------------------

/// The segments of the part of a lyric line that starts at `from`.
///
/// The text up to the next `[` is a text segment and what stands between
/// that bracket and the next `]` is a chord segment; the rest of the line
/// is split in the same way. A `[` that is never closed makes the rest of
/// the line a chord, followed by an empty text.
pub open spec fn segments_from(line: Seq<char>, from: int) -> Seq<Seq<char>>
    decreases line.len() - from,
{
    let n = line.len() as int;
    let i = first_index(line, '[', from);
    if !(0 <= from <= i < n) {
        seq![line.subrange(from, n)]
    } else {
        let j = first_index(line, ']', i + 1);
        if !(i < j < n) {
            seq![line.subrange(from, i), line.subrange(i + 1, n), Seq::empty()]
        } else {
            seq![line.subrange(from, i), line.subrange(i + 1, j)] + segments_from(line, j + 1)
        }
    }
}

/// The segments of a lyric line: texts at the even indices, chord names at
/// the odd ones.
pub open spec fn lyric_segments(line: Seq<char>) -> Seq<Seq<char>> {
    segments_from(line, 0)
}

/// Whether `c` is one of the two characters that mark a chord.
pub open spec fn is_bracket(c: char) -> bool {
    c == '[' || c == ']'
}

/// The test that keeps every character but the brackets.
pub open spec fn not_bracket() -> spec_fn(char) -> bool {
    |c: char| !is_bracket(c)
}

/// `s` without its square brackets.
pub open spec fn without_brackets(s: Seq<char>) -> Seq<char> {
    s.filter(not_bracket())
}

proof fn lemma_flatten_two(a: Seq<char>, b: Seq<char>, rest: Seq<Seq<char>>)
    ensures
        (seq![a, b] + rest).flatten() == a + b + rest.flatten(),
{
    let s = seq![a, b] + rest;
    let t = seq![b] + rest;
    assert(s.first() == a);
    assert(s.drop_first() =~= t);
    assert(t.first() == b);
    assert(t.drop_first() =~= rest);
    assert(s.flatten() == a + t.flatten());
    assert(t.flatten() == b + rest.flatten());
    assert(a + (b + rest.flatten()) =~= a + b + rest.flatten());
}

proof fn lemma_flatten_one(a: Seq<char>)
    ensures
        seq![a].flatten() == a,
{
    let s = seq![a];
    assert(s.first() == a);
    assert(s.drop_first() =~= Seq::<Seq<char>>::empty());
    assert(s.drop_first().flatten() =~= Seq::<char>::empty());
    assert(s.flatten() == a + s.drop_first().flatten());
    assert(a + Seq::<char>::empty() =~= a);
}

proof fn lemma_bracket_filtered(c: char)
    requires
        is_bracket(c),
    ensures
        without_brackets(seq![c]) == Seq::<char>::empty(),
{
    reveal_with_fuel(Seq::filter, 2);
    assert(seq![c].drop_last() =~= Seq::<char>::empty());
}

proof fn lemma_segments_from(line: Seq<char>, from: int)
    requires
        0 <= from <= line.len(),
    ensures
        segments_from(line, from).len() % 2 == 1,
        without_brackets(segments_from(line, from).flatten()) == without_brackets(
            line.subrange(from, line.len() as int),
        ),
    decreases line.len() - from,
{
    let n = line.len() as int;
    let tail = line.subrange(from, n);
    let i = first_index(line, '[', from);
    lemma_first_index_bounds(line, '[', from);
    if i >= n {
        lemma_flatten_one(tail);
    } else {
        let a = line.subrange(from, i);
        let open = seq!['['];
        lemma_first_index_bounds(line, ']', i + 1);
        let j = first_index(line, ']', i + 1);
        lemma_bracket_filtered('[');
        lemma_bracket_filtered(']');
        if j >= n {
            let b = line.subrange(i + 1, n);
            assert(tail =~= a + open + b);
            lemma_flatten_two(a, b, seq![Seq::<char>::empty()]);
            assert(seq![a, b] + seq![Seq::<char>::empty()] =~= seq![a, b, Seq::<char>::empty()]);
            lemma_flatten_one(Seq::<char>::empty());
            assert(a + b + Seq::<char>::empty() =~= a + b);
            Seq::filter_distributes_over_add(a, open, not_bracket());
            Seq::filter_distributes_over_add(a + open, b, not_bracket());
            Seq::filter_distributes_over_add(a, b, not_bracket());
            assert(without_brackets(a) + Seq::<char>::empty() =~= without_brackets(a));
        } else {
            let b = line.subrange(i + 1, j);
            let close = seq![']'];
            let more = line.subrange(j + 1, n);
            let rest = segments_from(line, j + 1);
            lemma_segments_from(line, j + 1);
            assert(tail =~= a + open + b + close + more);
            lemma_flatten_two(a, b, rest);
            assert((seq![a, b] + rest).len() == 2 + rest.len());
            Seq::filter_distributes_over_add(a, open, not_bracket());
            Seq::filter_distributes_over_add(a + open, b, not_bracket());
            Seq::filter_distributes_over_add(a + open + b, close, not_bracket());
            Seq::filter_distributes_over_add(a + open + b + close, more, not_bracket());
            Seq::filter_distributes_over_add(a, b, not_bracket());
            Seq::filter_distributes_over_add(a + b, rest.flatten(), not_bracket());
            assert(without_brackets(a) + Seq::<char>::empty() =~= without_brackets(a));
            assert(without_brackets(a) + without_brackets(b) + Seq::<char>::empty()
                =~= without_brackets(a) + without_brackets(b));
        }
    }
}

/// No segment of a lyric line is longer than the line.
pub proof fn lemma_segments_within(line: Seq<char>, from: int)
    requires
        0 <= from <= line.len(),
    ensures
        forall|k: int|
            0 <= k < segments_from(line, from).len() ==> (#[trigger] segments_from(line, from)[k]).len()
                <= line.len(),
    decreases line.len() - from,
{
    let n = line.len() as int;
    let i = first_index(line, '[', from);
    lemma_first_index_bounds(line, '[', from);
    if i < n {
        lemma_first_index_bounds(line, ']', i + 1);
        let j = first_index(line, ']', i + 1);
        if j < n {
            lemma_segments_within(line, j + 1);
            let head = seq![line.subrange(from, i), line.subrange(i + 1, j)];
            let rest = segments_from(line, j + 1);
            assert forall|k: int| 0 <= k < (head + rest).len() implies (#[trigger] (head + rest)[k]).len()
                <= line.len() by {
                if k >= 2 {
                    assert((head + rest)[k] == rest[k - 2]);
                }
            }
        }
    }
}

/// A lyric line splits into one more text segment than chord segments, and
/// the segments joined in order spell the line without its brackets.
pub proof fn lemma_segments_spell_line(line: Seq<char>)
    ensures
        lyric_segments(line).len() % 2 == 1,
        without_brackets(lyric_segments(line).flatten()) == without_brackets(line),
{
    lemma_segments_from(line, 0);
    assert(line.subrange(0, line.len() as int) =~= line);
}

fn push_string(v: &mut Vec<String>, s: String)
    ensures
        final(v).deep_view() == old(v).deep_view().push(s@),
{
    v.push(s);
    assert(v.deep_view() =~= old(v).deep_view().push(s@));
}

/// Splits a lyric line into its segments.
pub fn split_lyrics(line: &str) -> (segs: Vec<String>)
    ensures
        segs.deep_view() == lyric_segments(line@),
        segs@.len() % 2 == 1,
        without_brackets(segs.deep_view().flatten()) == without_brackets(line@),
{
    split_chars(&chars_of(line))
}

/// Splits the characters of a lyric line into the line's segments.
pub fn split_chars(line: &Vec<char>) -> (segs: Vec<String>)
    ensures
        segs.deep_view() == lyric_segments(line@),
        segs@.len() % 2 == 1,
        without_brackets(segs.deep_view().flatten()) == without_brackets(line@),
{
    let v = line;
    let n = v.len();
    let mut segs: Vec<String> = Vec::new();
    let mut pos: usize = 0;
    proof {
        lemma_segments_spell_line(line@);
        assert(segs.deep_view() =~= Seq::<Seq<char>>::empty());
        assert(Seq::<Seq<char>>::empty() + segments_from(v@, 0) =~= segments_from(v@, 0));
    }
    loop
        invariant
            v@ == line@,
            n == v@.len(),
            pos <= n,
            segs.deep_view() + segments_from(v@, pos as int) == lyric_segments(v@),
            lyric_segments(v@).len() % 2 == 1,
            without_brackets(lyric_segments(v@).flatten()) == without_brackets(line@),
        decreases n - pos,
    {
        let ghost before = segs.deep_view();
        let i = find_char(v, '[', pos);
        if i >= n {
            push_string(&mut segs, string_of(v, pos, n));
            assert(segs.deep_view() =~= before + segments_from(v@, pos as int));
            assert(segs@.len() == segs.deep_view().len());
            return segs;
        }
        let j = find_char(v, ']', i + 1);
        if j >= n {
            push_string(&mut segs, string_of(v, pos, i));
            push_string(&mut segs, string_of(v, i + 1, n));
            push_string(&mut segs, String::new());
            assert(segs.deep_view() =~= before + segments_from(v@, pos as int));
            assert(segs@.len() == segs.deep_view().len());
            return segs;
        }
        push_string(&mut segs, string_of(v, pos, i));
        push_string(&mut segs, string_of(v, i + 1, j));
        assert(segs.deep_view() + segments_from(v@, j + 1) =~= before + segments_from(
            v@,
            pos as int,
        ));
        pos = j + 1;
    }
}

// ---------------------------------------------------------------------------
// Chord definitions
// ---------------------------------------------------------------------------

/// The words of `s` from index `from` on: its maximal runs of characters
/// other than white space.
pub open spec fn tokens_from(s: Seq<Classed>, from: int) -> Seq<Seq<char>>
    decreases s.len() - from,
{
    if from < 0 || from >= s.len() {
        Seq::empty()
    } else if s[from].space {
        tokens_from(s, from + 1)
    } else {
        let e = token_end(s, from);
        if from < e <= s.len() {
            seq![chars(s).subrange(from, e)] + tokens_from(s, e)
        } else {
            Seq::empty()
        }
    }
}

/// The words of `s`, separated by white space.
pub open spec fn tokens(s: Seq<Classed>) -> Seq<Seq<char>> {
    tokens_from(s, 0)
}

/// What a word says about a fret: `x` or `X` is a muted string, written
/// `-1`, and a digit from `0` to `5` is that fret.
pub open spec fn fret_value(tok: Seq<char>) -> Option<i8> {
    if tok.len() != 1 {
        None
    } else if tok[0] == 'x' || tok[0] == 'X' {
        Some(-1i8)
    } else if '0' <= tok[0] <= '5' {
        Some((tok[0] as int - 48) as i8)
    } else {
        None
    }
}

/// Whether `f` is a value that a chord definition can give: muted, or a
/// fret from 0 to 5.
pub open spec fn valid_fret(f: i8) -> bool {
    f == -1 || 0 <= f <= 5
}

/// A chord's name with its seven values: the base fret and the positions
/// of the six strings.
pub struct Definition {
    pub name: Seq<char>,
    pub def: Seq<i8>,
}

/// The chord that the argument of a `define` directive defines, if it
/// defines one.
///
/// A definition is made of ten words: the chord's name, `base-fret`, a
/// fret, `frets` and six frets, the two keywords in either letter case.
/// Nothing may stand before the name. The result holds the name, and the
/// base fret followed by the six frets.
pub open spec fn chord_definition(arg: Seq<Classed>) -> Option<Definition> {
    let t = tokens(arg);
    if t.len() == 10 && !arg[0].space && same_folded(t[1], "base-fret"@) && same_folded(
        t[3],
        "frets"@,
    ) && fret_value(t[2]) is Some && (forall|k: int| 4 <= k < 10 ==> fret_value(#[trigger] t[k]) is Some) {
        Some(
            Definition {
                name: t[0],
                def: seq![
                    fret_value(t[2])->0,
                    fret_value(t[4])->0,
                    fret_value(t[5])->0,
                    fret_value(t[6])->0,
                    fret_value(t[7])->0,
                    fret_value(t[8])->0,
                    fret_value(t[9])->0,
                ],
            },
        )
    } else {
        None
    }
}

/// Every chord definition has seven values, each of them muted or a fret
/// from 0 to 5.
pub proof fn lemma_definition_shape(arg: Seq<Classed>)
    requires
        chord_definition(arg) is Some,
    ensures
        chord_definition(arg)->0.def.len() == 7,
        forall|k: int| 0 <= k < 7 ==> valid_fret(#[trigger] chord_definition(arg)->0.def[k]),
{
    let t = tokens(arg);
    assert(fret_value(t[4]) is Some);
    assert(fret_value(t[5]) is Some);
    assert(fret_value(t[6]) is Some);
    assert(fret_value(t[7]) is Some);
    assert(fret_value(t[8]) is Some);
    assert(fret_value(t[9]) is Some);
}

/// The texts that the spans `(start, end)` cut out of `s`.
pub open spec fn spans_text(s: Seq<char>, spans: Seq<(usize, usize)>) -> Seq<Seq<char>> {
    Seq::new(spans.len(), |k: int| s.subrange(spans[k].0 as int, spans[k].1 as int))
}

fn token_spans(v: &Vec<Classed>) -> (spans: Vec<(usize, usize)>)
    ensures
        spans_text(chars(v@), spans@) == tokens(v@),
        forall|k: int| 0 <= k < spans@.len() ==> (#[trigger] spans@[k]).0 < spans@[k].1 <= v@.len(),
{
    let n = v.len();
    let ghost text = chars(v@);
    let mut spans: Vec<(usize, usize)> = Vec::new();
    let mut i: usize = 0;
    assert(spans_text(text, spans@) + tokens_from(v@, 0) =~= tokens(v@));
    while i < n
        invariant
            n == v@.len(),
            text == chars(v@),
            0 <= i <= n,
            spans_text(text, spans@) + tokens_from(v@, i as int) == tokens(v@),
            forall|k: int| 0 <= k < spans@.len() ==> (#[trigger] spans@[k]).0 < spans@[k].1 <= v@.len(),
        decreases n - i,
    {
        if v[i].space {
            i += 1;
        } else {
            let e = find_token_end(v, i);
            let ghost before = spans@;
            spans.push((i, e));
            proof {
                let word = text.subrange(i as int, e as int);
                assert(token_end(v@, i as int) == token_end(v@, i + 1));
                lemma_token_end_bounds(v@, i + 1);
                assert(tokens_from(v@, i as int) == seq![word] + tokens_from(v@, e as int));
                assert(spans_text(text, spans@) =~= spans_text(text, before).push(word));
                assert(spans_text(text, spans@) + tokens_from(v@, e as int) =~= spans_text(text, before)
                    + tokens_from(v@, i as int));
            }
            i = e;
        }
    }
    assert(spans_text(text, spans@) + tokens_from(v@, i as int) =~= spans_text(text, spans@));
    spans
}

fn fret_at(v: &Vec<char>, from: usize, to: usize) -> (r: Option<i8>)
    requires
        from <= to <= v@.len(),
    ensures
        r == fret_value(v@.subrange(from as int, to as int)),
{
    if to - from != 1 {
        return None;
    }
    let c = v[from];
    assert(v@.subrange(from as int, to as int)[0] == c);
    if c == 'x' || c == 'X' {
        Some(-1)
    } else if '0' <= c && c <= '5' {
        Some((c as u32 - 48) as i8)
    } else {
        None
    }
}

/// Reads the argument of a `define` directive, given with the classes of
/// its characters: the chord's name and its seven values, or `None` where
/// the argument is no chord definition.
pub fn define_classed(arg: &Vec<Classed>) -> (r: Option<(String, [i8; 7])>)
    ensures
        match r {
            Some(d) => chord_definition(arg@) == Some(Definition { name: d.0@, def: d.1@ }),
            None => chord_definition(arg@) is None,
        },
        r matches Some(d) ==> forall|k: int| 0 <= k < 7 ==> valid_fret(#[trigger] d.1@[k]),
{
    let v = plain_chars(arg);
    let spans = token_spans(arg);
    let ghost t = tokens(arg@);
    if spans.len() != 10 {
        return None;
    }
    assert(forall|k: int| 0 <= k < 10 ==> #[trigger] t[k] == v@.subrange(spans@[k].0 as int, spans@[k].1 as int));
    assert(spans@[0].0 < spans@[0].1 <= v@.len());
    if arg[0].space {
        return None;
    }
    assert(spans@[1].0 < spans@[1].1 <= v@.len());
    if !spells_folded(&v, spans[1].0, spans[1].1, "base-fret") {
        return None;
    }
    assert(spans@[3].0 < spans@[3].1 <= v@.len());
    if !spells_folded(&v, spans[3].0, spans[3].1, "frets") {
        return None;
    }
    assert(spans@[2].0 < spans@[2].1 <= v@.len());
    let base = match fret_at(&v, spans[2].0, spans[2].1) {
        Some(f) => f,
        None => {
            return None;
        },
    };
    let mut def: Vec<i8> = Vec::new();
    def.push(base);
    let mut k: usize = 4;
    while k < 10
        invariant
            4 <= k <= 10,
            v@ == chars(arg@),
            t == tokens(arg@),
            spans@.len() == 10,
            forall|m: int| 0 <= m < 10 ==> #[trigger] t[m] == v@.subrange(spans@[m].0 as int, spans@[m].1 as int),
            forall|m: int| 0 <= m < 10 ==> (#[trigger] spans@[m]).0 < spans@[m].1 <= v@.len(),
            def@.len() == k - 3,
            def@[0] == base,
            forall|m: int| 4 <= m < k ==> fret_value(#[trigger] t[m]) == Some(def@[m - 3]),
        decreases 10 - k,
    {
        assert(spans@[k as int].0 < spans@[k as int].1 <= v@.len());
        match fret_at(&v, spans[k].0, spans[k].1) {
            Some(f) => {
                def.push(f);
            },
            None => {
                assert(fret_value(t[k as int]) is None);
                return None;
            },
        }
        k += 1;
    }
    let name = string_of(&v, spans[0].0, spans[0].1);
    let shape: [i8; 7] = [def[0], def[1], def[2], def[3], def[4], def[5], def[6]];
    proof {
        assert(shape@ =~= def@);
        assert(fret_value(t[4]) == Some(def@[1]));
        assert(fret_value(t[5]) == Some(def@[2]));
        assert(fret_value(t[6]) == Some(def@[3]));
        assert(fret_value(t[7]) == Some(def@[4]));
        assert(fret_value(t[8]) == Some(def@[5]));
        assert(fret_value(t[9]) == Some(def@[6]));
        assert(def@ =~= chord_definition(arg@)->0.def);
        assert(name@ == t[0]);
        lemma_definition_shape(arg@);
    }
    Some((name, shape))
}

/// Reads the argument of a `define` directive: the chord's name and its
/// seven values, or `None` where the argument is no chord definition.
pub fn parse_define(arg: &str) -> (r: Option<(String, [i8; 7])>)
    ensures
        match r {
            Some(d) => chord_definition(classed(arg@)) == Some(Definition { name: d.0@, def: d.1@ }),
            None => chord_definition(classed(arg@)) is None,
        },
        r matches Some(d) ==> forall|k: int| 0 <= k < 7 ==> valid_fret(#[trigger] d.1@[k]),
{
    define_classed(&classify(arg))
}

// ---------------------------------------------------------------------------
// Directives
// ---------------------------------------------------------------------------

/// Whether a directive starts at index `i` of `line`: a `{`, then a word,
/// and a `}` somewhere after that word.
pub open spec fn opens_directive(line: Seq<Classed>, i: int) -> bool {
    &&& 0 <= i && i + 1 < line.len()
    &&& line[i].c == '{'
    &&& line[i + 1].word
    &&& word_end(line, i + 1) <= last_index(chars(line), '}', line.len() as int)
}

/// The first index at or after `from` where a directive starts;
/// `line.len()` if there is none.
pub open spec fn first_directive(line: Seq<Classed>, from: int) -> int
    decreases line.len() - from,
{
    if from < 0 || from >= line.len() {
        line.len() as int
    } else if opens_directive(line, from) {
        from
    } else {
        first_directive(line, from + 1)
    }
}

/// The parts of a directive: its command, its argument and the whole of
/// its text, braces included.
pub struct DirectiveView {
    pub cmd: Seq<char>,
    pub arg: Seq<Classed>,
    pub whole: Seq<char>,
}

/// The directive that starts at index `i` of `line`.
///
/// It reaches to the last `}` of the line. The argument starts after the
/// command, an optional colon and any white space, and ends before that
/// `}`.
pub open spec fn directive_at(line: Seq<Classed>, i: int) -> DirectiveView {
    let e = word_end(line, i + 1);
    let k = last_index(chars(line), '}', line.len() as int);
    let a = if e < k && line[e].c == ':' {
        e + 1
    } else {
        e
    };
    let b = skip_space(line, a, k);
    DirectiveView {
        cmd: chars(line).subrange(i + 1, e),
        arg: line.subrange(b, k),
        whole: chars(line).subrange(i, k + 1),
    }
}

/// An expression that comes without a diagnostic.
pub open spec fn plain(expr: ExpressionView) -> ParsedLineView {
    ParsedLineView { expr, diagnostic: None }
}

/// What a directive means.
///
/// `t` and `title` give a title, `st` and `subtitle` a subtitle, `c` a
/// comment, each with the argument as its text. `define` gives a chord
/// definition where the argument is one. A `define` that is none, and any
/// other command, gives a comment that holds the directive's whole text,
/// together with a diagnostic.
pub open spec fn directive_meaning(d: DirectiveView) -> ParsedLineView {
    if d.cmd == "t"@ || d.cmd == "title"@ {
        plain(ExpressionView::Title { s: chars(d.arg) })
    } else if d.cmd == "st"@ || d.cmd == "subtitle"@ {
        plain(ExpressionView::SubTitle { s: chars(d.arg) })
    } else if d.cmd == "c"@ {
        plain(ExpressionView::Comment { s: chars(d.arg) })
    } else if d.cmd == "define"@ {
        match chord_definition(d.arg) {
            Some(shape) => plain(ExpressionView::ChordDef { name: shape.name, def: shape.def }),
            None => ParsedLineView {
                expr: ExpressionView::Comment { s: d.whole },
                diagnostic: Some(DiagnosticView::BadChordDefinition { text: d.whole }),
            },
        }
    } else {
        ParsedLineView {
            expr: ExpressionView::Comment { s: d.whole },
            diagnostic: Some(DiagnosticView::UnknownExpression { cmd: d.cmd }),
        }
    }
}

/// What a line that has not the form of a comment line says, given with
/// the classes of its characters: the meaning of its first directive, or,
/// without one, its lyric segments.
pub open spec fn meaning(line: Seq<Classed>) -> ParsedLineView {
    let i = first_directive(line, 0);
    if i < line.len() {
        directive_meaning(directive_at(line, i))
    } else {
        plain(ExpressionView::Line { s: lyric_segments(chars(line)) })
    }
}

/// What a line that is no comment line says.
pub open spec fn parsed(line: Seq<char>) -> ParsedLineView {
    meaning(classed(line))
}

/// A line without a directive says what its lyric segments say.
pub proof fn lemma_parsed_lyrics(line: Seq<char>)
    requires
        parsed(line).expr is Line,
    ensures
        parsed(line) == plain(ExpressionView::Line { s: lyric_segments(line) }),
{
    lemma_chars_of_classed(line);
}

fn find_directive(v: &Vec<Classed>, text: &Vec<char>) -> (r: Option<(usize, usize, usize)>)
    requires
        text@ == chars(v@),
    ensures
        match r {
            Some(found) => {
                &&& found.0 == first_directive(v@, 0)
                &&& found.0 + 1 < v@.len()
                &&& found.1 == word_end(v@, found.0 + 1)
                &&& found.2 == last_index(chars(v@), '}', v@.len() as int)
                &&& found.0 < found.1 <= found.2 < v@.len()
            },
            None => first_directive(v@, 0) == v@.len(),
        },
{
    let n = v.len();
    let close = match find_last_char(text, '}') {
        Some(k) => k,
        None => {
            proof {
                assert forall|i: int| 0 <= i < n implies !opens_directive(v@, i) by {
                    if i + 1 < n {
                        lemma_word_end_bounds(v@, i + 1);
                    }
                }
                lemma_no_directive(v@, 0);
            }
            return None;
        },
    };
    let mut i: usize = 0;
    while i < n
        invariant
            n == v@.len(),
            text@ == chars(v@),
            0 <= i <= n,
            close == last_index(chars(v@), '}', v@.len() as int),
            close < n,
            first_directive(v@, i as int) == first_directive(v@, 0),
        decreases n - i,
    {
        if v[i].c == '{' && i + 1 < n && v[i + 1].word {
            let e = find_word_end(v, i + 1);
            if e <= close {
                return Some((i, e, close));
            }
        }
        i += 1;
    }
    None
}

proof fn lemma_no_directive(line: Seq<Classed>, from: int)
    requires
        0 <= from <= line.len(),
        forall|i: int| 0 <= i < line.len() ==> !opens_directive(line, i),
    ensures
        first_directive(line, from) == line.len(),
    decreases line.len() - from,
{
    if from < line.len() {
        lemma_no_directive(line, from + 1);
    }
}

fn comment_with(whole: String, diagnostic: Diagnostic) -> (r: ParsedLine)
    ensures
        r@ == (ParsedLineView {
            expr: ExpressionView::Comment { s: whole@ },
            diagnostic: Some(diagnostic@),
        }),
{
    ParsedLine { expr: ChordFileExpression::Comment { s: whole }, diagnostic: Some(diagnostic) }
}

fn without_diagnostic(expr: ChordFileExpression) -> (r: ParsedLine)
    ensures
        r@ == plain(expr@),
{
    ParsedLine { expr, diagnostic: None }
}

/// Parses one line that has not the form of a comment line, given with the
/// classes of its characters.
pub fn parse_classed(line: &Vec<Classed>) -> (r: ParsedLine)
    ensures
        r@ == meaning(line@),
{
    let v = plain_chars(line);
    let (i, e, k) = match find_directive(line, &v) {
        Some(found) => found,
        None => {
            let segs = split_chars(&v);
            return without_diagnostic(ChordFileExpression::Line { s: segs });
        },
    };
    let a = if e < k && line[e].c == ':' {
        e + 1
    } else {
        e
    };
    let b = find_space_end(line, a, k);
    let ghost d = directive_at(line@, i as int);
    let arg = string_of(&v, b, k);
    assert(arg@ =~= chars(d.arg));
    if spells(&v, i + 1, e, "t") || spells(&v, i + 1, e, "title") {
        without_diagnostic(ChordFileExpression::Title { s: arg })
    } else if spells(&v, i + 1, e, "st") || spells(&v, i + 1, e, "subtitle") {
        without_diagnostic(ChordFileExpression::SubTitle { s: arg })
    } else if spells(&v, i + 1, e, "c") {
        without_diagnostic(ChordFileExpression::Comment { s: arg })
    } else if spells(&v, i + 1, e, "define") {
        match define_classed(&part_of(line, b, k)) {
            Some((name, def)) => without_diagnostic(ChordFileExpression::ChordDef { name, def }),
            None => comment_with(
                string_of(&v, i, k + 1),
                Diagnostic::BadChordDefinition { text: string_of(&v, i, k + 1) },
            ),
        }
    } else {
        comment_with(
            string_of(&v, i, k + 1),
            Diagnostic::UnknownExpression { cmd: string_of(&v, i + 1, e) },
        )
    }
}

/// Parses one line that is no comment line.
pub fn parse_line(line: &str) -> (r: ParsedLine)
    ensures
        r@ == parsed(line@),
{
    parse_classed(&classify(line))
}

// ---------------------------------------------------------------------------
// The parser
// ---------------------------------------------------------------------------

/// The first index at or after `from` of a line that is no comment line;
/// `lines.len()` if there is none.
pub open spec fn first_content(lines: Seq<Seq<char>>, from: int) -> int
    decreases lines.len() - from,
{
    if from < 0 || from >= lines.len() {
        lines.len() as int
    } else if !is_comment(lines[from]) {
        from
    } else {
        first_content(lines, from + 1)
    }
}

/// Where the first line that is no comment line stands.
pub proof fn lemma_first_content(lines: Seq<Seq<char>>, from: int)
    requires
        0 <= from <= lines.len(),
    ensures
        from <= first_content(lines, from) <= lines.len(),
        first_content(lines, from) < lines.len() ==> !is_comment(lines[first_content(lines, from)]),
        forall|k: int| from <= k < first_content(lines, from) ==> is_comment(#[trigger] lines[k]),
    decreases lines.len() - from,
{
    if from < lines.len() && is_comment(lines[from]) {
        lemma_first_content(lines, from + 1);
    }
}

/// A parser over the lines of one song, read one expression at a time.
pub struct ChoproParser {
    lines: Vec<String>,
    pos: usize,
}

impl ChoproParser {
    /// The lines that have not been read yet.
    pub closed spec fn remaining(&self) -> Seq<Seq<char>> {
        if self.pos <= self.lines@.len() {
            self.lines.deep_view().skip(self.pos as int)
        } else {
            Seq::empty()
        }
    }

    /// A parser that will read `lines` from the first one on.
    pub fn new(lines: Vec<String>) -> (p: ChoproParser)
        ensures
            p.remaining() == lines.deep_view(),
    {
        let p = ChoproParser { lines, pos: 0 };
        assert(p.lines.deep_view().skip(0) =~= p.lines.deep_view());
        p
    }

    /// The next line that is no comment line, or `None` when only comment
    /// lines are left, or none at all. The line and all those before it are
    /// then read.
    pub fn nextline(&mut self) -> (r: Option<String>)
        ensures
            ({
                let rest = old(self).remaining();
                let k = first_content(rest, 0);
                if k < rest.len() {
                    &&& r matches Some(l)
                    &&& l@ == rest[k]
                    &&& final(self).remaining() == rest.skip(k + 1)
                } else {
                    &&& r is None
                    &&& final(self).remaining() == Seq::<Seq<char>>::empty()
                }
            }),
    {
        let ghost rest = self.remaining();
        let ghost start = self.pos as int;
        let n = self.lines.len();
        if self.pos > n {
            return None;
        }
        while self.pos < n
            invariant
                n == self.lines@.len(),
                self.lines == old(self).lines,
                start == old(self).pos,
                start <= self.pos <= n,
                rest == self.lines.deep_view().skip(start),
                first_content(rest, self.pos - start) == first_content(rest, 0),
            decreases n - self.pos,
        {
            let i = self.pos;
            self.pos = i + 1;
            assert(rest[i - start] == self.lines@[i as int]@);
            if !is_comment_line(self.lines[i].as_str()) {
                let line = self.lines[i].clone();
                assert(self.remaining() =~= rest.skip(i - start + 1));
                return Some(line);
            }
        }
        assert(self.remaining() =~= Seq::<Seq<char>>::empty());
        None
    }

    /// The next expression of the song, or `None` at its end. Comment lines
    /// are passed over.
    pub fn next(&mut self) -> (r: Option<ParsedLine>)
        ensures
            ({
                let rest = old(self).remaining();
                let k = first_content(rest, 0);
                if k < rest.len() {
                    &&& r matches Some(p)
                    &&& p@ == parsed(rest[k])
                    &&& final(self).remaining() == rest.skip(k + 1)
                } else {
                    &&& r is None
                    &&& final(self).remaining() == Seq::<Seq<char>>::empty()
                }
            }),
    {
        match self.nextline() {
            Some(line) => Some(parse_line(line.as_str())),
            None => None,
        }
    }
}

} // verus!
