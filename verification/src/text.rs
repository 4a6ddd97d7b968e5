//! Characters and strings: the character classes of the song format and
//! conversions between strings and character vectors.

use vstd::prelude::*;

verus! {

/// Whether `c` has the Unicode `White_Space` property.
pub uninterp spec fn white_space(c: char) -> bool;

/// Whether `c` is a Unicode word character: alphabetic, a mark, a decimal
/// digit, connector punctuation or a join control.
pub uninterp spec fn word_char(c: char) -> bool;

/// `char::is_whitespace` tells whether a character has the Unicode
/// `White_Space` property; the contract gives that answer the name
/// `white_space`.
pub assume_specification[ char::is_whitespace ](c: char) -> (b: bool)
    ensures
        b == white_space(c),
;

/// `regex_syntax::is_word_character` tells whether a character belongs to
/// the class `\w` of regular expressions; the contract gives that answer the
/// name `word_char`. The function looks the character up in a table that
/// comes with the crate's `unicode-perl` feature, which this crate asks
/// for; without the feature it would panic.
pub assume_specification[ regex_syntax::is_word_character ](c: char) -> (b: bool)
    ensures
        b == word_char(c),
;

/// `String::push` appends one character to the end of the string.
pub assume_specification[ String::push ](s: &mut String, c: char)
    ensures
        final(s)@ == old(s)@.push(c),
;

/// A character together with what is known of its classes: whether it is
/// a word character, and whether it is white space.
#[derive(Clone, Copy, Debug, PartialEq, Eq)]
pub struct Classed {
    pub c: char,
    pub word: bool,
    pub space: bool,
}

/// The character `c` with its classes.
pub open spec fn classed_char(c: char) -> Classed {
    Classed { c, word: word_char(c), space: white_space(c) }
}

/// The characters of `s`, each with its classes.
pub open spec fn classed(s: Seq<char>) -> Seq<Classed> {
    Seq::new(s.len(), |i: int| classed_char(s[i]))
}

/// The characters of `s` without their classes.
pub open spec fn chars(s: Seq<Classed>) -> Seq<char> {
    Seq::new(s.len(), |i: int| s[i].c)
}

/// Taking the classes off the characters of a text gives the text.
pub proof fn lemma_chars_of_classed(s: Seq<char>)
    ensures
        chars(classed(s)) == s,
{
    assert(chars(classed(s)) =~= s);
}

/// The code of `c` with the ASCII capitals mapped to their small letters.
pub open spec fn fold_code(c: char) -> int {
    if 'A' <= c <= 'Z' {
        c as int + 32
    } else {
        c as int
    }
}

/// Whether `a` and `b` hold the same characters up to ASCII letter case.
pub open spec fn same_folded(a: Seq<char>, b: Seq<char>) -> bool {
    &&& a.len() == b.len()
    &&& forall|i: int| 0 <= i < a.len() ==> fold_code(#[trigger] a[i]) == fold_code(b[i])
}

/// The characters of `s`, in order.
pub fn chars_of(s: &str) -> (v: Vec<char>)
    ensures
        v@ == s@,
{
    let mut v: Vec<char> = Vec::new();
    for c in it: s.chars()
        invariant
            it.seq() == s@,
            v@ == it.seq().take(it.index() as int),
    {
        v.push(c);
    }
    v
}

/// The characters of `s`, each with its classes.
pub fn classify(s: &str) -> (v: Vec<Classed>)
    ensures
        v@ == classed(s@),
{
    let text = chars_of(s);
    let mut v: Vec<Classed> = Vec::new();
    let mut i: usize = 0;
    while i < text.len()
        invariant
            text@ == s@,
            0 <= i <= text@.len(),
            v@.len() == i,
            forall|j: int| 0 <= j < i ==> #[trigger] v@[j] == classed_char(text@[j]),
        decreases text@.len() - i,
    {
        let c = text[i];
        let word = regex_syntax::is_word_character(c);
        let space = c.is_whitespace();
        let ghost before = v@;
        v.push(Classed { c, word, space });
        assert(v@ == before.push(classed_char(c)));
        i += 1;
    }
    assert(v@ =~= classed(s@));
    v
}

/// The characters of `v` without their classes.
pub fn plain_chars(v: &Vec<Classed>) -> (r: Vec<char>)
    ensures
        r@ == chars(v@),
{
    let mut r: Vec<char> = Vec::new();
    let mut i: usize = 0;
    while i < v.len()
        invariant
            0 <= i <= v@.len(),
            r@.len() == i,
            forall|j: int| 0 <= j < i ==> #[trigger] r@[j] == v@[j].c,
        decreases v@.len() - i,
    {
        r.push(v[i].c);
        i += 1;
    }
    assert(r@ =~= chars(v@));
    r
}

/// The part `v[from..to]` of `v`.
pub fn part_of(v: &Vec<Classed>, from: usize, to: usize) -> (r: Vec<Classed>)
    requires
        from <= to <= v@.len(),
    ensures
        r@ == v@.subrange(from as int, to as int),
{
    let mut r: Vec<Classed> = Vec::new();
    let mut i: usize = from;
    while i < to
        invariant
            from <= i <= to <= v@.len(),
            r@ == v@.subrange(from as int, i as int),
        decreases to - i,
    {
        r.push(v[i]);
        i += 1;
        assert(r@ =~= v@.subrange(from as int, i as int));
    }
    r
}

/// The string made of the characters `v[from..to]`.
pub fn string_of(v: &Vec<char>, from: usize, to: usize) -> (s: String)
    requires
        from <= to <= v@.len(),
    ensures
        s@ == v@.subrange(from as int, to as int),
{
    let mut s = String::new();
    let mut i: usize = from;
    while i < to
        invariant
            from <= i <= to <= v@.len(),
            s@ == v@.subrange(from as int, i as int),
        decreases to - i,
    {
        s.push(v[i]);
        i += 1;
    }
    s
}

/// Whether `v[from..to]` spells the word `w`.
pub fn spells(v: &Vec<char>, from: usize, to: usize, w: &str) -> (b: bool)
    requires
        from <= to <= v@.len(),
    ensures
        b == (v@.subrange(from as int, to as int) == w@),
{
    let word = chars_of(w);
    if word.len() != to - from {
        return false;
    }
    let ghost part = v@.subrange(from as int, to as int);
    let mut i: usize = 0;
    while i < word.len()
        invariant
            from <= to <= v@.len(),
            word@ == w@,
            word@.len() == to - from,
            part == v@.subrange(from as int, to as int),
            0 <= i <= word@.len(),
            forall|j: int| 0 <= j < i ==> part[j] == word@[j],
        decreases word@.len() - i,
    {
        if v[from + i] != word[i] {
            assert(part[i as int] == v@[from + i]);
            return false;
        }
        i += 1;
    }
    assert(part =~= word@);
    true
}

/// Whether `a` and `b` hold the same characters.
pub fn same_text(a: &str, b: &str) -> (r: bool)
    ensures
        r == (a@ == b@),
{
    let v = chars_of(a);
    assert(v@.subrange(0, v@.len() as int) =~= v@);
    spells(&v, 0, v.len(), b)
}

fn folded(c: char) -> (n: u32)
    ensures
        n == fold_code(c),
{
    if 'A' <= c && c <= 'Z' {
        c as u32 + 32
    } else {
        c as u32
    }
}

/// Whether `v[from..to]` spells the word `w` up to ASCII letter case.
pub fn spells_folded(v: &Vec<char>, from: usize, to: usize, w: &str) -> (b: bool)
    requires
        from <= to <= v@.len(),
    ensures
        b == same_folded(v@.subrange(from as int, to as int), w@),
{
    let word = chars_of(w);
    if word.len() != to - from {
        return false;
    }
    let ghost part = v@.subrange(from as int, to as int);
    let mut i: usize = 0;
    while i < word.len()
        invariant
            from <= to <= v@.len(),
            word@ == w@,
            word@.len() == to - from,
            part == v@.subrange(from as int, to as int),
            0 <= i <= word@.len(),
            forall|j: int| 0 <= j < i ==> fold_code(#[trigger] part[j]) == fold_code(word@[j]),
        decreases word@.len() - i,
    {
        if folded(v[from + i]) != folded(word[i]) {
            assert(part[i as int] == v@[from + i]);
            return false;
        }
        i += 1;
    }
    true
}

} // verus!
