//! Chord sheets: parsing the line-oriented song format and laying a song
//! out as a page of drawing operations.
//!
//! A song is a sequence of text lines. Directive lines such as
//! `{title: ...}` or `{define: ...}` carry headings and chord shapes; every
//! other line is a lyric line with chord names in square brackets.
//!
//! * [`parser`] turns the lines into expressions, see [`expr`].
//! * [`song`] reads the expressions of a song and gives its page, see
//!   [`page`]: headings and lyric lines from the top down, laid out by
//!   [`layout`], and one chord diagram, drawn by [`diagram`], for each chord
//!   that the lyrics use, in the order of [`order`].
//! * [`chords`] holds the shapes of the chords.
//!
//! Everything is computed on exact integers, and nothing here reads or
//! writes a file: a page is a value that a program can then draw.

pub mod text;
pub mod expr;
pub mod parser;
pub mod chords;
pub mod page;
pub mod layout;
pub mod diagram;
pub mod order;
pub mod song;
