//! Chord shapes: the table of chords that a song defines, the chords that
//! are known without a definition, and how a chord name is resolved.
//!
//! A shape is seven values. The first is the barre fret: `-1` for none, `0`
//! or `1` for a shape played at the nut, and from `2` on the fret that the
//! diagram starts at. The other six are the strings, from the lowest to the
//! highest: `-1` for a muted string, `0` for an open one, and from `1` on
//! the fret that is held down.

use vstd::prelude::*;
use crate::text::same_text;

verus! {

/// The value that stands for "nothing is known of this string".
pub const UNKNOWN_STRING: i8 = -2;

/// The seven values of a shape as a sequence.
pub open spec fn frets(barre: int, s1: int, s2: int, s3: int, s4: int, s5: int, s6: int) -> Seq<i8> {
    seq![barre as i8, s1 as i8, s2 as i8, s3 as i8, s4 as i8, s5 as i8, s6 as i8]
}

/// The shape drawn for a chord that nothing defines: no barre, and nothing
/// known of any string.
pub open spec fn unknown_chord() -> Seq<i8> {
    frets(0, -2, -2, -2, -2, -2, -2)
}

/// The map that a list of entries stands for: a later entry replaces an
/// earlier one of the same name.
pub open spec fn table_of(entries: Seq<(String, [i8; 7])>) -> Map<Seq<char>, Seq<i8>>
    decreases entries.len(),
{
    if entries.len() == 0 {
        Map::empty()
    } else {
        table_of(entries.drop_last()).insert(entries.last().0@, entries.last().1@)
    }
}

/// A table from chord names to shapes.
pub struct ChordTable {
    entries: Vec<(String, [i8; 7])>,
}

impl View for ChordTable {
    type V = Map<Seq<char>, Seq<i8>>;

    closed spec fn view(&self) -> Map<Seq<char>, Seq<i8>> {
        table_of(self.entries@)
    }
}

impl ChordTable {
    /// The empty table.
    pub fn new() -> (table: ChordTable)
        ensures
            table@ == Map::<Seq<char>, Seq<i8>>::empty(),
    {
        ChordTable { entries: Vec::new() }
    }

    /// Gives `name` the shape `def`, in place of any shape it had.
    pub fn insert(&mut self, name: String, def: [i8; 7])
        ensures
            final(self)@ == old(self)@.insert(name@, def@),
    {
        self.entries.push((name, def));
        assert(self.entries@.drop_last() =~= old(self).entries@);
    }

    /// The shape of `name`, if the table has one.
    pub fn get(&self, name: &str) -> (r: Option<[i8; 7]>)
        ensures
            match r {
                Some(def) => self@.dom().contains(name@) && self@[name@] == def@,
                None => !self@.dom().contains(name@),
            },
    {
        let mut i: usize = self.entries.len();
        assert(self.entries@.take(i as int) =~= self.entries@);
        while i > 0
            invariant
                0 <= i <= self.entries@.len(),
                self@.dom().contains(name@) == table_of(self.entries@.take(i as int)).dom().contains(
                    name@,
                ),
                self@.dom().contains(name@) ==> self@[name@] == table_of(
                    self.entries@.take(i as int),
                )[name@],
            decreases i,
        {
            i -= 1;
            proof {
                let upto = self.entries@.take(i + 1);
                assert(upto.drop_last() =~= self.entries@.take(i as int));
                assert(upto.last() == self.entries@[i as int]);
            }
            if same_text(self.entries[i].0.as_str(), name) {
                return Some(self.entries[i].1);
            }
        }
        None
    }
}

fn put(table: &mut ChordTable, name: &str, barre: i8, s1: i8, s2: i8, s3: i8, s4: i8, s5: i8, s6: i8)
    ensures
        final(table)@ == old(table)@.insert(
            name@,
            frets(barre as int, s1 as int, s2 as int, s3 as int, s4 as int, s5 as int, s6 as int),
        ),
{
    let def: [i8; 7] = [barre, s1, s2, s3, s4, s5, s6];
    assert(def@ =~= frets(
        barre as int,
        s1 as int,
        s2 as int,
        s3 as int,
        s4 as int,
        s5 as int,
        s6 as int,
    ));
    table.insert(name.to_owned(), def);
}

/// The chords that are known without a definition.
pub open spec fn known_chords() -> Map<Seq<char>, Seq<i8>> {
    Map::<Seq<char>, Seq<i8>>::empty()
        .insert("A"@, frets(-1, -1, 0, 2, 2, 2, 0))
        .insert("A7"@, frets(-1, -1, 0, 2, 0, 2, 0))
        .insert("Am"@, frets(-1, -1, 0, 2, 2, 1, 0))
        .insert("Am7"@, frets(-1, -1, 0, 2, 0, 1, 0))
        .insert("B"@, frets(2, -1, 1, 3, 3, 3, 1))
        .insert("B7"@, frets(-1, -1, 2, 1, 2, 0, 2))
        .insert("Bb"@, frets(1, -1, 1, 3, 3, 3, 1))
        .insert("Bm"@, frets(2, -1, 1, 3, 3, 2, 1))
        .insert("C"@, frets(-1, -1, 3, 2, 0, 1, 0))
        .insert("C7"@, frets(-1, -1, 3, 2, 3, 1, 0))
        .insert("Cm"@, frets(3, -1, 1, 3, 3, 2, 1))
        .insert("D"@, frets(-1, -1, -1, 0, 2, 3, 2))
        .insert("D7"@, frets(-1, -1, -1, 0, 2, 1, 2))
        .insert("Dm"@, frets(-1, -1, -1, 0, 2, 3, 1))
        .insert("Dm7"@, frets(-1, -1, -1, 0, 2, 1, 1))
        .insert("E"@, frets(-1, 0, 2, 2, 1, 0, 0))
        .insert("E7"@, frets(-1, 0, 2, 0, 1, 0, 0))
        .insert("Em"@, frets(-1, 0, 2, 2, 0, 0, 0))
        .insert("Em7"@, frets(-1, 0, 2, 0, 0, 0, 0))
        .insert("F"@, frets(1, 1, 3, 3, 2, 1, 1))
        .insert("F#m"@, frets(2, 1, 3, 3, 1, 1, 1))
        .insert("Fm"@, frets(1, 1, 3, 3, 1, 1, 1))
        .insert("G"@, frets(-1, 3, 2, 0, 0, 0, 3))
        .insert("G7"@, frets(-1, 3, 2, 0, 0, 0, 1))
        .insert("Gm"@, frets(3, 1, 3, 3, 1, 1, 1))
}

/// The table of the chords that are known without a definition.
pub fn get_known_chords() -> (table: ChordTable)
    ensures
        table@ == known_chords(),
{
    let mut table = ChordTable::new();
    put(&mut table, "A", -1, -1, 0, 2, 2, 2, 0);
    put(&mut table, "A7", -1, -1, 0, 2, 0, 2, 0);
    put(&mut table, "Am", -1, -1, 0, 2, 2, 1, 0);
    put(&mut table, "Am7", -1, -1, 0, 2, 0, 1, 0);
    put(&mut table, "B", 2, -1, 1, 3, 3, 3, 1);
    put(&mut table, "B7", -1, -1, 2, 1, 2, 0, 2);
    put(&mut table, "Bb", 1, -1, 1, 3, 3, 3, 1);
    put(&mut table, "Bm", 2, -1, 1, 3, 3, 2, 1);
    put(&mut table, "C", -1, -1, 3, 2, 0, 1, 0);
    put(&mut table, "C7", -1, -1, 3, 2, 3, 1, 0);
    put(&mut table, "Cm", 3, -1, 1, 3, 3, 2, 1);
    put(&mut table, "D", -1, -1, -1, 0, 2, 3, 2);
    put(&mut table, "D7", -1, -1, -1, 0, 2, 1, 2);
    put(&mut table, "Dm", -1, -1, -1, 0, 2, 3, 1);
    put(&mut table, "Dm7", -1, -1, -1, 0, 2, 1, 1);
    put(&mut table, "E", -1, 0, 2, 2, 1, 0, 0);
    put(&mut table, "E7", -1, 0, 2, 0, 1, 0, 0);
    put(&mut table, "Em", -1, 0, 2, 2, 0, 0, 0);
    put(&mut table, "Em7", -1, 0, 2, 0, 0, 0, 0);
    put(&mut table, "F", 1, 1, 3, 3, 2, 1, 1);
    put(&mut table, "F#m", 2, 1, 3, 3, 1, 1, 1);
    put(&mut table, "Fm", 1, 1, 3, 3, 1, 1, 1);
    put(&mut table, "G", -1, 3, 2, 0, 0, 0, 3);
    put(&mut table, "G7", -1, 3, 2, 0, 0, 0, 1);
    put(&mut table, "Gm", 3, 1, 3, 3, 1, 1, 1);
    table
}

/// The shape that `name` resolves to: the song's own definition where it
/// has one, else the known chord of that name, else the unknown shape.
pub open spec fn resolved(
    name: Seq<char>,
    local: Map<Seq<char>, Seq<i8>>,
    known: Map<Seq<char>, Seq<i8>>,
) -> Seq<i8> {
    if local.dom().contains(name) {
        local[name]
    } else if known.dom().contains(name) {
        known[name]
    } else {
        unknown_chord()
    }
}

/// Whether `name` has a shape in one of the two tables.
pub open spec fn is_defined(
    name: Seq<char>,
    local: Map<Seq<char>, Seq<i8>>,
    known: Map<Seq<char>, Seq<i8>>,
) -> bool {
    local.dom().contains(name) || known.dom().contains(name)
}

/// A resolved chord: its shape, and whether a table had it.
pub struct Resolution {
    pub def: [i8; 7],
    pub defined: bool,
}

/// Resolves `name`: first in `local`, then in `known`; a name that is in
/// neither gets the unknown shape.
pub fn resolve(name: &str, local: &ChordTable, known: &ChordTable) -> (r: Resolution)
    ensures
        r.def@ == resolved(name@, local@, known@),
        r.defined == is_defined(name@, local@, known@),
{
    match local.get(name) {
        Some(def) => Resolution { def, defined: true },
        None => match known.get(name) {
            Some(def) => Resolution { def, defined: true },
            None => {
                let def: [i8; 7] = [
                    0,
                    UNKNOWN_STRING,
                    UNKNOWN_STRING,
                    UNKNOWN_STRING,
                    UNKNOWN_STRING,
                    UNKNOWN_STRING,
                    UNKNOWN_STRING,
                ];
                assert(def@ =~= unknown_chord());
                Resolution { def, defined: false }
            },
        },
    }
}

/// A name resolves to the song's own definition wherever the song has
/// one, whatever the known chords say; a name that only the known chords
/// have resolves to theirs; a name in neither resolves to the unknown shape,
/// in which nothing is known of any string.
pub proof fn lemma_resolution_order(
    name: Seq<char>,
    local: Map<Seq<char>, Seq<i8>>,
    known: Map<Seq<char>, Seq<i8>>,
)
    ensures
        local.dom().contains(name) ==> resolved(name, local, known) == local[name],
        !local.dom().contains(name) && known.dom().contains(name) ==> resolved(name, local, known)
            == known[name],
        !is_defined(name, local, known) ==> {
            &&& resolved(name, local, known) == unknown_chord()
            &&& resolved(name, local, known).len() == 7
            &&& forall|s: int| 1 <= s <= 6 ==> resolved(name, local, known)[s] == UNKNOWN_STRING
        },
{
}

/// A definition made in a song holds from then on, whatever the name
/// resolved to before, until the song defines the name again.
pub proof fn lemma_definition_resolves(
    name: Seq<char>,
    def: Seq<i8>,
    local: Map<Seq<char>, Seq<i8>>,
    known: Map<Seq<char>, Seq<i8>>,
)
    ensures
        resolved(name, local.insert(name, def), known) == def,
        forall|other: Seq<char>|
            other != name ==> #[trigger] resolved(other, local.insert(name, def), known) == resolved(
                other,
                local,
                known,
            ),
{
}

} // verus!
