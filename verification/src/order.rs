//! The order of chord names, and sequences of names kept in that order.
//!
//! Names are ordered as strings are: character by character, a name
//! before every longer name that starts with it.

use vstd::prelude::*;
use crate::text::{chars_of, same_text};

verus! {

/// Whether `a` comes before `b`, given that they agree before index `i`.
pub open spec fn less_from(a: Seq<char>, b: Seq<char>, i: int) -> bool
    decreases a.len() - i,
{
    if i < 0 || i >= b.len() {
        false
    } else if i >= a.len() {
        true
    } else if a[i] != b[i] {
        a[i] < b[i]
    } else {
        less_from(a, b, i + 1)
    }
}

/// Whether `a` comes before `b` in the order of names.
pub open spec fn lex_less(a: Seq<char>, b: Seq<char>) -> bool {
    less_from(a, b, 0)
}

/// Whether each name of `names` comes before all those after it.
pub open spec fn increasing(names: Seq<Seq<char>>) -> bool {
    forall|i: int, j: int| 0 <= i < j < names.len() ==> lex_less(#[trigger] names[i], #[trigger] names[j])
}

/// The first index at or after `from` whose name does not come before
/// `name`; `names.len()` if there is none.
pub open spec fn rank(names: Seq<Seq<char>>, name: Seq<char>, from: int) -> int
    decreases names.len() - from,
{
    if from < 0 || from >= names.len() {
        names.len() as int
    } else if !lex_less(names[from], name) {
        from
    } else {
        rank(names, name, from + 1)
    }
}

/// `names` with `name` put in at its rank, unless it stands there already.
pub open spec fn with_name(names: Seq<Seq<char>>, name: Seq<char>) -> Seq<Seq<char>> {
    let p = rank(names, name, 0);
    if p < names.len() && names[p] == name {
        names
    } else {
        names.insert(p, name)
    }
}

proof fn lemma_less_from_asymmetric(a: Seq<char>, b: Seq<char>, i: int)
    requires
        0 <= i,
        less_from(a, b, i),
    ensures
        !less_from(b, a, i),
    decreases a.len() - i,
{
    if i < a.len() && i < b.len() && a[i] == b[i] {
        lemma_less_from_asymmetric(a, b, i + 1);
    }
}

proof fn lemma_less_from_transitive(a: Seq<char>, b: Seq<char>, c: Seq<char>, i: int)
    requires
        0 <= i,
        less_from(a, b, i),
        less_from(b, c, i),
    ensures
        less_from(a, c, i),
    decreases a.len() - i,
{
    if i < a.len() && a[i] == b[i] && b[i] == c[i] {
        lemma_less_from_transitive(a, b, c, i + 1);
    }
}

proof fn lemma_less_from_total(a: Seq<char>, b: Seq<char>, i: int)
    requires
        0 <= i,
        i <= a.len(),
        i <= b.len(),
        forall|j: int| 0 <= j < i ==> a[j] == b[j],
        !less_from(a, b, i),
        !less_from(b, a, i),
    ensures
        a =~= b,
    decreases a.len() - i,
{
    if i < a.len() && i < b.len() {
        lemma_less_from_total(a, b, i + 1);
    }
}

/// No name comes before itself, and of two names at most one comes before
/// the other.
pub proof fn lemma_lex_asymmetric(a: Seq<char>, b: Seq<char>)
    ensures
        !(lex_less(a, b) && lex_less(b, a)),
        !lex_less(a, a),
{
    if lex_less(a, b) {
        lemma_less_from_asymmetric(a, b, 0);
    }
    if lex_less(a, a) {
        lemma_less_from_asymmetric(a, a, 0);
    }
}

/// What comes before a name comes before all that the name comes before.
pub proof fn lemma_lex_transitive(a: Seq<char>, b: Seq<char>, c: Seq<char>)
    requires
        lex_less(a, b),
        lex_less(b, c),
    ensures
        lex_less(a, c),
{
    lemma_less_from_transitive(a, b, c, 0);
}

/// Of two different names one comes before the other.
pub proof fn lemma_lex_total(a: Seq<char>, b: Seq<char>)
    ensures
        a == b || lex_less(a, b) || lex_less(b, a),
{
    if !lex_less(a, b) && !lex_less(b, a) {
        lemma_less_from_total(a, b, 0);
    }
}

proof fn lemma_rank(names: Seq<Seq<char>>, name: Seq<char>, from: int)
    requires
        0 <= from <= names.len(),
    ensures
        from <= rank(names, name, from) <= names.len(),
        forall|k: int| from <= k < rank(names, name, from) ==> lex_less(#[trigger] names[k], name),
        rank(names, name, from) < names.len() ==> !lex_less(names[rank(names, name, from)], name),
    decreases names.len() - from,
{
    if from < names.len() && lex_less(names[from], name) {
        lemma_rank(names, name, from + 1);
    }
}

/// Putting a name into an increasing sequence leaves it increasing, and
/// adds that name to it and no other.
pub proof fn lemma_with_name(names: Seq<Seq<char>>, name: Seq<char>)
    requires
        increasing(names),
    ensures
        increasing(with_name(names, name)),
        with_name(names, name).contains(name),
        forall|x: Seq<char>| #[trigger] with_name(names, name).contains(x) <==> names.contains(x) || x == name,
{
    let p = rank(names, name, 0);
    let out = with_name(names, name);
    lemma_rank(names, name, 0);
    if p < names.len() && names[p] == name {
        assert(names[p] == name);
    } else {
        assert(out == names.insert(p, name));
        assert(out[p] == name);
        assert forall|i: int, j: int| 0 <= i < j < out.len() implies lex_less(
            #[trigger] out[i],
            #[trigger] out[j],
        ) by {
            if j < p {
                assert(out[i] == names[i] && out[j] == names[j]);
            } else if j == p {
                assert(out[i] == names[i]);
            } else if i == p {
                assert(out[j] == names[j - 1]);
                lemma_lex_total(name, names[p]);
                if j - 1 > p {
                    assert(lex_less(names[p], names[j - 1]));
                    lemma_lex_transitive(name, names[p], names[j - 1]);
                }
            } else if i < p {
                assert(out[i] == names[i] && out[j] == names[j - 1]);
            } else {
                assert(out[i] == names[i - 1] && out[j] == names[j - 1]);
            }
        }
        assert forall|x: Seq<char>| #[trigger] out.contains(x) <==> names.contains(x) || x == name by {
            if out.contains(x) {
                let k = choose|k: int| 0 <= k < out.len() && out[k] == x;
                if k < p {
                    assert(names[k] == x);
                } else if k > p {
                    assert(names[k - 1] == x);
                }
            }
            if names.contains(x) {
                let k = choose|k: int| 0 <= k < names.len() && names[k] == x;
                if k < p {
                    assert(out[k] == x);
                } else {
                    assert(out[k + 1] == x);
                }
            }
        }
    }
}

proof fn lemma_same_first(a: Seq<Seq<char>>, b: Seq<Seq<char>>)
    requires
        increasing(a),
        increasing(b),
        a.len() > 0,
        forall|x: Seq<char>| a.contains(x) <==> b.contains(x),
    ensures
        b.len() > 0,
        a[0] == b[0],
{
    assert(a.contains(a[0]));
    let j = choose|j: int| 0 <= j < b.len() && b[j] == a[0];
    assert(b.contains(b[0]));
    let i = choose|i: int| 0 <= i < a.len() && a[i] == b[0];
    if i > 0 {
        assert(lex_less(a[0], a[i]));
        if j > 0 {
            assert(lex_less(b[0], b[j]));
        }
        lemma_lex_asymmetric(a[0], b[0]);
    }
}

proof fn lemma_tail_members(a: Seq<Seq<char>>, b: Seq<Seq<char>>, x: Seq<char>)
    requires
        increasing(a),
        increasing(b),
        a.len() > 0,
        b.len() > 0,
        a[0] == b[0],
        forall|y: Seq<char>| a.contains(y) <==> b.contains(y),
        a.drop_first().contains(x),
    ensures
        b.drop_first().contains(x),
{
    let k = choose|k: int| 0 <= k < a.drop_first().len() && a.drop_first()[k] == x;
    assert(a[k + 1] == x);
    assert(a.contains(x));
    let l = choose|l: int| 0 <= l < b.len() && b[l] == x;
    if l == 0 {
        assert(lex_less(a[0], a[k + 1]));
        lemma_lex_asymmetric(a[0], a[0]);
    } else {
        assert(b.drop_first()[l - 1] == x);
    }
}

/// There is one increasing sequence of any given names: two increasing
/// sequences that hold the same names are the same sequence.
pub proof fn lemma_increasing_unique(a: Seq<Seq<char>>, b: Seq<Seq<char>>)
    requires
        increasing(a),
        increasing(b),
        forall|x: Seq<char>| a.contains(x) <==> b.contains(x),
    ensures
        a == b,
    decreases a.len(),
{
    if a.len() == 0 {
        if b.len() > 0 {
            assert(b.contains(b[0]));
        }
        assert(a =~= b);
    } else {
        lemma_same_first(a, b);
        let at = a.drop_first();
        let bt = b.drop_first();
        assert forall|i: int, j: int| 0 <= i < j < at.len() implies lex_less(
            #[trigger] at[i],
            #[trigger] at[j],
        ) by {
            assert(at[i] == a[i + 1] && at[j] == a[j + 1]);
        }
        assert forall|i: int, j: int| 0 <= i < j < bt.len() implies lex_less(
            #[trigger] bt[i],
            #[trigger] bt[j],
        ) by {
            assert(bt[i] == b[i + 1] && bt[j] == b[j + 1]);
        }
        assert forall|x: Seq<char>| at.contains(x) <==> bt.contains(x) by {
            if at.contains(x) {
                lemma_tail_members(a, b, x);
            }
            if bt.contains(x) {
                lemma_tail_members(b, a, x);
            }
        }
        lemma_increasing_unique(at, bt);
        assert(a =~= seq![a[0]] + at);
        assert(b =~= seq![b[0]] + bt);
    }
}

/// The order in which names are put in does not matter.
pub proof fn lemma_with_name_commutes(names: Seq<Seq<char>>, x: Seq<char>, y: Seq<char>)
    requires
        increasing(names),
    ensures
        with_name(with_name(names, x), y) == with_name(with_name(names, y), x),
{
    lemma_with_name(names, x);
    lemma_with_name(names, y);
    lemma_with_name(with_name(names, x), y);
    lemma_with_name(with_name(names, y), x);
    lemma_increasing_unique(with_name(with_name(names, x), y), with_name(with_name(names, y), x));
}

/// Tells whether `a` comes before `b`.
pub fn comes_before(a: &str, b: &str) -> (r: bool)
    ensures
        r == lex_less(a@, b@),
{
    let x = chars_of(a);
    let y = chars_of(b);
    let mut i: usize = 0;
    while i < x.len() && i < y.len()
        invariant
            x@ == a@,
            y@ == b@,
            0 <= i <= x@.len(),
            i <= y@.len(),
            less_from(x@, y@, i as int) == lex_less(a@, b@),
        decreases x@.len() - i,
    {
        if x[i] != y[i] {
            return x[i] < y[i];
        }
        i += 1;
    }
    i < y.len()
}

/// Puts `name` into `names` at its rank, unless it stands there already.
pub fn put_name(names: &mut Vec<String>, name: &str)
    ensures
        final(names).deep_view() == with_name(old(names).deep_view(), name@),
{
    let ghost before = names.deep_view();
    let mut p: usize = 0;
    while p < names.len() && comes_before(names[p].as_str(), name)
        invariant
            names.deep_view() == before,
            0 <= p <= names@.len(),
            rank(before, name@, p as int) == rank(before, name@, 0),
        decreases names@.len() - p,
    {
        assert(before[p as int] == names@[p as int]@);
        p += 1;
    }
    proof {
        if p < names@.len() {
            assert(before[p as int] == names@[p as int]@);
        }
    }
    if p < names.len() && same_text(names[p].as_str(), name) {
        return ;
    }
    names.insert(p, name.to_owned());
    assert(names.deep_view() =~= before.insert(p as int, name@));
}

} // verus!
