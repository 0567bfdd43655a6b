//! Lexicographic order on strings viewed as sequences of Unicode scalars.
//! This is the order of `String`'s `Ord`: UTF-8 preserves the order of code
//! points, so comparing bytes and comparing scalars agree.

use vstd::prelude::*;
use crate::text::chars_of;

verus! {

broadcast use vstd::string::group_string_axioms;

/// `a` sorts strictly before `b`.
pub open spec fn char_seq_lt(a: Seq<char>, b: Seq<char>) -> bool
    decreases a.len(),
{
    if a.len() == 0 {
        b.len() > 0
    } else if b.len() == 0 {
        false
    } else if (a[0] as int) < (b[0] as int) {
        true
    } else if a[0] == b[0] {
        char_seq_lt(a.drop_first(), b.drop_first())
    } else {
        false
    }
}

pub proof fn lemma_lt_irreflexive(a: Seq<char>)
    ensures
        !char_seq_lt(a, a),
    decreases a.len(),
{
    if a.len() > 0 {
        lemma_lt_irreflexive(a.drop_first());
    }
}

pub proof fn lemma_lt_transitive(a: Seq<char>, b: Seq<char>, c: Seq<char>)
    requires
        char_seq_lt(a, b),
        char_seq_lt(b, c),
    ensures
        char_seq_lt(a, c),
    decreases a.len(),
{
    if a.len() > 0 && b.len() > 0 && c.len() > 0 {
        if a[0] == b[0] && b[0] == c[0] {
            lemma_lt_transitive(a.drop_first(), b.drop_first(), c.drop_first());
        }
    }
}

pub proof fn lemma_lt_total(a: Seq<char>, b: Seq<char>)
    requires
        a != b,
    ensures
        char_seq_lt(a, b) || char_seq_lt(b, a),
    decreases a.len(),
{
    if a.len() > 0 && b.len() > 0 {
        if a[0] == b[0] {
            if a.drop_first() == b.drop_first() {
                assert(a =~= seq![a[0]] + a.drop_first());
                assert(b =~= seq![b[0]] + b.drop_first());
            }
            lemma_lt_total(a.drop_first(), b.drop_first());
        } else {
            assert((a[0] as int) != (b[0] as int));
        }
    } else if a.len() == 0 && b.len() == 0 {
        assert(a =~= b);
    }
}

pub proof fn lemma_lt_asymmetric(a: Seq<char>, b: Seq<char>)
    requires
        char_seq_lt(a, b),
    ensures
        !char_seq_lt(b, a),
{
    if char_seq_lt(b, a) {
        lemma_lt_transitive(a, b, a);
        lemma_lt_irreflexive(a);
    }
}

proof fn lemma_lt_skip(a: Seq<char>, b: Seq<char>, i: int)
    requires
        0 <= i < a.len(),
        i < b.len(),
        a[i] == b[i],
    ensures
        char_seq_lt(a.skip(i), b.skip(i)) == char_seq_lt(a.skip(i + 1), b.skip(i + 1)),
{
    assert(a.skip(i).drop_first() =~= a.skip(i + 1));
    assert(b.skip(i).drop_first() =~= b.skip(i + 1));
}

/// The Unicode scalar value of `c`, which is the integer that
/// specifications see as `c as int`.
pub(crate) fn scalar_value(c: char) -> (r: u32)
    ensures
        r as int == c as int,
{
    c as u32
}

/// Compares two scalar sequences.
pub fn chars_lt(a: &Vec<char>, b: &Vec<char>) -> (r: bool)
    ensures
        r == char_seq_lt(a@, b@),
{
    let mut i: usize = 0;
    assert(a@.skip(0) =~= a@);
    assert(b@.skip(0) =~= b@);
    while i < a.len() && i < b.len()
        invariant
            i <= a.len(),
            i <= b.len(),
            char_seq_lt(a@, b@) == char_seq_lt(a@.skip(i as int), b@.skip(i as int)),
        decreases a.len() - i,
    {
        let x = a[i];
        let y = b[i];
        if scalar_value(x) < scalar_value(y) {
            return true;
        }
        if x != y {
            return false;
        }
        proof {
            lemma_lt_skip(a@, b@, i as int);
        }
        i += 1;
    }
    i == a.len() && i < b.len()
}

/// Compares two strings in the order of `String`'s `Ord`.
pub fn str_lt(a: &str, b: &str) -> (r: bool)
    ensures
        r == char_seq_lt(a@, b@),
{
    let ca = chars_of(a);
    let cb = chars_of(b);
    chars_lt(&ca, &cb)
}

/// Strictly increasing, hence free of repeats.
pub open spec fn strictly_sorted(v: Seq<Seq<char>>) -> bool {
    forall|i: int, j: int| 0 <= i < j < v.len() ==> char_seq_lt(#[trigger] v[i], #[trigger] v[j])
}


proof fn lemma_neighbours_chain(v: Seq<Seq<char>>, i: int, j: int)
    requires
        forall|k: int| 0 <= k < v.len() - 1 ==> char_seq_lt(#[trigger] v[k], v[k + 1]),
        0 <= i < j < v.len(),
    ensures
        char_seq_lt(v[i], v[j]),
    decreases j - i,
{
    if j > i + 1 {
        lemma_neighbours_chain(v, i, j - 1);
        assert(char_seq_lt(v[j - 1], v[j]));
        lemma_lt_transitive(v[i], v[j - 1], v[j]);
    }
}

/// A sequence whose neighbours are in increasing order is in increasing
/// order.
pub proof fn lemma_neighbours_sorted(v: Seq<Seq<char>>)
    requires
        forall|k: int| 0 <= k < v.len() - 1 ==> char_seq_lt(#[trigger] v[k], v[k + 1]),
    ensures
        strictly_sorted(v),
{
    assert forall|i: int, j: int| 0 <= i < j < v.len() implies char_seq_lt(#[trigger] v[i], #[trigger] v[j]) by {
        lemma_neighbours_chain(v, i, j);
    }
}

} // verus!
