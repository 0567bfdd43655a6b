//! The runtime alphabet: an ordered list of compiled letter symbols.
//! A letter's index is its position in that list.

use vstd::prelude::*;

verus! {

/// The compiled symbols of the alphabet, in index order; no symbol occurs
/// twice, so a letter and its symbol determine each other.
pub struct Alphabet {
    pub(crate) symbols: Vec<char>,
}

impl View for Alphabet {
    type V = Seq<char>;

    /// The symbols, in letter order.
    closed spec fn view(&self) -> Seq<char> {
        self.symbols@
    }
}

impl Alphabet {
    /// The alphabet's symbols never repeat.
    #[verifier::type_invariant]
    spec fn distinct_symbols(self) -> bool {
        self.symbols@.no_duplicates()
    }

    /// The alphabet of the given symbols, in order; `None` when a symbol
    /// occurs twice.
    pub fn new(symbols: Vec<char>) -> (r: Option<Alphabet>)
        ensures
            symbols@.no_duplicates() <==> r is Some,
            r matches Some(a) ==> a@ == symbols@,
    {
        let mut i: usize = 0;
        while i < symbols.len()
            invariant
                i <= symbols@.len(),
                forall|a: int, b: int| 0 <= a < i && 0 <= b < symbols@.len() && a != b ==> symbols@[a] != symbols@[b],
            decreases symbols.len() - i,
        {
            let mut j: usize = 0;
            while j < symbols.len()
                invariant
                    i < symbols@.len(),
                    j <= symbols@.len(),
                    forall|a: int, b: int| 0 <= a < i && 0 <= b < symbols@.len() && a != b ==> symbols@[a] != symbols@[b],
                    forall|b: int| 0 <= b < j && b != i ==> symbols@[i as int] != symbols@[b],
                decreases symbols.len() - j,
            {
                if j != i && symbols[i] == symbols[j] {
                    return None;
                }
                j += 1;
            }
            i += 1;
        }
        Some(Alphabet { symbols })
    }

    /// The symbols, in letter order.
    pub fn symbols(&self) -> (r: &Vec<char>)
        ensures
            r@ == self@,
            r@.no_duplicates(),
    {
        proof {
            use_type_invariant(self);
        }
        &self.symbols
    }
}

/// The first position of `c` in `syms`, if any.
pub open spec fn letter_index(syms: Seq<char>, c: char) -> Option<int> {
    if syms.contains(c) {
        Some(
            choose|i: int|
                0 <= i < syms.len() && syms[i] == c && forall|j: int| 0 <= j < i ==> syms[j] != c,
        )
    } else {
        None
    }
}

/// The letter indices of the scalars of `w` that belong to the alphabet,
/// in order; scalars outside the alphabet are skipped.
pub open spec fn word_letters(syms: Seq<char>, w: Seq<char>) -> Seq<usize>
    decreases w.len(),
{
    if w.len() == 0 {
        Seq::empty()
    } else {
        let prev = word_letters(syms, w.drop_last());
        match letter_index(syms, w.last()) {
            Some(l) => prev.push(l as usize),
            None => prev,
        }
    }
}

/// Every scalar of `w` belongs to the alphabet.
pub open spec fn all_in_alphabet(syms: Seq<char>, w: Seq<char>) -> bool {
    forall|i: int| 0 <= i < w.len() ==> syms.contains(#[trigger] w[i])
}

pub proof fn lemma_letter_index_props(syms: Seq<char>, c: char)
    ensures
        match letter_index(syms, c) {
            Some(i) => 0 <= i < syms.len() && syms[i] == c && forall|j: int|
                0 <= j < i ==> syms[j] != c,
            None => !syms.contains(c),
        },
{
    if syms.contains(c) {
        let k = choose|k: int| 0 <= k < syms.len() && syms[k] == c;
        lemma_first_occurrence(syms, c, k);
    }
}

proof fn lemma_first_occurrence(syms: Seq<char>, c: char, k: int)
    requires
        0 <= k < syms.len(),
        syms[k] == c,
    ensures
        exists|i: int|
            0 <= i < syms.len() && syms[i] == c && forall|j: int| 0 <= j < i ==> syms[j] != c,
    decreases k,
{
    if exists|j: int| 0 <= j < k && syms[j] == c {
        let j = choose|j: int| 0 <= j < k && syms[j] == c;
        lemma_first_occurrence(syms, c, j);
    }
}

pub proof fn lemma_word_letters_bounded(syms: Seq<char>, w: Seq<char>)
    ensures
        word_letters(syms, w).len() <= w.len(),
        forall|k: int|
            0 <= k < word_letters(syms, w).len() ==> (#[trigger] word_letters(syms, w)[k] as int)
                < syms.len(),
    decreases w.len(),
{
    if w.len() > 0 {
        lemma_word_letters_bounded(syms, w.drop_last());
        lemma_letter_index_props(syms, w.last());
    }
}

/// With distinct symbols, letter indices and symbols are inverse: the
/// letters found are exactly `0..n`, and each symbol's index is its own
/// position.
pub proof fn law_index_round_trip(syms: Seq<char>)
    requires
        syms.no_duplicates(),
    ensures
        forall|i: int| 0 <= i < syms.len() ==> #[trigger] letter_index(syms, syms[i]) == Some(i),
        forall|c: char, i: int| letter_index(syms, c) == Some(i) ==> 0 <= i < syms.len() && syms[i] == c,
{
    assert forall|i: int| 0 <= i < syms.len() implies #[trigger] letter_index(syms, syms[i]) == Some(i) by {
        lemma_letter_index_props(syms, syms[i]);
        assert(syms.contains(syms[i]));
    }
    assert forall|c: char, i: int| letter_index(syms, c) == Some(i) implies 0 <= i < syms.len() && syms[i] == c by {
        lemma_letter_index_props(syms, c);
    }
}

/// Some scalar has letter index `i` in `syms`.
pub open spec fn index_found(syms: Seq<char>, i: int) -> bool {
    exists|c: char| #[trigger] letter_index(syms, c) == Some(i)
}

/// Number of letters in the alphabet; the letters found by [`char_index`]
/// are exactly `0..n`.
pub fn n_letters(alpha: &Alphabet) -> (n: usize)
    ensures
        n == alpha@.len(),
        forall|i: int| #[trigger] index_found(alpha@, i) <==> 0 <= i < n,
{
    proof {
        use_type_invariant(alpha);
        law_index_round_trip(alpha@);
        assert forall|i: int| #[trigger] index_found(alpha@, i) <==> 0 <= i < alpha@.len() by {
            if 0 <= i < alpha@.len() {
                assert(letter_index(alpha@, alpha@[i]) == Some(i));
            }
        }
    }
    alpha.symbols.len()
}

/// Map a compiled symbol to its letter index.
pub fn char_index(alpha: &Alphabet, c: char) -> (r: Option<usize>)
    ensures
        r == match letter_index(alpha@, c) {
            Some(i) => Some(i as usize),
            None => None::<usize>,
        },
{
    proof {
        lemma_letter_index_props(alpha@, c);
    }
    let mut i: usize = 0;
    while i < alpha.symbols.len()
        invariant
            i <= alpha@.len(),
            forall|j: int| 0 <= j < i ==> alpha@[j] != c,
        decreases alpha.symbols.len() - i,
    {
        if alpha.symbols[i] == c {
            return Some(i);
        }
        i += 1;
    }
    None
}

/// The compiled symbol of letter `i`.
pub fn index_char(alpha: &Alphabet, i: usize) -> (c: char)
    requires
        i < alpha@.len(),
    ensures
        c == alpha@[i as int],
        letter_index(alpha@, c) == Some(i as int),
{
    proof {
        use_type_invariant(alpha);
        law_index_round_trip(alpha@);
    }
    alpha.symbols[i]
}

/// Letter indices of the alphabet scalars of `w`.
pub fn letters_of_word(alpha: &Alphabet, w: &str) -> (r: Vec<usize>)
    ensures
        r@ == word_letters(alpha@, w@),
{
    let cs = crate::text::chars_of(w);
    let mut out: Vec<usize> = Vec::new();
    let mut i: usize = 0;
    while i < cs.len()
        invariant
            i <= cs@.len(),
            cs@ == w@,
            out@ == word_letters(alpha@, cs@.take(i as int)),
        decreases cs.len() - i,
    {
        assert(cs@.take(i as int + 1).drop_last() =~= cs@.take(i as int));
        match char_index(alpha, cs[i]) {
            Some(l) => out.push(l),
            None => {},
        }
        i += 1;
    }
    assert(cs@.take(cs@.len() as int) =~= cs@);
    out
}

/// Number of occurrences of letter `l` in `ls`.
pub open spec fn occurrences(ls: Seq<usize>, l: int) -> nat
    decreases ls.len(),
{
    if ls.len() == 0 {
        0
    } else {
        occurrences(ls.drop_last(), l) + if ls.last() == l {
            1nat
        } else {
            0nat
        }
    }
}

pub proof fn lemma_occurrences_bound(ls: Seq<usize>, l: int)
    ensures
        occurrences(ls, l) <= ls.len(),
    decreases ls.len(),
{
    if ls.len() > 0 {
        lemma_occurrences_bound(ls.drop_last(), l);
    }
}

/// How many times each letter occurs in `w` (scalars outside the alphabet
/// are not counted).
pub fn letter_counts(alpha: &Alphabet, w: &str) -> (r: Vec<usize>)
    ensures
        r@.len() == alpha@.len(),
        forall|l: int| 0 <= l < r@.len() ==> #[trigger] r@[l] == occurrences(word_letters(alpha@, w@), l),
{
    let ls = letters_of_word(alpha, w);
    proof {
        lemma_word_letters_bounded(alpha@, w@);
    }
    let n = alpha.symbols.len();
    let mut counts: Vec<usize> = Vec::new();
    let mut i: usize = 0;
    while i < n
        invariant
            i <= n,
            counts@.len() == i,
            forall|l: int| 0 <= l < i ==> #[trigger] counts@[l] == 0,
        decreases n - i,
    {
        counts.push(0);
        i += 1;
    }
    let mut t: usize = 0;
    while t < ls.len()
        invariant
            t <= ls@.len(),
            n == alpha@.len(),
            counts@.len() == n,
            ls@ == word_letters(alpha@, w@),
            forall|k: int| 0 <= k < ls@.len() ==> (#[trigger] ls@[k] as int) < n,
            forall|l: int| 0 <= l < n ==> #[trigger] counts@[l] == occurrences(ls@.take(t as int), l),
        decreases ls.len() - t,
    {
        let l = ls[t];
        proof {
            assert(ls@.take(t + 1).drop_last() =~= ls@.take(t as int));
            lemma_occurrences_bound(ls@.take(t as int), l as int);
        }
        let c = counts[l];
        counts.set(l, c + 1);
        t += 1;
    }
    assert(ls@.take(ls@.len() as int) =~= ls@);
    counts
}

/// The positions of the positive entries of `c`, in increasing order.
pub open spec fn positive_positions(c: Seq<usize>) -> Seq<usize>
    decreases c.len(),
{
    if c.len() == 0 {
        Seq::empty()
    } else {
        let prev = positive_positions(c.drop_last());
        if c.last() > 0 {
            prev.push((c.len() - 1) as usize)
        } else {
            prev
        }
    }
}

pub proof fn lemma_positive_positions(c: Seq<usize>)
    requires
        c.len() <= usize::MAX,
    ensures
        forall|a: int, b: int| 0 <= a < b < positive_positions(c).len() ==> positive_positions(c)[a] < positive_positions(c)[b],
        forall|t: int| 0 <= t < positive_positions(c).len() ==> (#[trigger] positive_positions(c)[t] as int) < c.len(),
        forall|l: usize| positive_positions(c).contains(l) <==> ((l as int) < c.len() && c[l as int] > 0),
        positive_positions(c).len() <= c.len(),
    decreases c.len(),
{
    if c.len() > 0 {
        let d = c.drop_last();
        lemma_positive_positions(d);
        let p = positive_positions(d);
        let q = positive_positions(c);
        if c.last() > 0 {
            assert(q == p.push((c.len() - 1) as usize));
            assert forall|a: int, b: int| 0 <= a < b < q.len() implies q[a] < q[b] by {
                if b < p.len() {
                    assert(q[a] == p[a] && q[b] == p[b]);
                } else {
                    assert(q[a] == p[a]);
                    assert((p[a] as int) < d.len());
                }
            }
        } else {
            assert(q == p);
        }
        assert forall|l: usize| q.contains(l) <==> ((l as int) < c.len() && c[l as int] > 0) by {
            if q.contains(l) {
                let t = choose|t: int| 0 <= t < q.len() && q[t] == l;
                if t < p.len() {
                    assert(p[t] == l);
                    assert(p.contains(l));
                    assert(c[l as int] == d[l as int]);
                } else {
                    assert(c.last() > 0);
                    assert(l as int == c.len() - 1);
                }
            }
            if (l as int) < c.len() && c[l as int] > 0 {
                if (l as int) < d.len() {
                    assert(d[l as int] == c[l as int]);
                    assert(p.contains(l));
                    let t = choose|t: int| 0 <= t < p.len() && p[t] == l;
                    assert(q[t] == l);
                } else {
                    assert(q[q.len() - 1] == l);
                }
            }
        }
    }
}

/// The letters with a positive count, in increasing order.
pub fn present_letters(counts: &Vec<usize>) -> (key: Vec<usize>)
    ensures
        key@ == positive_positions(counts@),
{
    let mut key: Vec<usize> = Vec::new();
    let mut i: usize = 0;
    while i < counts.len()
        invariant
            i <= counts@.len(),
            key@ == positive_positions(counts@.take(i as int)),
        decreases counts.len() - i,
    {
        assert(counts@.take(i + 1).drop_last() =~= counts@.take(i as int));
        if counts[i] > 0 {
            key.push(i);
        }
        i += 1;
    }
    assert(counts@.take(counts@.len() as int) =~= counts@);
    key
}

} // verus!
